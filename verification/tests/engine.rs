use wordle::compare::{check_correct, compare};
use wordle::round::{replay, Error, Outcome, Round};
use wordle::status::{merge, Status};
use wordle::validity::{
    check_valid_difficult, check_valid_hint, contains_letter, filter_possible, update_known_greens,
    valid_input,
};

fn word_of(s: &str) -> Vec<u8> {
    s.as_bytes().to_vec()
}

fn list_of(ws: &[&str]) -> Vec<Vec<u8>> {
    ws.iter().map(|s| word_of(s)).collect()
}

fn letter_slot(letters: &[Status], c: u8) -> Status {
    letters[(c - b'A') as usize]
}

#[test]
fn compare_exact_match_is_all_green() {
    let (pos, letters) = compare(&word_of("CRANE"), &word_of("CRANE"));
    assert_eq!(pos, vec![Status::G; 5]);
    assert!(check_correct(&pos));
    assert_eq!(letter_slot(&letters, b'C'), Status::G);
    assert_eq!(letter_slot(&letters, b'E'), Status::G);
    assert_eq!(letter_slot(&letters, b'Z'), Status::X);
}

#[test]
fn compare_green_only_where_positions_agree() {
    let (pos, _) = compare(&word_of("ABCDE"), &word_of("ABZZZ"));
    assert_eq!(pos[0], Status::G);
    assert_eq!(pos[1], Status::G);
    assert_ne!(pos[2], Status::G);
    assert_ne!(pos[3], Status::G);
    assert_ne!(pos[4], Status::G);
    assert!(!check_correct(&pos));
}

#[test]
fn compare_duplicate_guess_letters_against_single_answer_letter() {
    // Answer ABCDE, guess AABBE: the second A finds no remaining A, the
    // first B consumes the answer's only B, the second B finds none left.
    let (pos, letters) = compare(&word_of("ABCDE"), &word_of("AABBE"));
    assert_eq!(
        pos,
        vec![Status::G, Status::R, Status::Y, Status::R, Status::G]
    );
    assert_eq!(letter_slot(&letters, b'A'), Status::G);
    assert_eq!(letter_slot(&letters, b'B'), Status::Y);
    assert_eq!(letter_slot(&letters, b'E'), Status::G);
}

#[test]
fn compare_respects_duplicate_letter_budget() {
    // Answer SPEED has two E's; guessing ERASE may not mark more than two.
    let (pos, letters) = compare(&word_of("SPEED"), &word_of("ERASE"));
    assert_eq!(
        pos,
        vec![Status::Y, Status::R, Status::R, Status::Y, Status::Y]
    );
    let guess = word_of("ERASE");
    let marked_e = (0..5)
        .filter(|&i| guess[i] == b'E' && (pos[i] == Status::G || pos[i] == Status::Y))
        .count();
    assert_eq!(marked_e, 2);
    assert_eq!(letter_slot(&letters, b'E'), Status::Y);
    assert_eq!(letter_slot(&letters, b'S'), Status::Y);
    assert_eq!(letter_slot(&letters, b'R'), Status::R);
    assert_eq!(letter_slot(&letters, b'A'), Status::R);
}

#[test]
fn merge_prefers_higher_priority() {
    let mut a = vec![Status::X; 26];
    let mut b = vec![Status::X; 26];
    a[0] = Status::Y;
    b[0] = Status::G;
    a[1] = Status::R;
    b[1] = Status::Y;
    a[2] = Status::R;
    b[2] = Status::X;
    let m = merge(&a, &b);
    assert_eq!(m[0], Status::G);
    assert_eq!(m[1], Status::Y);
    assert_eq!(m[2], Status::R);
    assert_eq!(m[3], Status::X);
}

#[test]
fn merge_with_itself_changes_nothing() {
    let mut s = vec![Status::X; 26];
    s[0] = Status::G;
    s[5] = Status::Y;
    s[9] = Status::R;
    let m = merge(&s, &s);
    assert_eq!(m, s);
}

#[test]
fn merge_never_downgrades_green() {
    let mut acc = vec![Status::X; 26];
    acc[7] = Status::G;
    let mut row = vec![Status::X; 26];
    row[7] = Status::Y;
    let m = merge(&acc, &row);
    assert_eq!(m[7], Status::G);
}

#[test]
fn valid_input_rejects_bad_format() {
    let final_list = list_of(&["CRANE"]);
    let acceptable = list_of(&["CRANE", "SLATE"]);
    assert!(!valid_input(&word_of("CRAN"), false, &final_list, &acceptable));
    assert!(!valid_input(&word_of("CRANES"), false, &final_list, &acceptable));
    assert!(!valid_input(&word_of("cran1"), false, &final_list, &acceptable));
}

#[test]
fn valid_input_checks_list_membership() {
    let final_list = list_of(&["CRANE"]);
    let acceptable = list_of(&["CRANE", "SLATE"]);
    assert!(valid_input(&word_of("CRANE"), false, &final_list, &acceptable));
    assert!(valid_input(&word_of("SLATE"), false, &final_list, &acceptable));
    assert!(!valid_input(&word_of("SLATE"), true, &final_list, &acceptable));
    assert!(!valid_input(&word_of("QUERY"), false, &final_list, &acceptable));
}

#[test]
fn contains_letter_scans_whole_word() {
    assert!(contains_letter(&word_of("CRANE"), b'E'));
    assert!(!contains_letter(&word_of("CRANE"), b'Z'));
}

#[test]
fn update_known_greens_keeps_and_adds_fixed_positions() {
    let greens = vec![Status::G, Status::X, Status::X, Status::X, Status::X];
    let fb = vec![Status::X, Status::G, Status::Y, Status::R, Status::X];
    let updated = update_known_greens(&greens, &fb);
    assert_eq!(
        updated,
        vec![Status::G, Status::G, Status::X, Status::X, Status::X]
    );
}

#[test]
fn hard_mode_rejects_changed_green_letter() {
    let answer = word_of("ABCDE");
    let mut greens = vec![Status::X; 5];
    greens[0] = Status::G;
    let alphabet = vec![Status::X; 26];
    assert!(!check_valid_difficult(
        &word_of("BBCDE"),
        &answer,
        &greens,
        &alphabet
    ));
    assert!(check_valid_difficult(
        &word_of("AZZZZ"),
        &answer,
        &greens,
        &alphabet
    ));
}

#[test]
fn hard_mode_rejects_missing_yellow_letter() {
    let answer = word_of("ABCDE");
    let greens = vec![Status::X; 5];
    let mut alphabet = vec![Status::X; 26];
    alphabet[(b'B' - b'A') as usize] = Status::Y;
    assert!(!check_valid_difficult(
        &word_of("ACCDE"),
        &answer,
        &greens,
        &alphabet
    ));
    assert!(check_valid_difficult(
        &word_of("BCCDE"),
        &answer,
        &greens,
        &alphabet
    ));
}

#[test]
fn hint_check_keeps_only_feedback_reproducers() {
    // Guess CRANE against the hidden answer SLATE scores [R,R,G,R,G].
    let (fb, _) = compare(&word_of("SLATE"), &word_of("CRANE"));
    assert!(check_valid_hint(&fb, &word_of("SLATE"), &word_of("CRANE")));
    // CRANE itself would score all Green against the guess, not [R,R,G,R,G].
    assert!(!check_valid_hint(&fb, &word_of("CRANE"), &word_of("CRANE")));
}

#[test]
fn hint_pool_only_shrinks() {
    let pool = list_of(&["SLATE", "CRANE", "PLATE", "GRATE"]);
    let (fb, _) = compare(&word_of("SLATE"), &word_of("CRANE"));
    let narrowed = filter_possible(&pool, &fb, &word_of("CRANE"));
    assert!(narrowed.len() <= pool.len());
    assert_eq!(narrowed, list_of(&["SLATE", "PLATE"]));
    // Filtering the narrowed pool with the same feedback changes nothing.
    let again = filter_possible(&narrowed, &fb, &word_of("CRANE"));
    assert_eq!(again, narrowed);
}

#[test]
fn round_hint_pool_starts_full_and_shrinks() {
    let final_list = list_of(&["SLATE"]);
    let acceptable = list_of(&["SLATE", "CRANE", "PLATE", "GRATE"]);
    let mut round = Round::new(word_of("SLATE"), false, true, &acceptable);
    assert_eq!(round.possible, acceptable);
    let before = round.possible.len();
    round
        .guess(&word_of("CRANE"), &final_list, &acceptable)
        .unwrap();
    assert!(round.possible.len() <= before);
    // CRANE against answer SLATE scores [R,R,G,R,G]; only SLATE and PLATE
    // reproduce that feedback.
    assert_eq!(round.possible, list_of(&["SLATE", "PLATE"]));
    round
        .guess(&word_of("SLATE"), &final_list, &acceptable)
        .unwrap();
    assert!(round.possible.len() <= 2);
    assert_eq!(round.finished, Some(Outcome::CORRECT));
}

#[test]
fn round_win_records_outcome_and_count() {
    let final_list = list_of(&["ABCDE", "CRANE"]);
    let acceptable = list_of(&["ABCDE", "CRANE", "AABBE", "SLATE"]);
    let mut round = Round::new(word_of("ABCDE"), false, false, &acceptable);
    let fb = round
        .guess(&word_of("SLATE"), &final_list, &acceptable)
        .unwrap();
    assert!(!check_correct(&fb));
    assert_eq!(round.count, 1);
    assert!(round.finished.is_none());
    let fb = round
        .guess(&word_of("ABCDE"), &final_list, &acceptable)
        .unwrap();
    assert!(check_correct(&fb));
    assert_eq!(round.count, 2);
    assert_eq!(round.finished, Some(Outcome::CORRECT));
    assert_eq!(round.guesses.len(), 2);
}

#[test]
fn round_invalid_guess_costs_no_attempt() {
    let final_list = list_of(&["ABCDE"]);
    let acceptable = list_of(&["ABCDE", "SLATE"]);
    let mut round = Round::new(word_of("ABCDE"), false, false, &acceptable);
    assert_eq!(
        round.guess(&word_of("QUERY"), &final_list, &acceptable),
        Err(Error::INVALID)
    );
    assert_eq!(round.count, 0);
    assert_eq!(round.guesses.len(), 0);
    assert!(round.finished.is_none());
}

#[test]
fn round_hard_mode_violation_costs_no_attempt() {
    let final_list = list_of(&["ABCDE"]);
    let acceptable = list_of(&["ABCDE", "AZZZZ", "ZBCDZ", "ABCDZ"]);
    let mut round = Round::new(word_of("ABCDE"), true, false, &acceptable);
    round
        .guess(&word_of("AZZZZ"), &final_list, &acceptable)
        .unwrap();
    assert_eq!(round.count, 1);
    // Position 0 is now fixed to A; a guess moving it is refused.
    assert!(round
        .guess(&word_of("ZBCDZ"), &final_list, &acceptable)
        .is_err());
    assert_eq!(round.count, 1);
    assert!(round
        .guess(&word_of("ABCDZ"), &final_list, &acceptable)
        .is_ok());
    assert_eq!(round.count, 2);
}

#[test]
fn round_six_wrong_guesses_fail() {
    let final_list = list_of(&["ABCDE"]);
    let acceptable = list_of(&[
        "ABCDE", "SLATE", "CRANE", "MOUNT", "PIQUE", "WHIRL", "FUDGY",
    ]);
    let mut round = Round::new(word_of("ABCDE"), false, false, &acceptable);
    for wrong in ["SLATE", "CRANE", "MOUNT", "PIQUE", "WHIRL", "FUDGY"] {
        assert!(round.finished.is_none());
        round
            .guess(&word_of(wrong), &final_list, &acceptable)
            .unwrap();
    }
    assert_eq!(round.finished, Some(Outcome::FAILED));
    assert_eq!(round.count, 6);
    assert_eq!(round.guesses.len(), 6);
}

#[test]
fn replay_reproduces_recorded_outcome() {
    let final_list = list_of(&["ABCDE"]);
    let acceptable = list_of(&["ABCDE", "SLATE", "CRANE"]);
    let mut round = Round::new(word_of("ABCDE"), false, false, &acceptable);
    round
        .guess(&word_of("SLATE"), &final_list, &acceptable)
        .unwrap();
    round
        .guess(&word_of("CRANE"), &final_list, &acceptable)
        .unwrap();
    round
        .guess(&word_of("ABCDE"), &final_list, &acceptable)
        .unwrap();
    assert_eq!(round.finished, Some(Outcome::CORRECT));
    assert_eq!(
        replay(&round.answer, &round.guesses),
        Some((Outcome::CORRECT, 3))
    );
}

#[test]
fn replay_reports_failure_after_six_misses() {
    let answer = word_of("ABCDE");
    let guesses = list_of(&["SLATE", "CRANE", "MOUNT", "PIQUE", "WHIRL", "FUDGY"]);
    assert_eq!(replay(&answer, &guesses), Some((Outcome::FAILED, 6)));
    let short = list_of(&["SLATE", "CRANE"]);
    assert_eq!(replay(&answer, &short), None);
}
