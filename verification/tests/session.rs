use wordle::config::{apply_config, string_to_option, Arguments, Config};
use wordle::progress::{derive_result, derive_results, update, Game, GameData};
use wordle::round::Outcome;
use wordle::stats::{compute_stats, lex_le_words, sorted_entries, WordCount};
use wordle::wordlist::check_valid_list;
use wordle::words::{contains_word, copy_word, copy_words, well_formed, words_equal};

fn wd(s: &str) -> Vec<u8> {
    s.as_bytes().to_vec()
}

fn wds(ws: &[&str]) -> Vec<Vec<u8>> {
    ws.iter().map(|s| wd(s)).collect()
}

fn empty_config() -> Config {
    Config {
        random: None,
        difficult: None,
        stats: None,
        day: None,
        seed: None,
        final_set: None,
        acceptable_set: None,
        state: None,
        word: None,
    }
}

fn default_args() -> Arguments {
    Arguments {
        word: None,
        random: false,
        difficult: false,
        stats: false,
        seed: None,
        day: None,
        final_set: None,
        acceptable_set: None,
        state: None,
    }
}

#[test]
fn string_to_option_drops_empty_strings() {
    assert_eq!(string_to_option(None), None);
    assert_eq!(string_to_option(Some(String::new())), None);
    assert_eq!(
        string_to_option(Some("CRANE".to_string())),
        Some("CRANE".to_string())
    );
}

#[test]
fn config_fills_only_absent_arguments() {
    let mut args = default_args();
    args.word = Some("SLATE".to_string());
    args.day = Some(3);
    let mut config = empty_config();
    config.word = Some("CRANE".to_string());
    config.day = Some(7);
    config.seed = Some(42);
    config.state = Some(String::new());
    apply_config(&mut args, config);
    assert_eq!(args.word, Some("SLATE".to_string()));
    assert_eq!(args.day, Some(3));
    assert_eq!(args.seed, Some(42));
    assert_eq!(args.state, None);
}

#[test]
fn config_flags_combine_with_or() {
    let mut args = default_args();
    args.stats = true;
    let mut config = empty_config();
    config.difficult = Some(true);
    config.random = Some(false);
    config.stats = Some(false);
    apply_config(&mut args, config);
    assert!(args.difficult);
    assert!(!args.random);
    assert!(args.stats);
}

#[test]
fn word_helpers_compare_and_copy() {
    assert!(words_equal(&wd("CRANE"), &wd("CRANE")));
    assert!(!words_equal(&wd("CRANE"), &wd("CRANS")));
    assert!(!words_equal(&wd("CRANE"), &wd("CRAN")));
    assert_eq!(copy_word(&wd("CRANE")), wd("CRANE"));
    assert_eq!(copy_words(&wds(&["AB", "CD"])), wds(&["AB", "CD"]));
    assert!(well_formed(&wd("CRANE")));
    assert!(!well_formed(&wd("CRAN")));
    assert!(!well_formed(&wd("cran1")));
    assert!(contains_word(&wds(&["CRANE", "SLATE"]), &wd("SLATE")));
    assert!(!contains_word(&wds(&["CRANE", "SLATE"]), &wd("QUERY")));
}

#[test]
fn list_check_requires_subset() {
    let base = wds(&["CRANE", "SLATE", "GRATE"]);
    assert!(check_valid_list(&wds(&["SLATE", "CRANE"]), &base));
    assert!(!check_valid_list(&wds(&["SLATE", "QUERY"]), &base));
}

#[test]
fn list_check_rejects_duplicates() {
    let base = wds(&["CRANE", "SLATE", "GRATE"]);
    assert!(!check_valid_list(&wds(&["SLATE", "SLATE"]), &base));
    assert!(check_valid_list(&wds(&[]), &base));
}

#[test]
fn update_appends_round_record() {
    let mut data = GameData {
        total_rounds: 0,
        games: Vec::new(),
    };
    update(&mut data, &wds(&["SLATE", "ABCDE"]), 1, wd("ABCDE"));
    assert_eq!(data.total_rounds, 1);
    assert_eq!(data.games.len(), 1);
    assert_eq!(data.games[0].answer, wd("ABCDE"));
    assert_eq!(data.games[0].guesses, wds(&["SLATE", "ABCDE"]));
    update(&mut data, &wds(&["CRANE"]), 2, wd("CRANE"));
    assert_eq!(data.total_rounds, 2);
    assert_eq!(data.games.len(), 2);
}

#[test]
fn derive_result_reads_outcome_back() {
    let won = Game {
        answer: wd("ABCDE"),
        guesses: wds(&["SLATE", "ABCDE"]),
    };
    assert_eq!(derive_result(&won), (Outcome::CORRECT, 2));
    let lost = Game {
        answer: wd("ABCDE"),
        guesses: wds(&["SLATE", "CRANE"]),
    };
    assert_eq!(derive_result(&lost), (Outcome::FAILED, 2));
}

#[test]
fn derive_results_covers_whole_session() {
    let data = GameData {
        total_rounds: 2,
        games: vec![
            Game {
                answer: wd("ABCDE"),
                guesses: wds(&["ABCDE"]),
            },
            Game {
                answer: wd("CRANE"),
                guesses: wds(&["SLATE", "GRATE"]),
            },
        ],
    };
    let results = derive_results(&data);
    assert_eq!(
        results,
        vec![(Outcome::CORRECT, 1), (Outcome::FAILED, 2)]
    );
}

#[test]
fn compute_stats_counts_wins_losses_attempts() {
    let results = vec![
        (Outcome::CORRECT, 3),
        (Outcome::FAILED, 6),
        (Outcome::CORRECT, 5),
        (Outcome::FAILED, 6),
        (Outcome::FAILED, 6),
    ];
    let (wins, losses, attempts) = compute_stats(&results);
    assert_eq!(wins, 2);
    assert_eq!(losses, 3);
    assert_eq!(attempts, 8);
}

#[test]
fn word_count_tracks_uses() {
    let mut wc = WordCount::new();
    wc.bump(&wd("SLATE"));
    wc.bump(&wd("CRANE"));
    wc.bump(&wd("SLATE"));
    assert_eq!(wc.entries.len(), 2);
    let slate = wc
        .entries
        .iter()
        .find(|e| e.0 == wd("SLATE"))
        .unwrap();
    assert_eq!(slate.1, 2);
    let crane = wc
        .entries
        .iter()
        .find(|e| e.0 == wd("CRANE"))
        .unwrap();
    assert_eq!(crane.1, 1);
}

#[test]
fn bump_all_counts_every_occurrence() {
    let mut wc = WordCount::new();
    wc.bump(&wd("SLATE"));
    wc.bump_all(&wds(&["CRANE", "SLATE", "CRANE"]));
    let slate = wc.entries.iter().find(|e| e.0 == wd("SLATE")).unwrap();
    assert_eq!(slate.1, 2);
    let crane = wc.entries.iter().find(|e| e.0 == wd("CRANE")).unwrap();
    assert_eq!(crane.1, 2);
}

#[test]
fn lex_order_on_words() {
    assert!(lex_le_words(&wd("CRANE"), &wd("SLATE")));
    assert!(!lex_le_words(&wd("SLATE"), &wd("CRANE")));
    assert!(lex_le_words(&wd("CRANE"), &wd("CRANE")));
    assert!(lex_le_words(&wd("CRAN"), &wd("CRANE")));
    assert!(!lex_le_words(&wd("CRANE"), &wd("CRAN")));
}

#[test]
fn sorted_entries_orders_by_count_then_word() {
    let mut wc = WordCount::new();
    wc.bump(&wd("SLATE"));
    wc.bump(&wd("CRANE"));
    wc.bump(&wd("SLATE"));
    wc.bump(&wd("ABBEY"));
    let sorted = sorted_entries(&wc);
    assert_eq!(sorted.len(), 3);
    assert_eq!(sorted[0], (wd("SLATE"), 2));
    assert_eq!(sorted[1], (wd("ABBEY"), 1));
    assert_eq!(sorted[2], (wd("CRANE"), 1));
}
