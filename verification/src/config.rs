//! Configuration values merged into the command-line arguments.
//!
//! A configuration file may supply any of the options; a value given on the
//! command line always wins, boolean flags combine with or, and an empty
//! string counts as absent.

use vstd::prelude::*;

verus! {

/// The optional settings a configuration file may carry.
pub struct Config {
    pub random: Option<bool>,
    pub difficult: Option<bool>,
    pub stats: Option<bool>,
    pub day: Option<i32>,
    pub seed: Option<u64>,
    pub final_set: Option<String>,
    pub acceptable_set: Option<String>,
    pub state: Option<String>,
    pub word: Option<String>,
}

/// The effective settings of a session, after arguments and configuration
/// are combined.
pub struct Arguments {
    pub word: Option<String>,
    pub random: bool,
    pub difficult: bool,
    pub stats: bool,
    pub seed: Option<u64>,
    pub day: Option<i32>,
    pub final_set: Option<String>,
    pub acceptable_set: Option<String>,
    pub state: Option<String>,
}

/// Drops an empty string, keeps any other value.
pub fn string_to_option(s: Option<String>) -> (r: Option<String>)
    ensures
        r == (match s {
            Some(x) => if x@.len() > 0 {
                Some(x)
            } else {
                None
            },
            None => None::<String>,
        }),
{
    match s {
        Some(x) => if x.as_str().is_empty() {
            None
        } else {
            Some(x)
        },
        None => None,
    }
}

/// A string option from the configuration fills the argument only when the
/// argument is absent, and an empty string counts as absent.
pub open spec fn filled_string(prev: Option<String>, incoming: Option<String>) -> Option<String> {
    match incoming {
        Some(s) => if prev is None {
            if s@.len() > 0 {
                Some(s)
            } else {
                None
            }
        } else {
            prev
        },
        None => prev,
    }
}

/// A plain option from the configuration fills the argument only when the
/// argument is absent.
pub open spec fn filled<T>(prev: Option<T>, incoming: Option<T>) -> Option<T> {
    match incoming {
        Some(v) => if prev is None {
            Some(v)
        } else {
            prev
        },
        None => prev,
    }
}

/// A boolean flag from the configuration is combined with the argument's
/// flag by or.
pub open spec fn or_flag(prev: bool, incoming: Option<bool>) -> bool {
    match incoming {
        Some(b) => b || prev,
        None => prev,
    }
}

/// One string option: fill the argument when absent, dropping an empty
/// incoming string.
fn fill_string(prev: &mut Option<String>, incoming: Option<String>)
    ensures
        *final(prev) == filled_string(*old(prev), incoming),
{
    if let Some(s) = incoming {
        if prev.is_none() {
            *prev = string_to_option(Some(s));
        }
    }
}

/// One plain option: fill the argument when absent.
fn fill<T>(prev: &mut Option<T>, incoming: Option<T>)
    ensures
        *final(prev) == filled(*old(prev), incoming),
{
    if let Some(v) = incoming {
        if prev.is_none() {
            *prev = Some(v);
        }
    }
}

/// One boolean flag: combine with or.
fn fill_flag(prev: &mut bool, incoming: Option<bool>)
    ensures
        *final(prev) == or_flag(*old(prev), incoming),
{
    if let Some(b) = incoming {
        *prev = b || *prev;
    }
}

/// Merges a parsed configuration into the arguments: command-line values
/// win, flags combine with or, empty strings count as absent.
pub fn apply_config(args: &mut Arguments, config: Config)
    ensures
        final(args).word == filled_string(old(args).word, config.word),
        final(args).difficult == or_flag(old(args).difficult, config.difficult),
        final(args).random == or_flag(old(args).random, config.random),
        final(args).stats == or_flag(old(args).stats, config.stats),
        final(args).day == filled(old(args).day, config.day),
        final(args).seed == filled(old(args).seed, config.seed),
        final(args).final_set == filled_string(old(args).final_set, config.final_set),
        final(args).acceptable_set == filled_string(old(args).acceptable_set, config.acceptable_set),
        final(args).state == filled_string(old(args).state, config.state),
{
    fill_string(&mut args.word, config.word);
    fill_flag(&mut args.difficult, config.difficult);
    fill_flag(&mut args.random, config.random);
    fill_flag(&mut args.stats, config.stats);
    fill(&mut args.day, config.day);
    fill(&mut args.seed, config.seed);
    fill_string(&mut args.final_set, config.final_set);
    fill_string(&mut args.acceptable_set, config.acceptable_set);
    fill_string(&mut args.state, config.state);
}

} // verus!
