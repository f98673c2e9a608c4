//! The raw command-line options, before configuration merging.
//!
//! The surrounding program parses the command line into this shape and
//! combines it with any configuration file through [`crate::config`].

use vstd::prelude::*;

verus! {

/// One value per command-line option; absent options are `None`.
pub struct Cli {
    pub word: Option<String>,
    pub random: bool,
    pub difficult: bool,
    pub stats: bool,
    pub seed: Option<u64>,
    pub day: Option<i32>,
    pub final_set: Option<String>,
    pub acceptable_set: Option<String>,
    pub state: Option<String>,
    pub config: Option<String>,
    pub hint: bool,
}

} // verus!
