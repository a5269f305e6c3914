//! The configuration that a build reads: ignore patterns, projects, keywords
//! and where the index is kept.

use crate::text::views;
use vstd::prelude::*;

verus! {

/// The configuration of a build and a search, fixed before either starts.
#[derive(Clone, Debug)]
pub struct Settings {
    pub debug: bool,
    /// Substrings that exclude a path, and the subtree below it, from a build.
    pub ignore_patterns: Vec<String>,
    /// Project identifiers, in the order in which they are tried.
    pub projects: Vec<String>,
    /// Keyword identifiers, in the order in which they are tagged.
    pub key_words: Vec<String>,
    /// Where the index document is written and read.
    pub output_filename: String,
}

/// The value of a configuration.
pub struct SettingsModel {
    pub debug: bool,
    pub ignore_patterns: Seq<Seq<char>>,
    pub projects: Seq<Seq<char>>,
    pub key_words: Seq<Seq<char>>,
    pub output_filename: Seq<char>,
}

impl View for Settings {
    type V = SettingsModel;

    open spec fn view(&self) -> SettingsModel {
        SettingsModel {
            debug: self.debug,
            ignore_patterns: views(self.ignore_patterns@),
            projects: views(self.projects@),
            key_words: views(self.key_words@),
            output_filename: self.output_filename@,
        }
    }
}

impl Settings {
    /// A configuration made of the given values.
    pub fn new(
        debug: bool,
        ignore_patterns: Vec<String>,
        projects: Vec<String>,
        key_words: Vec<String>,
        output_filename: String,
    ) -> (r: Settings)
        ensures
            r.debug == debug,
            r.ignore_patterns@ == ignore_patterns@,
            r.projects@ == projects@,
            r.key_words@ == key_words@,
            r.output_filename@ == output_filename@,
    {
        Settings { debug, ignore_patterns, projects, key_words, output_filename }
    }
}

} // verus!
