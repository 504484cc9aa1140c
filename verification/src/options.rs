//! Where the dictionary comes from.

use vstd::prelude::*;
use vstd::string::*;

verus! {

/// The two files that a dictionary is built from.
#[derive(Debug)]
pub struct Options {
    /// Path of the affix file.
    pub affix: String,
    /// Path of the dictionary file.
    pub dictionary: String,
}

impl Default for Options {
    /// Both files in the working directory, under the names `index.aff` and `index.dic`.
    fn default() -> (options: Options)
        ensures
            options.affix@ == "./index.aff"@,
            options.dictionary@ == "./index.dic"@,
    {
        Options { affix: "./index.aff".to_owned(), dictionary: "./index.dic".to_owned() }
    }
}

} // verus!
