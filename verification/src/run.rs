//! A command to run in a folder.

use vstd::prelude::*;
use crate::text::{split, split_spec, texts};

verus! {

/// A command line and the folder to run it in.
#[derive(Debug)]
pub struct Run {
    pub cmd: String,
    pub folder: String,
}

impl Run {
    /// The words of the command, cut at every space: the program first, then
    /// its arguments. There is always a first word, which may be empty.
    pub fn argv(&self) -> (r: Vec<String>)
        ensures
            texts(r@) == split_spec(self.cmd@, ' '),
            r@.len() >= 1,
    {
        let r = split(self.cmd.as_str(), ' ');
        proof {
            crate::text::lemma_split_nonempty(self.cmd@, ' ');
            assert(texts(r@).len() == r@.len());
        }
        r
    }
}

} // verus!
