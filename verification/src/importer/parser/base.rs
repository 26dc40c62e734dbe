//! What every reader of a dictionary format offers.

use vstd::prelude::*;
use crate::importer::dictionary::Dictionary;
use crate::importer::parser::ImportError;

verus! {

/// A reader of one dictionary format.
pub trait DictionaryParser {
    /// Reads the whole of `source` into a dictionary. A dictionary that
    /// comes back is well-formed.
    fn parse(&self, source: &str) -> (res: Result<Dictionary, ImportError>)
        ensures
            res matches Ok(dict) ==> dict@.wf(),
    ;
}

} // verus!
