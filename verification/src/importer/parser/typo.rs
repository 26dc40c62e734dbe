//! The flat custom format. Its grammar is not settled, so every source is
//! turned down.

use vstd::prelude::*;
use crate::importer::dictionary::Dictionary;
use crate::importer::parser::base::DictionaryParser;
use crate::importer::parser::ImportError;

verus! {

/// The reader reserved for the flat custom format.
#[derive(Debug, Clone, Copy)]
pub struct TypoEQParser;

impl DictionaryParser for TypoEQParser {
    /// Turns every source down as unsupported.
    fn parse(&self, source: &str) -> (res: Result<Dictionary, ImportError>)
        ensures
            res == Err::<Dictionary, ImportError>(ImportError::Unsupported),
    {
        Err(ImportError::Unsupported)
    }
}

} // verus!
