//! The readers of dictionary sources, chosen by the source's file
//! extension.

pub mod base;
pub mod typo;
pub mod xdxf;

use vstd::prelude::*;
use crate::importer::dictionary::Dictionary;
use crate::importer::markup::markup_events;
use crate::importer::parser::base::DictionaryParser;
use crate::importer::parser::xdxf::{decoded_all, is_outcome, ImportModel, XDXFParser};
use crate::text::{chars_of, find_last, last_index_of, same_text, string_of, subrange};

verus! {

/// Why a source did not become a dictionary.
#[derive(Debug, Clone, Copy, PartialEq, Eq, Structural)]
pub enum ImportError {
    /// The source could not be tokenised.
    Malformed,
    /// A text that the dictionary needs holds a reference that cannot be
    /// resolved.
    BadText,
    /// The file name has no extension to choose a reader by.
    NoExtension,
    /// No reader exists for the file name's extension.
    NoParser,
    /// The format is reserved and has no reader yet.
    Unsupported,
}

/// A dictionary format that has a reader.
#[derive(Debug, Clone, Copy, PartialEq, Eq, Structural)]
pub enum Format {
    /// The markup format, behind the extension `.xdxf`.
    Xdxf,
    /// The flat custom format, behind the extension `.typo`.
    Typo,
}

/// The extension of a file name: what stands from its last dot on, the
/// dot included.
pub open spec fn extension_of(path: Seq<char>) -> Option<Seq<char>> {
    match last_index_of(path, '.') {
        Some(i) => Some(path.skip(i)),
        None => None,
    }
}

/// The format that a file name asks for.
pub open spec fn format_for(path: Seq<char>) -> Result<Format, ImportError> {
    match extension_of(path) {
        None => Err(ImportError::NoExtension),
        Some(extension) => if extension == ".xdxf"@ {
            Ok(Format::Xdxf)
        } else if extension == ".typo"@ {
            Ok(Format::Typo)
        } else {
            Err(ImportError::NoParser)
        },
    }
}

/// The extension of a file name, if it has one.
pub fn extension(file_path: &str) -> (res: Option<String>)
    ensures
        crate::importer::markup::opt_text(res) == extension_of(file_path@),
{
    let chars = chars_of(file_path);
    match find_last(&chars, '.') {
        Some(i) => {
            let tail = subrange(&chars, i, chars.len());
            assert(tail@ =~= file_path@.skip(i as int));
            Some(string_of(tail.as_slice()))
        },
        None => None,
    }
}

/// The format that a file name asks for: by its extension, and an error
/// where it has none or where no reader exists for it.
pub fn parser_for(file_path: &str) -> (res: Result<Format, ImportError>)
    ensures
        res == format_for(file_path@),
{
    match extension(file_path) {
        None => Err(ImportError::NoExtension),
        Some(found) => {
            if same_text(found.as_str(), ".xdxf") {
                Ok(Format::Xdxf)
            } else if same_text(found.as_str(), ".typo") {
                Ok(Format::Typo)
            } else {
                Err(ImportError::NoParser)
            }
        },
    }
}

/// Reads the contents `source` of the file named `file_path` into a
/// dictionary. The file name must ask for the markup format, the one
/// format that has a working reader; `parser_for` tells.
pub fn parse_file(file_path: &str, source: &str) -> (res: Result<Dictionary, ImportError>)
    requires
        format_for(file_path@) == Ok::<Format, ImportError>(Format::Xdxf),
    ensures
        is_outcome(res, ImportModel::initial().run(decoded_all(markup_events(source@)))),
{
    let parser = XDXFParser;
    parser.parse(source)
}

} // verus!
