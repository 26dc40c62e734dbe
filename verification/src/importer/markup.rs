//! The markup reader underneath the importer. Tokenising, attribute
//! parsing and unescaping are the work of `quick_xml`; this module gives
//! what it returns the plain shapes that the importer's logic reads.

use vstd::prelude::*;
use vstd::string::StringSliceAdditionalSpecFns;
use quick_xml::events::{BytesStart, Event};
use quick_xml::Reader;

verus! {

#[verifier::external_type_specification]
#[verifier::external_body]
#[verifier::reject_recursive_types(R)]
pub struct ExReader<R>(Reader<R>);

/// One event of the markup stream as the reader hands it out: names and
/// contents are still raw, attributes unparsed and text escaped.
#[derive(Debug)]
pub enum RawEvent {
    /// An opening tag: its name, and everything between the angle
    /// brackets, which begins with the name.
    Start { name: String, content: String },
    /// Text between tags.
    Text(String),
    /// A closing tag, by its name.
    End(String),
    /// The end of the input.
    Eof,
    /// Any other construct: an empty element, a comment, a declaration.
    Other,
    /// The input could not be tokenised further.
    Malformed,
}

/// What a raw event holds, as plain values.
pub enum RawEventModel {
    Start { name: Seq<char>, content: Seq<char> },
    Text(Seq<char>),
    End(Seq<char>),
    Eof,
    Other,
    Malformed,
}

impl View for RawEvent {
    type V = RawEventModel;

    open spec fn view(&self) -> RawEventModel {
        match self {
            RawEvent::Start { name, content } => RawEventModel::Start { name: name@, content: content@ },
            RawEvent::Text(raw) => RawEventModel::Text(raw@),
            RawEvent::End(name) => RawEventModel::End(name@),
            RawEvent::Eof => RawEventModel::Eof,
            RawEvent::Other => RawEventModel::Other,
            RawEvent::Malformed => RawEventModel::Malformed,
        }
    }
}

/// The events that a reader over `source` hands out, one per read, up to
/// and including the first end of input or failure.
pub uninterp spec fn markup_events(source: Seq<char>) -> Seq<RawEventModel>;

/// The events that `reader` has yet to hand out.
pub uninterp spec fn pending_events(reader: Reader<&[u8]>) -> Seq<RawEventModel>;

/// The value of the first attribute named `key` in the tag content
/// `content`, whose first `name_len` bytes are the tag's name; absent
/// where there is none or where an attribute before it is malformed.
pub uninterp spec fn attribute_value(content: Seq<char>, name_len: nat, key: Seq<char>) -> Option<Seq<char>>;

/// The values of the attributes in the tag content `content`, whose first
/// `name_len` bytes are the tag's name, in order; a malformed attribute
/// stands as an absent value.
pub uninterp spec fn attribute_values(content: Seq<char>, name_len: nat) -> Seq<Option<Seq<char>>>;

/// The text that `raw` stands for once its character and entity
/// references are resolved; absent where a reference is unknown or
/// unterminated.
pub uninterp spec fn unescaped(raw: Seq<char>) -> Option<Seq<char>>;

/// The character sequence of an optional string.
pub open spec fn opt_text(value: Option<String>) -> Option<Seq<char>> {
    match value {
        Some(s) => Some(s@),
        None => None,
    }
}

/// The character sequences of a list of optional strings.
pub open spec fn opt_texts(values: Seq<Option<String>>) -> Seq<Option<Seq<char>>> {
    Seq::new(values.len(), |i: int| opt_text(values[i]))
}

/// A reader at the start of `source`.
///
/// Trusted: stands for `quick_xml::Reader::from_reader` on the bytes of
/// `source`, with the reader's default settings. The contract names the
/// events that this reader will hand out; it is a function of the source
/// alone.
#[verifier::external_body]
pub(crate) fn open_reader<'a>(source: &'a str) -> (reader: Reader<&'a [u8]>)
    ensures
        pending_events(reader) == markup_events(source@),
{
    Reader::from_reader(source.as_bytes())
}

/// Reads the next event.
///
/// Trusted: stands for `quick_xml::Reader::read_event_into`, with the
/// event copied into a `RawEvent`. The contract claims that each read
/// hands out the first pending event and leaves the others pending, and
/// that a reader with nothing pending, which has met the end of its input
/// or a failure before, reports the end of input.
#[verifier::external_body]
pub(crate) fn next_event(reader: &mut Reader<&[u8]>) -> (event: RawEvent)
    ensures
        pending_events(*old(reader)).len() > 0 ==> event@ == pending_events(*old(reader))[0]
            && pending_events(*final(reader)) == pending_events(*old(reader)).drop_first(),
        pending_events(*old(reader)).len() == 0 ==> event@ == RawEventModel::Eof
            && pending_events(*final(reader)) == pending_events(*old(reader)),
{
    let text = |bytes: &[u8]| String::from_utf8_lossy(bytes).into_owned();
    match reader.read_event_into(&mut Vec::new()) {
        Ok(Event::Start(e)) => RawEvent::Start { name: text(e.name().as_ref()), content: text(&e) },
        Ok(Event::Text(e)) => RawEvent::Text(text(&e)),
        Ok(Event::End(e)) => RawEvent::End(text(e.name().as_ref())),
        Ok(Event::Eof) => RawEvent::Eof,
        Ok(_) => RawEvent::Other,
        Err(_) => RawEvent::Malformed,
    }
}

/// The value of the first attribute named `key` in a tag's content.
///
/// Trusted: stands for `quick_xml::events::BytesStart::try_get_attribute`
/// on a tag rebuilt with `BytesStart::from_content`; a failure of the
/// attribute parser counts as no value. The contract only gives the
/// result its name.
#[verifier::external_body]
pub(crate) fn find_attribute(content: &str, name_len: usize, key: &str) -> (res: Option<String>)
    requires
        name_len <= content.spec_bytes().len(),
    ensures
        opt_text(res) == attribute_value(content@, name_len as nat, key@),
{
    match BytesStart::from_content(content, name_len).try_get_attribute(key) {
        Ok(Some(attribute)) => Some(String::from_utf8_lossy(&attribute.value).into_owned()),
        _ => None,
    }
}

/// The values of all attributes in a tag's content, in order.
///
/// Trusted: stands for `quick_xml::events::BytesStart::attributes` on a
/// tag rebuilt with `BytesStart::from_content`; an item on which the
/// attribute parser fails is handed out as an absent value. The contract
/// only gives the result its name.
#[verifier::external_body]
pub(crate) fn list_attribute_values(content: &str, name_len: usize) -> (res: Vec<Option<String>>)
    requires
        name_len <= content.spec_bytes().len(),
    ensures
        opt_texts(res@) == attribute_values(content@, name_len as nat),
{
    BytesStart::from_content(content, name_len)
        .attributes()
        .map(|item| item.ok().map(|attribute| String::from_utf8_lossy(&attribute.value).into_owned()))
        .collect()
}

/// The text that `raw` stands for, with its references resolved.
///
/// Trusted: stands for `quick_xml::escape::unescape`; a failure counts as
/// no text. The contract only gives the result its name.
#[verifier::external_body]
pub(crate) fn unescape_text(raw: &str) -> (res: Option<String>)
    ensures
        opt_text(res) == unescaped(raw@),
{
    quick_xml::escape::unescape(raw).ok().map(|text| text.into_owned())
}

} // verus!
