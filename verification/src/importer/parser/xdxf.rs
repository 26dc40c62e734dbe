//! The reader of the markup format: a forward scan over the events of the
//! source that accumulates one word and one phrase at a time.

use vstd::prelude::*;
use vstd::utf8::encode_utf8;
use crate::importer::dictionary::{
    lemma_among_push, names_its_word, Dictionary, DictionaryEntry, DictionaryModel, DictionaryPhrase,
    DictionaryWord, EntryModel, PhraseModel, WordModel,
};
use crate::importer::markup::{
    attribute_value, attribute_values, find_attribute, list_attribute_values, markup_events,
    next_event, open_reader, opt_text, opt_texts, pending_events, unescape_text, unescaped,
    RawEvent, RawEventModel,
};
use crate::importer::parser::base::DictionaryParser;
use crate::importer::parser::ImportError;
use crate::text::{clone_texts, contains_text, same_text, texts};

verus! {

/// One event of the source with everything the importer reads from it
/// made plain.
#[derive(Debug)]
pub enum MarkupEvent {
    /// An opening tag: its name, the values of its `lang_from` and
    /// `lang_to` attributes where it has them, and the values of all its
    /// attributes in order.
    Start { tag: String, lang_from: Option<String>, lang_to: Option<String>, attributes: Vec<String> },
    /// Text between tags, with its references resolved, or nothing where
    /// they cannot be.
    Text { content: Option<String> },
    /// A closing tag, by its name.
    End { tag: String },
    /// The end of the source.
    Eof,
    /// A construct that the importer passes over.
    Other,
    /// The source could not be tokenised further.
    Malformed,
}

/// What a markup event holds, as plain values.
pub enum MarkupEventModel {
    Start { tag: Seq<char>, lang_from: Option<Seq<char>>, lang_to: Option<Seq<char>>, attributes: Seq<Seq<char>> },
    Text { content: Option<Seq<char>> },
    End { tag: Seq<char> },
    Eof,
    Other,
    Malformed,
}

impl View for MarkupEvent {
    type V = MarkupEventModel;

    open spec fn view(&self) -> MarkupEventModel {
        match self {
            MarkupEvent::Start { tag, lang_from, lang_to, attributes } => MarkupEventModel::Start {
                tag: tag@,
                lang_from: opt_text(*lang_from),
                lang_to: opt_text(*lang_to),
                attributes: texts(attributes@),
            },
            MarkupEvent::Text { content } => MarkupEventModel::Text { content: opt_text(*content) },
            MarkupEvent::End { tag } => MarkupEventModel::End { tag: tag@ },
            MarkupEvent::Eof => MarkupEventModel::Eof,
            MarkupEvent::Other => MarkupEventModel::Other,
            MarkupEvent::Malformed => MarkupEventModel::Malformed,
        }
    }
}

/// The attribute values with an empty text in place of each absent one.
pub open spec fn values_or_empty(values: Seq<Option<Seq<char>>>) -> Seq<Seq<char>> {
    Seq::new(
        values.len(),
        |i: int|
            match values[i] {
                Some(v) => v,
                None => Seq::empty(),
            },
    )
}

/// The markup event that a raw event stands for: attributes parsed and
/// text unescaped. A tag whose name is longer than its content has no
/// attributes.
pub open spec fn decoded(raw: RawEventModel) -> MarkupEventModel {
    match raw {
        RawEventModel::Start { name, content } => {
            let name_len = encode_utf8(name).len();
            if name_len <= encode_utf8(content).len() {
                MarkupEventModel::Start {
                    tag: name,
                    lang_from: attribute_value(content, name_len, "lang_from"@),
                    lang_to: attribute_value(content, name_len, "lang_to"@),
                    attributes: values_or_empty(attribute_values(content, name_len)),
                }
            } else {
                MarkupEventModel::Start { tag: name, lang_from: None, lang_to: None, attributes: Seq::empty() }
            }
        },
        RawEventModel::Text(raw) => MarkupEventModel::Text { content: unescaped(raw) },
        RawEventModel::End(name) => MarkupEventModel::End { tag: name },
        RawEventModel::Eof => MarkupEventModel::Eof,
        RawEventModel::Other => MarkupEventModel::Other,
        RawEventModel::Malformed => MarkupEventModel::Malformed,
    }
}

/// The markup events that a sequence of raw events stands for.
pub open spec fn decoded_all(raws: Seq<RawEventModel>) -> Seq<MarkupEventModel> {
    Seq::new(raws.len(), |i: int| decoded(raws[i]))
}

/// Parses the attributes and unescapes the text of a raw event.
pub fn decode_event(raw: RawEvent) -> (res: MarkupEvent)
    ensures
        res@ == decoded(raw@),
{
    match raw {
        RawEvent::Start { name, content } => {
            let name_len = name.as_str().as_bytes().len();
            if name_len <= content.as_str().as_bytes().len() {
                let lang_from = find_attribute(content.as_str(), name_len, "lang_from");
                let lang_to = find_attribute(content.as_str(), name_len, "lang_to");
                let values = list_attribute_values(content.as_str(), name_len);
                let mut attributes: Vec<String> = Vec::new();
                let mut i: usize = 0;
                while i < values.len()
                    invariant
                        i <= values.len(),
                        attributes.len() == i,
                        forall|j: int| 0 <= j < i ==> attributes@[j]@ == values_or_empty(opt_texts(values@))[j],
                    decreases values.len() - i,
                {
                    let value = match &values[i] {
                        Some(v) => v.clone(),
                        None => String::new(),
                    };
                    attributes.push(value);
                    i += 1;
                }
                assert(texts(attributes@) =~= values_or_empty(opt_texts(values@)));
                MarkupEvent::Start { tag: name, lang_from, lang_to, attributes }
            } else {
                let attributes: Vec<String> = Vec::new();
                assert(texts(attributes@) =~= Seq::empty());
                MarkupEvent::Start { tag: name, lang_from: None, lang_to: None, attributes }
            }
        },
        RawEvent::Text(raw) => MarkupEvent::Text { content: unescape_text(raw.as_str()) },
        RawEvent::End(name) => MarkupEvent::End { tag: name },
        RawEvent::Eof => MarkupEvent::Eof,
        RawEvent::Other => MarkupEvent::Other,
        RawEvent::Malformed => MarkupEvent::Malformed,
    }
}

/// The scan in mid-flight: what has been emitted so far, the two language
/// names, the word and the phrase under construction, and the name and
/// attribute values of the tag that was opened last.
#[derive(Debug)]
pub struct ImportState {
    pub entries: Vec<DictionaryEntry>,
    pub words: Vec<DictionaryWord>,
    pub phrases: Vec<DictionaryPhrase>,
    pub from: String,
    pub to: String,
    pub word: Option<DictionaryWord>,
    pub phrase: Option<DictionaryPhrase>,
    pub current_tag: String,
    pub current_attrs: Vec<String>,
}

/// What the scan holds, as plain values.
pub struct ImportModel {
    pub entries: Seq<EntryModel>,
    pub words: Seq<WordModel>,
    pub phrases: Seq<PhraseModel>,
    pub from: Seq<char>,
    pub to: Seq<char>,
    pub word: Option<WordModel>,
    pub phrase: Option<PhraseModel>,
    pub current_tag: Seq<char>,
    pub current_attrs: Seq<Seq<char>>,
}

/// Where a text goes.
pub enum TextTarget {
    /// Into the identifier of the word, and into `example_for` of the
    /// phrase if one is open.
    Headword,
    /// Onto the translations of the word.
    Translation,
    /// Into the identifier of the phrase.
    PhraseText,
    /// Nowhere.
    Ignored,
}

impl View for ImportState {
    type V = ImportModel;

    open spec fn view(&self) -> ImportModel {
        ImportModel {
            entries: Seq::new(self.entries@.len(), |i: int| self.entries@[i]@),
            words: Seq::new(self.words@.len(), |i: int| self.words@[i]@),
            phrases: Seq::new(self.phrases@.len(), |i: int| self.phrases@[i]@),
            from: self.from@,
            to: self.to@,
            word: match self.word {
                Some(w) => Some(w@),
                None => None,
            },
            phrase: match self.phrase {
                Some(p) => Some(p@),
                None => None,
            },
            current_tag: self.current_tag@,
            current_attrs: texts(self.current_attrs@),
        }
    }
}

/// A word of the given kind with nothing filled in.
pub open spec fn blank_word(kind: Seq<char>) -> WordModel {
    WordModel { kind, identifier: Seq::empty(), translation: Seq::empty() }
}

/// A phrase of the given kind with nothing filled in.
pub open spec fn blank_phrase(kind: Seq<char>) -> PhraseModel {
    PhraseModel { kind, identifier: Seq::empty(), translation: Seq::empty(), example_for: Seq::empty() }
}

impl ImportModel {
    /// The scan before the first event: nothing emitted, nothing under
    /// construction, both languages unknown.
    pub open spec fn initial() -> ImportModel {
        ImportModel {
            entries: Seq::empty(),
            words: Seq::empty(),
            phrases: Seq::empty(),
            from: "Unknown"@,
            to: "Unknown"@,
            word: None,
            phrase: None,
            current_tag: Seq::empty(),
            current_attrs: Seq::empty(),
        }
    }

    /// What has been emitted so far, as a dictionary.
    pub open spec fn finish(self) -> DictionaryModel {
        DictionaryModel { entries: self.entries, words: self.words, phrases: self.phrases, from: self.from, to: self.to }
    }

    /// The invariant of the scan: what has been emitted is a well-formed
    /// dictionary.
    pub open spec fn wf(self) -> bool {
        self.finish().wf()
    }

    /// The identifier of the open word, or nothing where no word is open.
    pub open spec fn enclosing_identifier(self) -> Seq<char> {
        match self.word {
            Some(w) => w.identifier,
            None => Seq::empty(),
        }
    }

    /// The scan after an opening tag. An entry tag opens a fresh word; a
    /// phrase tag opens a fresh phrase that is an example for the open
    /// word as far as its identifier is known; the root tag sets each
    /// language that it names. The tag and its attribute values become the
    /// current ones.
    pub open spec fn on_start(
        self,
        tag: Seq<char>,
        lang_from: Option<Seq<char>>,
        lang_to: Option<Seq<char>>,
        attributes: Seq<Seq<char>>,
    ) -> ImportModel {
        ImportModel {
            word: if tag == "ar"@ {
                Some(blank_word(tag))
            } else {
                self.word
            },
            phrase: if tag == "exm"@ {
                Some(PhraseModel { example_for: self.enclosing_identifier(), ..blank_phrase(tag) })
            } else {
                self.phrase
            },
            from: if tag == "xdxf"@ && lang_from is Some {
                lang_from.unwrap()
            } else {
                self.from
            },
            to: if tag == "xdxf"@ && lang_to is Some {
                lang_to.unwrap()
            } else {
                self.to
            },
            current_tag: tag,
            current_attrs: attributes,
            ..self
        }
    }

    /// Where a text that arrives now goes: nowhere without an open word;
    /// else by the current tag, the phrase text only under a tag that
    /// carries the phrase flag while a phrase is open.
    pub open spec fn text_target(self) -> TextTarget {
        if self.word is None {
            TextTarget::Ignored
        } else if self.current_tag == "k"@ {
            TextTarget::Headword
        } else if self.current_tag == "dtrn"@ {
            TextTarget::Translation
        } else if self.current_tag == "ex"@ && self.current_attrs.contains("exm"@) && self.phrase is Some {
            TextTarget::PhraseText
        } else {
            TextTarget::Ignored
        }
    }

    /// The scan after the text `content` went to `target`.
    pub open spec fn with_text(self, target: TextTarget, content: Seq<char>) -> ImportModel {
        match target {
            TextTarget::Headword => ImportModel {
                word: Some(WordModel { identifier: content, ..self.word.unwrap() }),
                phrase: match self.phrase {
                    Some(p) => Some(PhraseModel { example_for: content, ..p }),
                    None => None,
                },
                ..self
            },
            TextTarget::Translation => ImportModel {
                word: Some(
                    WordModel { translation: self.word.unwrap().translation.push(content), ..self.word.unwrap() },
                ),
                ..self
            },
            TextTarget::PhraseText => ImportModel {
                phrase: Some(PhraseModel { identifier: content, ..self.phrase.unwrap() }),
                ..self
            },
            TextTarget::Ignored => self,
        }
    }

    /// The scan after a text. A text that goes nowhere is passed over
    /// whatever it holds; one that is needed must have unescaped.
    pub open spec fn on_text(self, content: Option<Seq<char>>) -> Result<ImportModel, ImportError> {
        match self.text_target() {
            TextTarget::Ignored => Ok(self),
            target => match content {
                Some(text) => Ok(self.with_text(target, text)),
                None => Err(ImportError::BadText),
            },
        }
    }

    /// The word that the end of an entry emits: the open word, if it has
    /// an identifier.
    pub open spec fn closing_word(self) -> Option<WordModel> {
        match self.word {
            Some(w) if w.identifier.len() > 0 => Some(w),
            _ => None,
        }
    }

    /// The phrase that the end of an entry emits: the open phrase, if it
    /// has an identifier, as an example for the open word.
    pub open spec fn closing_phrase(self) -> Option<PhraseModel> {
        match self.phrase {
            Some(p) if p.identifier.len() > 0 => Some(
                PhraseModel { example_for: self.enclosing_identifier(), ..p },
            ),
            _ => None,
        }
    }

    /// The entries with the emitted word and then the emitted phrase
    /// added.
    pub open spec fn closed_entries(self) -> Seq<EntryModel> {
        let with_word = match self.closing_word() {
            Some(w) => self.entries.push(EntryModel::Word(w)),
            None => self.entries,
        };
        match self.closing_phrase() {
            Some(p) => with_word.push(EntryModel::Phrase(p)),
            None => with_word,
        }
    }

    /// The scan after a closing tag. The end of an entry emits the open
    /// word and the open phrase, each only if it has an identifier, the
    /// phrase with the identifier of the open word as what it is an
    /// example for, and clears both. Every closing tag clears the current
    /// tag.
    pub open spec fn on_end(self, tag: Seq<char>) -> ImportModel {
        if tag == "ar"@ {
            ImportModel {
                entries: self.closed_entries(),
                words: match self.closing_word() {
                    Some(w) => self.words.push(w),
                    None => self.words,
                },
                phrases: match self.closing_phrase() {
                    Some(p) => self.phrases.push(p),
                    None => self.phrases,
                },
                word: None,
                phrase: None,
                current_tag: Seq::empty(),
                current_attrs: Seq::empty(),
                ..self
            }
        } else {
            ImportModel { current_tag: Seq::empty(), current_attrs: Seq::empty(), ..self }
        }
    }

    /// The scan after one event that does not end it.
    pub open spec fn step(self, event: MarkupEventModel) -> Result<ImportModel, ImportError> {
        match event {
            MarkupEventModel::Start { tag, lang_from, lang_to, attributes } => Ok(
                self.on_start(tag, lang_from, lang_to, attributes),
            ),
            MarkupEventModel::Text { content } => self.on_text(content),
            MarkupEventModel::End { tag } => Ok(self.on_end(tag)),
            MarkupEventModel::Malformed => Err(ImportError::Malformed),
            _ => Ok(self),
        }
    }

    /// The outcome of the scan over `events`, starting from `self`: the
    /// events are applied in order up to the first end of input, where
    /// what has been emitted is the dictionary; the first failure ends
    /// the scan with its error. Events that run out count as an end of
    /// input.
    pub open spec fn run(self, events: Seq<MarkupEventModel>) -> Result<DictionaryModel, ImportError>
        decreases events.len(),
    {
        if events.len() == 0 {
            Ok(self.finish())
        } else {
            match events[0] {
                MarkupEventModel::Eof => Ok(self.finish()),
                event => match self.step(event) {
                    Ok(next) => next.run(events.drop_first()),
                    Err(e) => Err(e),
                },
            }
        }
    }
}

impl ImportState {
    /// The scan before the first event.
    pub fn new() -> (res: Self)
        ensures
            res@ == ImportModel::initial(),
            res@.wf(),
    {
        let res = ImportState {
            entries: Vec::new(),
            words: Vec::new(),
            phrases: Vec::new(),
            from: "Unknown".to_owned(),
            to: "Unknown".to_owned(),
            word: None,
            phrase: None,
            current_tag: String::new(),
            current_attrs: Vec::new(),
        };
        assert(res@.entries =~= Seq::empty());
        assert(res@.words =~= Seq::empty());
        assert(res@.phrases =~= Seq::empty());
        assert(res@.current_attrs =~= Seq::empty());
        res
    }

    /// Where a text that arrives now goes.
    pub fn target_of_text(&self) -> (res: TextTarget)
        ensures
            res == self@.text_target(),
    {
        if self.word.is_none() {
            TextTarget::Ignored
        } else if same_text(self.current_tag.as_str(), "k") {
            TextTarget::Headword
        } else if same_text(self.current_tag.as_str(), "dtrn") {
            TextTarget::Translation
        } else if same_text(self.current_tag.as_str(), "ex") && contains_text(&self.current_attrs, "exm")
            && self.phrase.is_some() {
            TextTarget::PhraseText
        } else {
            TextTarget::Ignored
        }
    }

    /// The identifier of the open word, or an empty text where no word is
    /// open.
    pub fn identifier_of_word(&self) -> (res: String)
        ensures
            res@ == self@.enclosing_identifier(),
    {
        match &self.word {
            Some(word) => word.identifier.clone(),
            None => String::new(),
        }
    }

    fn open_tag(&mut self, tag: String, lang_from: Option<String>, lang_to: Option<String>, attributes: Vec<String>)
        ensures
            final(self)@ == old(self)@.on_start(tag@, opt_text(lang_from), opt_text(lang_to), texts(attributes@)),
    {
        let enclosing = self.identifier_of_word();
        if same_text(tag.as_str(), "ar") {
            self.word = Some(DictionaryWord::new(tag.clone()));
        }
        if same_text(tag.as_str(), "xdxf") {
            if let Some(name) = lang_from {
                self.from = name;
            }
            if let Some(name) = lang_to {
                self.to = name;
            }
        }
        if same_text(tag.as_str(), "exm") {
            let mut phrase = DictionaryPhrase::new(tag.clone());
            phrase.example_for = enclosing;
            self.phrase = Some(phrase);
        }
        self.current_tag = tag;
        self.current_attrs = attributes;
    }

    fn put_text(&mut self, target: TextTarget, content: String)
        requires
            target == old(self)@.text_target(),
        ensures
            final(self)@ == old(self)@.with_text(target, content@),
    {
        match target {
            TextTarget::Headword => {
                if let Some(mut phrase) = self.phrase.take() {
                    phrase.example_for = content.clone();
                    self.phrase = Some(phrase);
                }
                if let Some(mut word) = self.word.take() {
                    word.identifier = content;
                    self.word = Some(word);
                }
            },
            TextTarget::Translation => {
                if let Some(mut word) = self.word.take() {
                    let ghost before = texts(word.translation@);
                    word.translation.push(content);
                    assert(texts(word.translation@) =~= before.push(content@));
                    self.word = Some(word);
                }
            },
            TextTarget::PhraseText => {
                if let Some(mut phrase) = self.phrase.take() {
                    phrase.identifier = content;
                    self.phrase = Some(phrase);
                }
            },
            TextTarget::Ignored => {},
        }
    }

    fn close_tag(&mut self, tag: String)
        ensures
            final(self)@ == old(self)@.on_end(tag@),
    {
        if same_text(tag.as_str(), "ar") {
            let enclosing = self.identifier_of_word();
            if let Some(word) = self.word.take() {
                if word.identifier.as_str().as_bytes().len() > 0 {
                    self.words.push(word.clone());
                    self.entries.push(DictionaryEntry::Word(word));
                }
            }
            if let Some(mut phrase) = self.phrase.take() {
                if phrase.identifier.as_str().as_bytes().len() > 0 {
                    phrase.example_for = enclosing;
                    self.phrases.push(phrase.clone());
                    self.entries.push(DictionaryEntry::Phrase(phrase));
                }
            }
        }
        self.current_tag = String::new();
        self.current_attrs = Vec::new();
        assert(self@.current_attrs =~= Seq::empty());
        assert(self@.entries =~= old(self)@.on_end(tag@).entries);
        assert(self@.words =~= old(self)@.on_end(tag@).words);
        assert(self@.phrases =~= old(self)@.on_end(tag@).phrases);
    }

    /// Applies one event. On a failure the scan stays as it was.
    pub fn apply(&mut self, event: &MarkupEvent) -> (res: Result<(), ImportError>)
        ensures
            match old(self)@.step(event@) {
                Ok(next) => res is Ok && final(self)@ == next,
                Err(e) => res == Err::<(), ImportError>(e) && final(self)@ == old(self)@,
            },
    {
        match event {
            MarkupEvent::Start { tag, lang_from, lang_to, attributes } => {
                let lang_from = match lang_from {
                    Some(name) => Some(name.clone()),
                    None => None,
                };
                let lang_to = match lang_to {
                    Some(name) => Some(name.clone()),
                    None => None,
                };
                self.open_tag(tag.clone(), lang_from, lang_to, clone_texts(attributes));
                Ok(())
            },
            MarkupEvent::Text { content } => {
                let target = self.target_of_text();
                match target {
                    TextTarget::Ignored => Ok(()),
                    _ => match content {
                        Some(text) => {
                            self.put_text(target, text.clone());
                            Ok(())
                        },
                        None => Err(ImportError::BadText),
                    },
                }
            },
            MarkupEvent::End { tag } => {
                self.close_tag(tag.clone());
                Ok(())
            },
            MarkupEvent::Malformed => Err(ImportError::Malformed),
            _ => Ok(()),
        }
    }

    /// What has been emitted, as a dictionary. A word or a phrase still
    /// under construction is left out.
    pub fn finish(self) -> (res: Dictionary)
        ensures
            res@ == self@.finish(),
    {
        Dictionary { entries: self.entries, words: self.words, phrases: self.phrases, from: self.from, to: self.to }
    }
}

/// The models of a list of markup events.
pub open spec fn event_models(events: Seq<MarkupEvent>) -> Seq<MarkupEventModel> {
    Seq::new(events.len(), |i: int| events[i]@)
}

/// Whether `res` is the dictionary or the error that `model` describes.
pub open spec fn is_outcome(res: Result<Dictionary, ImportError>, model: Result<DictionaryModel, ImportError>) -> bool {
    match res {
        Ok(dict) => model == Ok::<DictionaryModel, ImportError>(dict@) && dict@.wf(),
        Err(e) => model == Err::<DictionaryModel, ImportError>(e),
    }
}

/// Builds the dictionary that a list of events describes: the scan runs
/// over them from its start.
pub fn import_events(events: &Vec<MarkupEvent>) -> (res: Result<Dictionary, ImportError>)
    ensures
        is_outcome(res, ImportModel::initial().run(event_models(events@))),
{
    let ghost all = event_models(events@);
    let mut state = ImportState::new();
    let mut i: usize = 0;
    proof {
        lemma_run_gives_wf(ImportModel::initial(), all);
        assert(all.skip(0) =~= all);
    }
    while i < events.len()
        invariant
            i <= events.len(),
            all == event_models(events@),
            state@.wf(),
            ImportModel::initial().run(all) matches Ok(dict) ==> dict.wf(),
            ImportModel::initial().run(all) == state@.run(all.skip(i as int)),
        decreases events.len() - i,
    {
        let ghost rest = all.skip(i as int);
        proof {
            assert(rest[0] == events@[i as int]@);
            assert(rest.drop_first() =~= all.skip(i + 1));
        }
        match &events[i] {
            MarkupEvent::Eof => {
                return Ok(state.finish());
            },
            _ => {},
        }
        proof {
            lemma_step_keeps_wf(state@, events@[i as int]@);
        }
        match state.apply(&events[i]) {
            Ok(()) => {},
            Err(e) => {
                return Err(e);
            },
        }
        i += 1;
    }
    Ok(state.finish())
}

/// Reads the whole of a markup source into a dictionary: the scan runs
/// over the events that the markup reader hands out for `source`, each
/// with its attributes parsed and its text unescaped.
pub fn parse_source(source: &str) -> (res: Result<Dictionary, ImportError>)
    ensures
        is_outcome(res, ImportModel::initial().run(decoded_all(markup_events(source@)))),
{
    let ghost all = decoded_all(markup_events(source@));
    let mut reader = open_reader(source);
    let mut state = ImportState::new();
    proof {
        lemma_run_gives_wf(ImportModel::initial(), all);
    }
    loop
        invariant
            all == decoded_all(markup_events(source@)),
            state@.wf(),
            ImportModel::initial().run(all) matches Ok(dict) ==> dict.wf(),
            ImportModel::initial().run(all) == state@.run(decoded_all(pending_events(reader))),
        decreases pending_events(reader).len(),
    {
        let ghost pending = pending_events(reader);
        let event = decode_event(next_event(&mut reader));
        proof {
            if pending.len() > 0 {
                assert(decoded_all(pending)[0] == event@);
                assert(decoded_all(pending).drop_first() =~= decoded_all(pending_events(reader)));
            }
            lemma_step_keeps_wf(state@, event@);
        }
        match &event {
            MarkupEvent::Eof => {
                return Ok(state.finish());
            },
            _ => {},
        }
        match state.apply(&event) {
            Ok(()) => {},
            Err(e) => {
                return Err(e);
            },
        }
    }
}

/// The reader of the markup format.
#[derive(Debug, Clone, Copy)]
pub struct XDXFParser;

impl DictionaryParser for XDXFParser {
    /// Reads the whole of a markup source into a dictionary, as
    /// `parse_source` does.
    fn parse(&self, source: &str) -> (res: Result<Dictionary, ImportError>)
        ensures
            is_outcome(res, ImportModel::initial().run(decoded_all(markup_events(source@)))),
    {
        parse_source(source)
    }
}

/// A headword that is read while a phrase is open names the word that the
/// phrase is an example for: after the text, the phrase's `example_for`
/// is the word's identifier.
pub proof fn lemma_headword_fills_example_for(state: ImportModel, content: Seq<char>)
    requires
        state.word is Some,
        state.phrase is Some,
        state.current_tag == "k"@,
    ensures
        state.on_text(Some(content)) matches Ok(next) && next.word matches Some(w) && next.phrase matches Some(p)
            && w.identifier == content && p.example_for == w.identifier,
{
}

/// A phrase that opens after the headword was read is an example for that
/// headword from the start.
pub proof fn lemma_phrase_opens_with_headword(
    state: ImportModel,
    lang_from: Option<Seq<char>>,
    lang_to: Option<Seq<char>>,
    attributes: Seq<Seq<char>>,
)
    requires
        state.word is Some,
    ensures
        state.on_start("exm"@, lang_from, lang_to, attributes).phrase matches Some(p) && p.example_for
            == state.word.unwrap().identifier,
{
    reveal_strlit("exm");
    reveal_strlit("ar");
}

/// The end of an entry adds the open word to the words exactly if it has
/// an identifier, the open phrase to the phrases exactly if it has one,
/// and both to the entries; the phrase it adds is an example for the open
/// word, whenever the headword was read.
pub proof fn lemma_entry_close(state: ImportModel)
    ensures
        state.on_end("ar"@).words.len() == state.words.len() + (if state.closing_word() is Some {
            1int
        } else {
            0int
        }),
        state.on_end("ar"@).phrases.len() == state.phrases.len() + (if state.closing_phrase() is Some {
            1int
        } else {
            0int
        }),
        state.on_end("ar"@).entries.len() == state.entries.len() + (if state.closing_word() is Some {
            1int
        } else {
            0int
        }) + (if state.closing_phrase() is Some {
            1int
        } else {
            0int
        }),
        state.closing_phrase() matches Some(p) ==> state.on_end("ar"@).phrases.last() == p && p.example_for
            == state.enclosing_identifier(),
        state.on_end("ar"@).word is None,
        state.on_end("ar"@).phrase is None,
{
}

/// Every step of the scan keeps what has been emitted well-formed.
pub proof fn lemma_step_keeps_wf(state: ImportModel, event: MarkupEventModel)
    requires
        state.wf(),
    ensures
        state.step(event) matches Ok(next) ==> next.wf(),
{
    match event {
        MarkupEventModel::End { tag } => {
            if tag == "ar"@ {
                let with_word = match state.closing_word() {
                    Some(w) => state.entries.push(EntryModel::Word(w)),
                    None => state.entries,
                };
                match state.closing_word() {
                    Some(w) => lemma_among_push(state.entries, EntryModel::Word(w)),
                    None => {},
                }
                match state.closing_phrase() {
                    Some(p) => lemma_among_push(with_word, EntryModel::Phrase(p)),
                    None => {},
                }
                let after = state.closed_entries();
                assert forall|i: int| 0 <= i < after.len() implies #[trigger] names_its_word(after, i) by {
                    if i < state.entries.len() {
                        assert(names_its_word(state.entries, i));
                        assert(after[i] == state.entries[i]);
                        if i > 0 {
                            assert(after[i - 1] == state.entries[i - 1]);
                        }
                    }
                }
            }
        },
        _ => {},
    }
}

/// Whatever the events, a scan from the start that succeeds ends in a
/// well-formed dictionary: no entry without identifier, and the two views
/// are the words and the phrases among the entries, in entry order.
pub proof fn lemma_run_gives_wf(state: ImportModel, events: Seq<MarkupEventModel>)
    requires
        state.wf(),
    ensures
        state.run(events) matches Ok(dict) ==> dict.wf(),
    decreases events.len(),
{
    if events.len() > 0 {
        lemma_step_keeps_wf(state, events[0]);
        match state.step(events[0]) {
            Ok(next) => lemma_run_gives_wf(next, events.drop_first()),
            Err(_) => {},
        }
    }
}

} // verus!
