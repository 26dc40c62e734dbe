//! The in-memory dictionary: words, example phrases, and the two language
//! names, together with the mathematical model the contracts speak of.

use vstd::prelude::*;
use crate::text::{chars_of, clone_texts, push_all, string_of, texts};

verus! {

/// What a word entry holds, as plain sequences.
pub struct WordModel {
    pub kind: Seq<char>,
    pub identifier: Seq<char>,
    pub translation: Seq<Seq<char>>,
}

/// What a phrase entry holds, as plain sequences.
pub struct PhraseModel {
    pub kind: Seq<char>,
    pub identifier: Seq<char>,
    pub translation: Seq<char>,
    pub example_for: Seq<char>,
}

/// What a dictionary entry holds.
pub enum EntryModel {
    Word(WordModel),
    Phrase(PhraseModel),
}

/// What a dictionary holds.
pub struct DictionaryModel {
    pub entries: Seq<EntryModel>,
    pub words: Seq<WordModel>,
    pub phrases: Seq<PhraseModel>,
    pub from: Seq<char>,
    pub to: Seq<char>,
}

#[derive(Debug)]
pub enum DictionaryEntry {
    Word(DictionaryWord),
    Phrase(DictionaryPhrase),
}

/// A headword with its translations, in the order they were read.
#[derive(Debug)]
pub struct DictionaryWord {
    pub kind: String,
    pub identifier: String,
    pub translation: Vec<String>,
}

/// An example phrase, its translation, and the headword it illustrates.
#[derive(Debug)]
pub struct DictionaryPhrase {
    pub kind: String,
    pub identifier: String,
    pub translation: String,
    pub example_for: String,
}

/// All entries in file order, the word-only and phrase-only views of them,
/// and the names of the source and target languages.
pub struct Dictionary {
    pub entries: Vec<DictionaryEntry>,
    pub words: Vec<DictionaryWord>,
    pub phrases: Vec<DictionaryPhrase>,
    pub from: String,
    pub to: String,
}

impl View for DictionaryWord {
    type V = WordModel;

    open spec fn view(&self) -> WordModel {
        WordModel {
            kind: self.kind@,
            identifier: self.identifier@,
            translation: texts(self.translation@),
        }
    }
}

impl View for DictionaryPhrase {
    type V = PhraseModel;

    open spec fn view(&self) -> PhraseModel {
        PhraseModel {
            kind: self.kind@,
            identifier: self.identifier@,
            translation: self.translation@,
            example_for: self.example_for@,
        }
    }
}

impl View for DictionaryEntry {
    type V = EntryModel;

    open spec fn view(&self) -> EntryModel {
        match self {
            DictionaryEntry::Word(w) => EntryModel::Word(w@),
            DictionaryEntry::Phrase(p) => EntryModel::Phrase(p@),
        }
    }
}

impl View for Dictionary {
    type V = DictionaryModel;

    open spec fn view(&self) -> DictionaryModel {
        DictionaryModel {
            entries: Seq::new(self.entries@.len(), |i: int| self.entries@[i]@),
            words: Seq::new(self.words@.len(), |i: int| self.words@[i]@),
            phrases: Seq::new(self.phrases@.len(), |i: int| self.phrases@[i]@),
            from: self.from@,
            to: self.to@,
        }
    }
}

/// The word entries among `entries`, in order.
pub open spec fn words_among(entries: Seq<EntryModel>) -> Seq<WordModel>
    decreases entries.len(),
{
    if entries.len() == 0 {
        Seq::empty()
    } else {
        let rest = words_among(entries.drop_last());
        match entries.last() {
            EntryModel::Word(w) => rest.push(w),
            EntryModel::Phrase(_) => rest,
        }
    }
}

/// The phrase entries among `entries`, in order.
pub open spec fn phrases_among(entries: Seq<EntryModel>) -> Seq<PhraseModel>
    decreases entries.len(),
{
    if entries.len() == 0 {
        Seq::empty()
    } else {
        let rest = phrases_among(entries.drop_last());
        match entries.last() {
            EntryModel::Word(_) => rest,
            EntryModel::Phrase(p) => rest.push(p),
        }
    }
}

/// The headword or phrase text of an entry.
pub open spec fn entry_identifier(entry: EntryModel) -> Seq<char> {
    match entry {
        EntryModel::Word(w) => w.identifier,
        EntryModel::Phrase(p) => p.identifier,
    }
}

/// Adding an entry adds it to the view of its kind and leaves the other
/// view as it is.
pub proof fn lemma_among_push(entries: Seq<EntryModel>, entry: EntryModel)
    ensures
        words_among(entries.push(entry)) == match entry {
            EntryModel::Word(w) => words_among(entries).push(w),
            EntryModel::Phrase(_) => words_among(entries),
        },
        phrases_among(entries.push(entry)) == match entry {
            EntryModel::Word(_) => phrases_among(entries),
            EntryModel::Phrase(p) => phrases_among(entries).push(p),
        },
{
    assert(entries.push(entry).drop_last() =~= entries);
}

/// Every entry is in exactly one of the two views: the words and the
/// phrases among the entries are as many as the entries.
pub proof fn lemma_views_partition(entries: Seq<EntryModel>)
    ensures
        words_among(entries).len() + phrases_among(entries).len() == entries.len(),
    decreases entries.len(),
{
    if entries.len() > 0 {
        lemma_views_partition(entries.drop_last());
    }
}

/// Whether the entry at position `i`, if it is a phrase, carries the
/// identifier of the word of its entry block: either that block gave no
/// word and the phrase names none, or the word stands directly before the
/// phrase and the phrase names it.
pub open spec fn names_its_word(entries: Seq<EntryModel>, i: int) -> bool {
    match entries[i] {
        EntryModel::Word(_) => true,
        EntryModel::Phrase(p) => p.example_for.len() == 0 || (i > 0 && match entries[i - 1] {
            EntryModel::Word(w) => w.identifier == p.example_for,
            EntryModel::Phrase(_) => false,
        }),
    }
}

impl DictionaryModel {
    /// The invariant of a finished dictionary: no entry has an empty
    /// identifier, every phrase carries the identifier of the word of its
    /// entry block, and the two views are exactly the words and the
    /// phrases among the entries, in entry order.
    pub open spec fn wf(self) -> bool {
        &&& forall|i: int| 0 <= i < self.entries.len() ==> entry_identifier(#[trigger] self.entries[i]).len() > 0
        &&& forall|i: int| 0 <= i < self.entries.len() ==> #[trigger] names_its_word(self.entries, i)
        &&& self.words == words_among(self.entries)
        &&& self.phrases == phrases_among(self.entries)
    }
}

impl DictionaryWord {
    /// A word of the given kind with no identifier and no translation yet.
    pub fn new(kind: String) -> (res: Self)
        ensures
            res@ == (WordModel { kind: kind@, identifier: Seq::empty(), translation: Seq::empty() }),
    {
        let res = Self { kind, identifier: String::new(), translation: Vec::new() };
        assert(texts(res.translation@) =~= Seq::empty());
        res
    }
}

/// The texts of `items` set one after the other.
pub open spec fn concatenated(items: Seq<Seq<char>>) -> Seq<char>
    decreases items.len(),
{
    if items.len() == 0 {
        Seq::empty()
    } else {
        concatenated(items.drop_last()) + items.last()
    }
}

impl WordModel {
    /// How a word is written out: its identifier, an arrow, and its
    /// translations set one after the other.
    pub open spec fn written(self) -> Seq<char> {
        self.identifier + "->"@ + concatenated(self.translation)
    }
}

impl DictionaryWord {
    /// The word written out: its identifier, an arrow, and its
    /// translations set one after the other.
    pub fn to_text(&self) -> (res: String)
        ensures
            res@ == self@.written(),
    {
        let mut text = chars_of(self.identifier.as_str());
        let arrow = chars_of("->");
        push_all(&mut text, &arrow);
        let ghost head = text@;
        let mut i: usize = 0;
        proof {
            assert(texts(self.translation@).take(0) =~= Seq::<Seq<char>>::empty());
            assert(text@ =~= head + concatenated(texts(self.translation@).take(0)));
        }
        while i < self.translation.len()
            invariant
                i <= self.translation.len(),
                text@ == head + concatenated(texts(self.translation@).take(i as int)),
            decreases self.translation.len() - i,
        {
            let part = chars_of(self.translation[i].as_str());
            push_all(&mut text, &part);
            proof {
                let all = texts(self.translation@);
                assert(all.take(i + 1).drop_last() =~= all.take(i as int));
                assert(all.take(i + 1).last() == part@);
                assert(text@ =~= head + concatenated(all.take(i + 1)));
            }
            i += 1;
        }
        proof {
            assert(texts(self.translation@).take(self.translation.len() as int) =~= texts(self.translation@));
        }
        string_of(text.as_slice())
    }
}

impl Clone for DictionaryWord {
    fn clone(&self) -> (res: Self)
        ensures
            res@ == self@,
    {
        Self {
            kind: self.kind.clone(),
            identifier: self.identifier.clone(),
            translation: clone_texts(&self.translation),
        }
    }
}

impl DictionaryPhrase {
    /// A phrase of the given kind with every text field empty.
    pub fn new(kind: String) -> (res: Self)
        ensures
            res@ == (PhraseModel {
                kind: kind@,
                identifier: Seq::empty(),
                translation: Seq::empty(),
                example_for: Seq::empty(),
            }),
    {
        Self { kind, identifier: String::new(), translation: String::new(), example_for: String::new() }
    }
}

impl Clone for DictionaryPhrase {
    fn clone(&self) -> (res: Self)
        ensures
            res@ == self@,
    {
        Self {
            kind: self.kind.clone(),
            identifier: self.identifier.clone(),
            translation: self.translation.clone(),
            example_for: self.example_for.clone(),
        }
    }
}

impl Clone for DictionaryEntry {
    fn clone(&self) -> (res: Self)
        ensures
            res@ == self@,
    {
        match self {
            DictionaryEntry::Word(w) => DictionaryEntry::Word(w.clone()),
            DictionaryEntry::Phrase(p) => DictionaryEntry::Phrase(p.clone()),
        }
    }
}

} // verus!
