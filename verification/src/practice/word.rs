//! The word under practice and the state of a session.

use vstd::prelude::*;
use crate::importer::dictionary::{DictionaryWord, WordModel};
use crate::text::{chars_of, clone_texts, texts};

verus! {

/// What a practice word holds, as plain values.
pub struct PracticeWordModel {
    pub size: nat,
    pub original: Seq<char>,
    pub original_chars: Seq<char>,
    pub translation: Seq<Seq<char>>,
}

/// A word to type: its text, the same text character by character, the
/// number of characters, and its translations.
#[derive(Debug)]
pub struct Word {
    pub size: usize,
    pub original: String,
    pub original_chars: Vec<char>,
    pub translation: Vec<String>,
}

/// A phrase to type, with its single translation.
#[derive(Debug)]
pub struct Phrase {
    pub size: usize,
    pub original: String,
    pub original_chars: Vec<char>,
    pub translation: String,
}

/// Counters of a session.
#[derive(Debug, Clone, Copy, PartialEq, Eq, Structural)]
pub struct Stats {
    pub completed: u64,
    pub chars_typed: u64,
    pub chars_failed: u64,
}

/// Progress within the current word, and the clock readings and counters
/// of the session. Times are milliseconds since the Unix epoch.
#[derive(Debug, Clone, Copy, PartialEq, Eq, Structural)]
pub struct State {
    pub progress: usize,
    pub failed: bool,
    pub started_at: i64,
    pub last_word_timestamp: i64,
    pub stats: Stats,
}

impl View for Word {
    type V = PracticeWordModel;

    open spec fn view(&self) -> PracticeWordModel {
        PracticeWordModel {
            size: self.size as nat,
            original: self.original@,
            original_chars: self.original_chars@,
            translation: texts(self.translation@),
        }
    }
}

/// The practice word that a dictionary word gives.
pub open spec fn practice_word(entry: WordModel) -> PracticeWordModel {
    PracticeWordModel {
        size: entry.identifier.len(),
        original: entry.identifier,
        original_chars: entry.identifier,
        translation: entry.translation,
    }
}

impl PracticeWordModel {
    /// The three descriptions of the text agree.
    pub open spec fn wf(self) -> bool {
        self.size == self.original_chars.len() && self.original == self.original_chars
    }
}

impl Word {
    /// The word's invariant: `size` counts `original_chars`, which spell
    /// `original`.
    pub open spec fn wf(&self) -> bool {
        self@.wf()
    }

    /// The practice word for a dictionary word: its identifier to type and
    /// its translations to show.
    pub fn from_entry(entry: &DictionaryWord) -> (res: Self)
        ensures
            res@ == practice_word(entry@),
            res.wf(),
    {
        let original_chars = chars_of(entry.identifier.as_str());
        Word {
            size: original_chars.len(),
            original: entry.identifier.clone(),
            original_chars,
            translation: clone_texts(&entry.translation),
        }
    }
}

impl Clone for Word {
    fn clone(&self) -> (res: Self)
        ensures
            res@ == self@,
    {
        Word {
            size: self.size,
            original: self.original.clone(),
            original_chars: self.original_chars.clone(),
            translation: clone_texts(&self.translation),
        }
    }
}

impl Default for Stats {
    fn default() -> (res: Self)
        ensures
            res == (Stats { completed: 0, chars_typed: 0, chars_failed: 0 }),
    {
        Stats { completed: 0, chars_typed: 0, chars_failed: 0 }
    }
}

/// The current time in milliseconds since the Unix epoch.
///
/// Trusted: stands for `chrono::Utc::now().timestamp_millis()`. The value
/// depends on the clock, so the contract says nothing of it.
#[verifier::external_body]
pub(crate) fn clock_millis() -> i64 {
    chrono::Utc::now().timestamp_millis()
}

impl State {
    /// The state of a session that starts at time `now`: nothing typed,
    /// nothing failed, both clock readings at `now`.
    pub open spec fn initial(now: i64) -> State {
        State {
            progress: 0,
            failed: false,
            started_at: now,
            last_word_timestamp: now,
            stats: Stats { completed: 0, chars_typed: 0, chars_failed: 0 },
        }
    }

    /// A fresh state for a session that starts at time `now`.
    pub fn starting_at(now: i64) -> (res: Self)
        ensures
            res == State::initial(now),
    {
        State {
            progress: 0,
            failed: false,
            started_at: now,
            last_word_timestamp: now,
            stats: Stats::default(),
        }
    }
}

impl Default for State {
    /// A fresh state for a session that starts at the present moment.
    fn default() -> (res: Self)
        ensures
            res == State::initial(res.started_at),
    {
        State::starting_at(clock_millis())
    }
}

} // verus!
