//! The practice engine: keystrokes against a target word, completion,
//! recent history and the choice of the next word.

pub mod cursor;
pub mod events;
pub mod icons;
pub mod render;
pub mod selection;
pub mod session;
pub mod util;
pub mod word;

use vstd::prelude::*;
use crate::practice::events::ProgressEvent;
use crate::practice::word::{PracticeWordModel, State, Stats, Word};

verus! {

/// Characters of a target word that any keystroke other than a letter or a
/// digit passes over.
pub const SKIP_CHARACTERS: [char; 2] = ['/', '|'];

/// The number of completed words that the recent history keeps.
pub const HISTORY_CAPACITY: usize = 5;

/// Whether `c` is one of the skippable characters.
pub open spec fn is_skip_character(c: char) -> bool {
    c == '/' || c == '|'
}

/// Whether `c` is one of the skippable characters.
pub fn skippable(c: char) -> (res: bool)
    ensures
        res == is_skip_character(c),
{
    c == '/' || c == '|'
}

/// Whether `c` is a letter or a digit in the sense of Unicode, as
/// `char::is_alphanumeric` reports it.
pub uninterp spec fn alphanumeric(c: char) -> bool;

/// Whether `c` is a letter or a digit.
///
/// Trusted: stands for `char::is_alphanumeric`, whose answer rests on the
/// Unicode tables; the contract only gives that answer its name.
#[verifier::external_body]
pub(crate) fn is_alphanumeric(c: char) -> (res: bool)
    ensures
        res == alphanumeric(c),
{
    c.is_alphanumeric()
}

/// Whether typing `typed` gets past `target`: always when they are equal,
/// and also when `target` is skippable and `typed` is neither letter nor
/// digit.
pub open spec fn advances(target: char, typed: char, typed_alphanumeric: bool) -> bool {
    (is_skip_character(target) && !typed_alphanumeric) || target == typed
}

/// Whether typing `typed` gets past `target`, given whether `typed` is a
/// letter or a digit.
pub fn matches_target(target: char, typed: char, typed_alphanumeric: bool) -> (res: bool)
    ensures
        res == advances(target, typed, typed_alphanumeric),
{
    (skippable(target) && !typed_alphanumeric) || target == typed
}

impl State {
    /// The state after `typed` was typed against `word`. With a character
    /// left to match, the keystroke is counted and either advances or
    /// fails; with none left, nothing changes.
    pub open spec fn after_char(self, word: PracticeWordModel, typed: char, typed_alphanumeric: bool) -> State {
        if self.progress < word.original_chars.len() {
            if advances(word.original_chars[self.progress as int], typed, typed_alphanumeric) {
                State {
                    progress: (self.progress + 1) as usize,
                    failed: false,
                    stats: Stats { chars_typed: (self.stats.chars_typed + 1) as u64, ..self.stats },
                    ..self
                }
            } else {
                State {
                    failed: true,
                    stats: Stats {
                        chars_typed: (self.stats.chars_typed + 1) as u64,
                        chars_failed: (self.stats.chars_failed + 1) as u64,
                        ..self.stats
                    },
                    ..self
                }
            }
        } else {
            self
        }
    }

    /// What typing `typed` against `word` comes to: a success with the
    /// typed character, a failure, or nothing where no character is left
    /// to match.
    pub open spec fn outcome_of_char(self, word: PracticeWordModel, typed: char, typed_alphanumeric: bool) -> Option<
        ProgressEvent,
    > {
        if self.progress < word.original_chars.len() {
            if advances(word.original_chars[self.progress as int], typed, typed_alphanumeric) {
                Some(ProgressEvent::Success(Some(typed)))
            } else {
                Some(ProgressEvent::Fail)
            }
        } else {
            None
        }
    }

    /// The state after a backspace: the pending failure is cleared and the
    /// progress stays where it is.
    pub open spec fn after_backspace(self) -> State {
        State { failed: false, ..self }
    }

    /// The state after a word was completed at time `now`.
    pub open spec fn after_completion(self, now: i64) -> State {
        State {
            last_word_timestamp: now,
            stats: Stats { completed: (self.stats.completed + 1) as u64, ..self.stats },
            ..self
        }
    }

    /// Whether every character of `word` has been matched.
    pub open spec fn done(self, word: PracticeWordModel) -> bool {
        self.progress >= word.size
    }

    /// Applies one typed character, given whether it is a letter or a
    /// digit.
    pub fn type_char_as(&mut self, word: &Word, typed: char, typed_alphanumeric: bool) -> (res: Option<
        ProgressEvent,
    >)
        requires
            old(self).stats.chars_typed < u64::MAX,
            old(self).stats.chars_failed < u64::MAX,
        ensures
            *final(self) == old(self).after_char(word@, typed, typed_alphanumeric),
            res == old(self).outcome_of_char(word@, typed, typed_alphanumeric),
    {
        if self.progress < word.original_chars.len() {
            let target = word.original_chars[self.progress];
            let advanced = matches_target(target, typed, typed_alphanumeric);
            if advanced {
                self.progress += 1;
                self.failed = false;
            } else {
                self.failed = true;
                self.stats.chars_failed += 1;
            }
            self.stats.chars_typed += 1;
            if advanced {
                Some(ProgressEvent::Success(Some(typed)))
            } else {
                Some(ProgressEvent::Fail)
            }
        } else {
            None
        }
    }

    /// Applies one typed character.
    pub fn type_char(&mut self, word: &Word, typed: char) -> (res: Option<ProgressEvent>)
        requires
            old(self).stats.chars_typed < u64::MAX,
            old(self).stats.chars_failed < u64::MAX,
        ensures
            *final(self) == old(self).after_char(word@, typed, alphanumeric(typed)),
            res == old(self).outcome_of_char(word@, typed, alphanumeric(typed)),
    {
        let typed_alphanumeric = is_alphanumeric(typed);
        self.type_char_as(word, typed, typed_alphanumeric)
    }

    /// Applies a backspace.
    pub fn backspace(&mut self)
        ensures
            *final(self) == old(self).after_backspace(),
    {
        self.failed = false;
    }

    /// Whether every character of `word` has been matched.
    pub fn word_done(&self, word: &Word) -> (res: bool)
        ensures
            res == self.done(word@),
    {
        self.progress >= word.size
    }

    /// The milliseconds that have passed at time `now` since the last word
    /// was completed, or since the session started if none was.
    pub fn millis_since_last_word(&self, now: i64) -> (res: i64)
        requires
            i64::MIN <= now - self.last_word_timestamp <= i64::MAX,
        ensures
            res == now - self.last_word_timestamp,
    {
        now - self.last_word_timestamp
    }

    /// The milliseconds that have passed at time `now` since the session
    /// started.
    pub fn millis_since_start(&self, now: i64) -> (res: i64)
        requires
            i64::MIN <= now - self.started_at <= i64::MAX,
        ensures
            res == now - self.started_at,
    {
        now - self.started_at
    }
}

/// A skippable target is passed by every keystroke that is neither letter
/// nor digit, without a failure being recorded; a letter or digit other
/// than the target itself is recorded as a failure and does not advance.
pub proof fn lemma_skip_character_rule(state: State, word: PracticeWordModel, typed: char)
    requires
        state.progress < word.original_chars.len() <= usize::MAX,
        is_skip_character(word.original_chars[state.progress as int]),
    ensures
        !alphanumeric(typed) ==> {
            let next = state.after_char(word, typed, alphanumeric(typed));
            &&& next.progress == state.progress + 1
            &&& !next.failed
            &&& next.stats.chars_failed == state.stats.chars_failed
        },
        alphanumeric(typed) && typed != word.original_chars[state.progress as int] ==> {
            let next = state.after_char(word, typed, alphanumeric(typed));
            &&& next.progress == state.progress
            &&& next.failed
            &&& state.stats.chars_failed < u64::MAX ==> next.stats.chars_failed == state.stats.chars_failed + 1
        },
{
}

/// The models of a list of practice words.
pub open spec fn word_models(words: Seq<Word>) -> Seq<PracticeWordModel> {
    Seq::new(words.len(), |i: int| words[i]@)
}

/// The recent history after `word` was completed: it joins at the end,
/// and the oldest word leaves when more than the capacity are held.
pub open spec fn remembered(history: Seq<PracticeWordModel>, word: PracticeWordModel) -> Seq<PracticeWordModel> {
    let grown = history.push(word);
    if grown.len() > HISTORY_CAPACITY {
        grown.drop_first()
    } else {
        grown
    }
}

/// The recent history after each of `words` was completed in turn.
pub open spec fn remembered_all(history: Seq<PracticeWordModel>, words: Seq<PracticeWordModel>) -> Seq<PracticeWordModel>
    decreases words.len(),
{
    if words.len() == 0 {
        history
    } else {
        remembered(remembered_all(history, words.drop_last()), words.last())
    }
}

/// The last `HISTORY_CAPACITY` items of `words`, or all of them if there
/// are fewer.
pub open spec fn most_recent(words: Seq<PracticeWordModel>) -> Seq<PracticeWordModel> {
    if words.len() > HISTORY_CAPACITY {
        words.subrange(words.len() - HISTORY_CAPACITY, words.len() as int)
    } else {
        words
    }
}

/// Starting from an empty history, completing any sequence of words leaves
/// exactly the most recent ones, oldest first.
pub proof fn lemma_history_keeps_most_recent(words: Seq<PracticeWordModel>)
    ensures
        remembered_all(Seq::empty(), words) == most_recent(words),
        remembered_all(Seq::empty(), words).len() <= HISTORY_CAPACITY,
    decreases words.len(),
{
    if words.len() > 0 {
        lemma_history_keeps_most_recent(words.drop_last());
        assert(remembered_all(Seq::empty(), words) =~= most_recent(words));
    } else {
        assert(remembered_all(Seq::empty(), words) =~= most_recent(words));
    }
}

/// Adds a completed word to the recent history.
pub fn remember(history: &mut Vec<Word>, word: Word)
    ensures
        word_models(final(history)@) == remembered(word_models(old(history)@), word@),
{
    history.push(word);
    if history.len() > HISTORY_CAPACITY {
        history.remove(0);
    }
    assert(word_models(history@) =~= remembered(word_models(old(history)@), word@));
}

} // verus!
