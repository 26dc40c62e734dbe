//! One practice session: the state, the word under the cursor, the
//! profile, the recent history, and how a key changes them.

use vstd::prelude::*;
use crate::config::{completed, count_in, counts_wf, keys_of, lemma_completed, Profile};
use crate::importer::dictionary::{Dictionary, DictionaryModel};
use crate::practice::selection::{can_select, find_word, lookup_word, new_word, pick, selectable};
use crate::util::lemma_first_index_of;
use crate::practice::word::{clock_millis, PracticeWordModel, State, Word};
use crate::practice::{alphanumeric, is_alphanumeric, remember, remembered, word_models};

verus! {

/// A key as the session sees it.
#[derive(Debug, Clone, Copy, PartialEq, Eq, Structural)]
pub enum Key {
    /// Escape or the interrupt combination.
    Exit,
    Backspace,
    Char(char),
    /// Any other event; it changes nothing.
    Other,
}

/// What the caller does after a key was handled.
#[derive(Debug, Clone, Copy, PartialEq, Eq, Structural)]
pub enum Step {
    /// Leave the loop.
    Exit,
    /// Redraw and wait for the next key.
    Continue,
    /// A word was completed and a new one is under the cursor.
    WordCompleted,
}

/// Everything a running session owns.
#[derive(Debug)]
pub struct Session {
    pub state: State,
    pub word: Word,
    pub profile: Profile,
    pub old_words: Vec<Word>,
}

/// What a session holds, as plain values.
pub struct SessionModel {
    pub state: State,
    pub word: PracticeWordModel,
    pub profile_name: Seq<char>,
    pub learnt: Seq<(Seq<char>, int)>,
    pub old_words: Seq<PracticeWordModel>,
}

impl View for Session {
    type V = SessionModel;

    open spec fn view(&self) -> SessionModel {
        SessionModel {
            state: self.state,
            word: self.word@,
            profile_name: self.profile.name@,
            learnt: self.profile.pairs(),
            old_words: word_models(self.old_words@),
        }
    }
}

impl SessionModel {
    /// The invariant: the word's descriptions agree and the profile lists
    /// each word once with a count of zero or more.
    pub open spec fn wf(self) -> bool {
        self.word.wf() && counts_wf(self.learnt)
    }

    /// Whether the counters that a completion raises have room for one
    /// more.
    pub open spec fn has_room_to_complete(self) -> bool {
        &&& self.state.stats.completed < u64::MAX
        &&& count_in(self.learnt, self.word.original) matches Some(c) ==> c < i64::MAX
    }

    /// Whether every counter that a key may raise has room for one more.
    pub open spec fn has_room(self) -> bool {
        &&& self.has_room_to_complete()
        &&& self.state.stats.chars_typed < u64::MAX
        &&& self.state.stats.chars_failed < u64::MAX
    }

    /// Whether `key` completes the current word.
    pub open spec fn completes(self, key: Key, typed_alphanumeric: bool) -> bool {
        match key {
            Key::Char(c) => self.state.after_char(self.word, c, typed_alphanumeric).done(self.word),
            _ => false,
        }
    }

    /// What the caller does after `key`.
    pub open spec fn step_for(self, key: Key, typed_alphanumeric: bool) -> Step {
        match key {
            Key::Exit => Step::Exit,
            Key::Char(_) => if self.completes(key, typed_alphanumeric) {
                Step::WordCompleted
            } else {
                Step::Continue
            },
            _ => Step::Continue,
        }
    }

    /// The session after the current word was completed at time `now`:
    /// the clock reading and the counter move, the word's count in the
    /// profile goes up by one or starts at 1, and the word joins the
    /// recent history.
    pub open spec fn after_completion(self, now: i64) -> SessionModel {
        SessionModel {
            state: self.state.after_completion(now),
            learnt: completed(self.learnt, self.word.original),
            old_words: remembered(self.old_words, self.word),
            ..self
        }
    }

    /// The session after `key` was pressed at time `now`, before a new
    /// word is chosen.
    pub open spec fn after_key(self, key: Key, typed_alphanumeric: bool, now: i64) -> SessionModel {
        match key {
            Key::Exit => self,
            Key::Other => self,
            Key::Backspace => SessionModel { state: self.state.after_backspace(), ..self },
            Key::Char(c) => {
                let typed = SessionModel { state: self.state.after_char(self.word, c, typed_alphanumeric), ..self };
                if typed.state.done(self.word) {
                    typed.after_completion(now)
                } else {
                    typed
                }
            },
        }
    }

    /// The session with `word` under the cursor and nothing of it typed.
    pub open spec fn with_word(self, word: PracticeWordModel) -> SessionModel {
        SessionModel { word, state: State { progress: 0, ..self.state }, ..self }
    }

    /// Whether the session can go on with `dict` whatever is typed and
    /// drawn: a word can be selected, and the word under the cursor is one
    /// of the dictionary.
    pub open spec fn can_go_on(self, dict: DictionaryModel) -> bool {
        selectable(dict, self.learnt) && find_word(dict, self.word.original) is Some
    }

    /// How the session `after` and the step `step` relate to the session
    /// `self` in which `key` was pressed at time `now`: the key is
    /// applied, and where it completes the word, a word that some draw
    /// selects from `dict` is put under the cursor.
    pub open spec fn handled(
        self,
        after: SessionModel,
        dict: DictionaryModel,
        key: Key,
        typed_alphanumeric: bool,
        now: i64,
        step: Step,
    ) -> bool {
        let keyed = self.after_key(key, typed_alphanumeric, now);
        &&& step == self.step_for(key, typed_alphanumeric)
        &&& if self.completes(key, typed_alphanumeric) {
            &&& after == keyed.with_word(after.word)
            &&& after.word.wf()
            &&& exists|branch: usize, index: int|
                branch < 2 && Some(after.word) == #[trigger] pick(dict, keyed.learnt, branch, index)
        } else {
            after == keyed
        }
    }
}

/// A completed word that the dictionary holds leaves every learnt word in
/// the dictionary.
pub proof fn lemma_completion_keeps_selectable(dict: DictionaryModel, pairs: Seq<(Seq<char>, int)>, word: Seq<char>)
    requires
        selectable(dict, pairs),
        find_word(dict, word) is Some,
    ensures
        selectable(dict, completed(pairs, word)),
{
    let after = completed(pairs, word);
    lemma_first_index_of(keys_of(pairs), word);
    assert forall|i: int| 0 <= i < after.len() implies #[trigger] find_word(dict, after[i].0) is Some by {
        if i < pairs.len() && after[i].0 != word {
            assert(after[i] == pairs[i]);
            assert(find_word(dict, pairs[i].0) is Some);
        }
    }
}

impl Session {
    /// A session that starts at time `now` with `word` under the cursor
    /// and an empty history.
    pub fn new(word: Word, profile: Profile, now: i64) -> (res: Self)
        ensures
            res@ == (SessionModel {
                state: State::initial(now),
                word: word@,
                profile_name: profile.name@,
                learnt: profile.pairs(),
                old_words: Seq::empty(),
            }),
    {
        let res = Session { state: State::starting_at(now), word, profile, old_words: Vec::new() };
        assert(word_models(res.old_words@) =~= Seq::empty());
        res
    }

    /// Whether every counter that a key may raise has room for one more.
    pub fn within_limits(&self) -> (res: bool)
        ensures
            res == self@.has_room(),
    {
        let counted = match self.profile.count_of(self.word.original.as_str()) {
            Some(c) => c < i64::MAX,
            None => true,
        };
        self.state.stats.completed < u64::MAX && self.state.stats.chars_typed < u64::MAX
            && self.state.stats.chars_failed < u64::MAX && counted
    }

    /// Records the completion of the current word at time `now`.
    pub fn complete_word(&mut self, now: i64)
        requires
            old(self)@.wf(),
            old(self)@.has_room_to_complete(),
        ensures
            final(self)@ == old(self)@.after_completion(now),
            final(self)@.wf(),
    {
        proof {
            lemma_completed(self.profile.pairs(), self.word.original@);
        }
        self.state.last_word_timestamp = now;
        self.state.stats.completed += 1;
        self.profile.record_completion(self.word.original.as_str());
        remember(&mut self.old_words, self.word.clone());
    }

    /// Puts `word` under the cursor with nothing of it typed.
    pub fn start_word(&mut self, word: Word)
        ensures
            final(self)@ == old(self)@.with_word(word@),
    {
        self.word = word;
        self.state.progress = 0;
    }

    /// Applies `key`, pressed at time `now`, given whether a typed
    /// character is a letter or a digit. A completed word is recorded; the
    /// choice of the next word is left to the caller.
    pub fn apply_key(&mut self, key: Key, typed_alphanumeric: bool, now: i64) -> (step: Step)
        requires
            old(self)@.wf(),
            key is Char ==> old(self)@.has_room(),
        ensures
            final(self)@ == old(self)@.after_key(key, typed_alphanumeric, now),
            step == old(self)@.step_for(key, typed_alphanumeric),
            final(self)@.wf(),
    {
        match key {
            Key::Exit => Step::Exit,
            Key::Other => Step::Continue,
            Key::Backspace => {
                self.state.backspace();
                Step::Continue
            },
            Key::Char(c) => {
                let _ = self.state.type_char_as(&self.word, c, typed_alphanumeric);
                if self.state.word_done(&self.word) {
                    self.complete_word(now);
                    Step::WordCompleted
                } else {
                    Step::Continue
                }
            },
        }
    }

    /// Whether the session can go on with `dict` whatever is typed and
    /// drawn.
    pub fn can_continue(&self, dict: &Dictionary) -> (res: bool)
        ensures
            res == self@.can_go_on(dict@),
    {
        can_select(dict, &self.profile) && lookup_word(dict, self.word.original.as_str()).is_some()
    }

    /// Handles `key` at time `now`: applies it and, where it completes the
    /// word, draws the next one from `dict`. A character needs room in
    /// the counters, and the session must be able to go on with `dict`;
    /// it then can after the key as well.
    pub fn handle_key_at(&mut self, dict: &Dictionary, key: Key, now: i64) -> (step: Step)
        requires
            old(self)@.wf(),
            key is Char ==> old(self)@.has_room(),
            old(self)@.can_go_on(dict@),
        ensures
            old(self)@.handled(final(self)@, dict@, key, typed_is_alphanumeric(key), now, step),
            final(self)@.wf(),
            final(self)@.can_go_on(dict@),
    {
        let typed_alphanumeric = match key {
            Key::Char(c) => is_alphanumeric(c),
            _ => false,
        };
        proof {
            lemma_completion_keeps_selectable(dict@, self@.learnt, self@.word.original);
        }
        let step = self.apply_key(key, typed_alphanumeric, now);
        match step {
            Step::WordCompleted => {
                let word = new_word(dict, &self.profile);
                self.start_word(word);
            },
            _ => {},
        }
        step
    }

    /// Handles `key` at the present moment, as `handle_key_at` does at a
    /// given one.
    pub fn handle_key(&mut self, dict: &Dictionary, key: Key) -> (step: Step)
        requires
            old(self)@.wf(),
            key is Char ==> old(self)@.has_room(),
            old(self)@.can_go_on(dict@),
        ensures
            exists|now: i64| #[trigger]
                old(self)@.handled(final(self)@, dict@, key, typed_is_alphanumeric(key), now, step),
            final(self)@.wf(),
            final(self)@.can_go_on(dict@),
    {
        let now = clock_millis();
        self.handle_key_at(dict, key, now)
    }
}

/// Whether the character that `key` types, if it types one, is a letter or
/// a digit.
pub open spec fn typed_is_alphanumeric(key: Key) -> bool {
    match key {
        Key::Char(c) => alphanumeric(c),
        _ => false,
    }
}

/// Completing a word that the profile has not seen gives it the count 1,
/// and completing it once more gives it the count 2.
pub proof fn lemma_completion_counts(pairs: Seq<(Seq<char>, int)>, word: Seq<char>)
    requires
        counts_wf(pairs),
        count_in(pairs, word) is None,
    ensures
        count_in(completed(pairs, word), word) == Some(1int),
        count_in(completed(completed(pairs, word), word), word) == Some(2int),
{
    lemma_completed(pairs, word);
    lemma_completed(completed(pairs, word), word);
}

} // verus!
