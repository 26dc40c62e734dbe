use typo_eq::config::Profile;
use typo_eq::importer::dictionary::{Dictionary, DictionaryWord};
use typo_eq::importer::parser::xdxf::parse_source;
use typo_eq::practice::events::{AppEvent, Loading, ProgressEvent};
use typo_eq::practice::selection::{
    can_select, learnt_word_at, lookup_word, new_word, select_word, selection_source, word_at,
    WordSource,
};
use typo_eq::practice::session::{Key, Session, Step};
use typo_eq::practice::word::{State, Stats, Word};
use typo_eq::practice::{matches_target, remember, skippable, HISTORY_CAPACITY, SKIP_CHARACTERS};

fn word(text: &str) -> Word {
    let mut entry = DictionaryWord::new("ar".to_string());
    entry.identifier = text.to_string();
    entry.translation.push(format!("{} (translated)", text));
    Word::from_entry(&entry)
}

fn dictionary(words: &[&str]) -> Dictionary {
    let mut source = String::from("<xdxf>");
    for w in words {
        source.push_str(&format!("<ar><k>{}</k><dtrn>t-{}</dtrn></ar>", w, w));
    }
    source.push_str("</xdxf>");
    parse_source(&source).unwrap()
}

#[test]
fn word_from_entry_counts_characters() {
    let w = word("na\u{ef}ve");
    assert_eq!(w.size, 5);
    assert_eq!(w.original, "na\u{ef}ve");
    assert_eq!(w.original_chars, vec!['n', 'a', '\u{ef}', 'v', 'e']);
    assert_eq!(w.translation, vec!["na\u{ef}ve (translated)".to_string()]);
    let copy = w.clone();
    assert_eq!(copy.size, 5);
    assert_eq!(copy.original_chars, w.original_chars);
}

#[test]
fn fresh_state_starts_at_the_given_time() {
    let state = State::starting_at(42);
    assert_eq!(state.progress, 0);
    assert!(!state.failed);
    assert_eq!(state.started_at, 42);
    assert_eq!(state.last_word_timestamp, 42);
    assert_eq!(state.stats, Stats { completed: 0, chars_typed: 0, chars_failed: 0 });
    assert_eq!(Stats::default(), Stats { completed: 0, chars_typed: 0, chars_failed: 0 });
    let now = State::default();
    assert_eq!(now.started_at, now.last_word_timestamp);
    assert!(now.started_at > 0);
    assert_eq!(now.progress, 0);
}

#[test]
fn skip_characters_are_slash_and_bar() {
    assert_eq!(SKIP_CHARACTERS, ['/', '|']);
    assert!(skippable('/'));
    assert!(skippable('|'));
    assert!(!skippable('a'));
    assert!(!skippable('\\'));
    assert!(matches_target('/', ' ', false));
    assert!(matches_target('|', '/', false));
    assert!(!matches_target('/', 'x', true));
    assert!(matches_target('x', 'x', true));
    assert!(!matches_target('x', ' ', false));
}

#[test]
fn skip_character_is_passed_by_punctuation() {
    let target = word("a/b");
    let mut state = State::starting_at(0);
    assert_eq!(state.type_char(&target, 'a'), Some(ProgressEvent::Success(Some('a'))));
    assert_eq!(state.progress, 1);
    assert_eq!(state.type_char(&target, '-'), Some(ProgressEvent::Success(Some('-'))));
    assert_eq!(state.progress, 2);
    assert!(!state.failed);
    assert_eq!(state.stats.chars_failed, 0);
    assert_eq!(state.stats.chars_typed, 2);
}

#[test]
fn skip_character_is_not_passed_by_a_letter_or_digit() {
    let target = word("a|b");
    let mut state = State::starting_at(0);
    state.type_char(&target, 'a');
    assert_eq!(state.type_char(&target, 'x'), Some(ProgressEvent::Fail));
    assert_eq!(state.progress, 1);
    assert!(state.failed);
    assert_eq!(state.type_char(&target, '7'), Some(ProgressEvent::Fail));
    assert_eq!(state.type_char(&target, '\u{e9}'), Some(ProgressEvent::Fail));
    assert_eq!(state.stats.chars_failed, 3);
    assert_eq!(state.stats.chars_typed, 4);
    assert_eq!(state.type_char(&target, '|'), Some(ProgressEvent::Success(Some('|'))));
    assert!(!state.failed);
    assert_eq!(state.progress, 2);
}

#[test]
fn plain_characters_need_an_exact_match() {
    let target = word("ab");
    let mut state = State::starting_at(0);
    state.type_char(&target, 'A');
    assert!(state.failed);
    assert_eq!(state.progress, 0);
    state.type_char(&target, ' ');
    assert_eq!(state.stats.chars_failed, 2);
    state.type_char(&target, 'a');
    assert_eq!(state.progress, 1);
    assert!(!state.failed);
    assert_eq!(state.stats.chars_typed, 3);
}

#[test]
fn typing_past_the_end_changes_nothing() {
    let target = word("a");
    let mut state = State::starting_at(0);
    state.type_char(&target, 'a');
    let before = state;
    assert_eq!(state.type_char(&target, 'a'), None);
    assert_eq!(state, before);
    assert!(state.word_done(&target));
}

#[test]
fn backspace_clears_the_failure_and_keeps_progress() {
    let target = word("abc");
    let mut state = State::starting_at(0);
    state.type_char(&target, 'a');
    state.type_char(&target, 'x');
    assert!(state.failed);
    state.backspace();
    assert!(!state.failed);
    assert_eq!(state.progress, 1);
    assert_eq!(state.stats.chars_failed, 1);
    assert!(!state.word_done(&target));
}

#[test]
fn elapsed_times_are_differences() {
    let mut state = State::starting_at(1000);
    state.last_word_timestamp = 4000;
    assert_eq!(state.millis_since_last_word(4500), 500);
    assert_eq!(state.millis_since_start(4500), 3500);
}

#[test]
fn completion_counts_one_then_two() {
    let mut session = Session::new(word("ab"), Profile::new("default".to_string()), 10);
    assert!(session.within_limits());
    assert_eq!(session.apply_key(Key::Char('a'), true, 11), Step::Continue);
    assert_eq!(session.apply_key(Key::Char('b'), true, 12), Step::WordCompleted);
    assert_eq!(session.profile.count_of("ab"), Some(1));
    assert_eq!(session.state.stats.completed, 1);
    assert_eq!(session.state.last_word_timestamp, 12);
    assert_eq!(session.state.started_at, 10);
    assert_eq!(session.old_words.len(), 1);
    session.start_word(word("ab"));
    assert_eq!(session.state.progress, 0);
    session.apply_key(Key::Char('a'), true, 13);
    session.apply_key(Key::Char('b'), true, 14);
    assert_eq!(session.profile.count_of("ab"), Some(2));
    assert_eq!(session.state.stats.completed, 2);
    assert_eq!(session.state.stats.chars_typed, 4);
}

#[test]
fn other_keys_leave_the_session_alone() {
    let mut session = Session::new(word("ab"), Profile::new("p".to_string()), 0);
    session.apply_key(Key::Char('x'), true, 1);
    assert!(session.state.failed);
    assert_eq!(session.apply_key(Key::Other, false, 2), Step::Continue);
    assert!(session.state.failed);
    assert_eq!(session.apply_key(Key::Exit, false, 3), Step::Exit);
    assert!(session.state.failed);
    assert_eq!(session.state.progress, 0);
    assert_eq!(session.apply_key(Key::Backspace, false, 4), Step::Continue);
    assert!(!session.state.failed);
    assert_eq!(session.state.stats.chars_typed, 1);
    assert!(session.profile.words_learnt.is_empty());
}

#[test]
fn limits_are_noticed() {
    let mut session = Session::new(word("ab"), Profile::new("p".to_string()), 0);
    session.state.stats.chars_typed = u64::MAX;
    assert!(!session.within_limits());
    session.state.stats.chars_typed = 0;
    session.profile.set_count("ab", i64::MAX);
    assert!(!session.within_limits());
    session.profile.set_count("ab", i64::MAX - 1);
    assert!(session.within_limits());
}

#[test]
fn history_keeps_the_last_five_of_seven() {
    assert_eq!(HISTORY_CAPACITY, 5);
    let mut history: Vec<Word> = Vec::new();
    for name in ["w1", "w2", "w3", "w4", "w5", "w6", "w7"] {
        remember(&mut history, word(name));
    }
    let kept: Vec<&str> = history.iter().map(|w| w.original.as_str()).collect();
    assert_eq!(kept, vec!["w3", "w4", "w5", "w6", "w7"]);
}

#[test]
fn history_grows_up_to_the_capacity() {
    let mut history: Vec<Word> = Vec::new();
    for (i, name) in ["a", "b", "c", "d", "e"].iter().enumerate() {
        remember(&mut history, word(name));
        assert_eq!(history.len(), i + 1);
    }
    remember(&mut history, word("f"));
    assert_eq!(history.len(), 5);
    assert_eq!(history[0].original, "b");
}

#[test]
fn session_history_follows_completions() {
    let dict = dictionary(&["a"]);
    let mut session = Session::new(word("a"), Profile::new("p".to_string()), 0);
    assert!(session.can_continue(&dict));
    for i in 0..7 {
        assert_eq!(session.handle_key_at(&dict, Key::Char('a'), i), Step::WordCompleted);
        assert_eq!(session.word.original, "a");
        assert_eq!(session.state.progress, 0);
    }
    assert_eq!(session.old_words.len(), 5);
    assert_eq!(session.profile.count_of("a"), Some(7));
    assert_eq!(session.state.stats.completed, 7);
    assert_eq!(session.state.last_word_timestamp, 6);
}

#[test]
fn handle_key_uses_the_clock_and_the_unicode_tables() {
    let dict = dictionary(&["a/b"]);
    let mut session = Session::new(word("a/b"), Profile::new("p".to_string()), 0);
    assert!(session.can_continue(&dict));
    assert_eq!(session.handle_key(&dict, Key::Char('a')), Step::Continue);
    assert_eq!(session.handle_key(&dict, Key::Char('z')), Step::Continue);
    assert!(session.state.failed);
    assert_eq!(session.handle_key(&dict, Key::Char('.')), Step::Continue);
    assert_eq!(session.state.progress, 2);
    assert_eq!(session.handle_key(&dict, Key::Char('b')), Step::WordCompleted);
    assert!(session.state.last_word_timestamp > 0);
    assert!(session.can_continue(&dict));
    assert_eq!(session.handle_key(&dict, Key::Exit), Step::Exit);
}

#[test]
fn a_session_cannot_go_on_without_its_words() {
    let session = Session::new(word("a"), Profile::new("p".to_string()), 0);
    assert!(!session.can_continue(&dictionary(&[])));
    assert!(!session.can_continue(&dictionary(&["b"])));
    assert!(session.can_continue(&dictionary(&["b", "a"])));
    let mut learnt = Profile::new("p".to_string());
    learnt.record_completion("elsewhere");
    let session = Session::new(word("a"), learnt, 0);
    assert!(!session.can_continue(&dictionary(&["a"])));
    assert!(session.can_continue(&dictionary(&["a", "elsewhere"])));
}

#[test]
fn keys_other_than_characters_need_no_room() {
    let dict = dictionary(&["ab"]);
    let mut session = Session::new(word("ab"), Profile::new("p".to_string()), 0);
    session.state.stats.chars_typed = u64::MAX;
    session.state.failed = true;
    assert!(!session.within_limits());
    assert_eq!(session.handle_key_at(&dict, Key::Backspace, 1), Step::Continue);
    assert!(!session.state.failed);
    assert_eq!(session.handle_key_at(&dict, Key::Other, 2), Step::Continue);
    assert_eq!(session.handle_key_at(&dict, Key::Exit, 3), Step::Exit);
    assert_eq!(session.state.stats.chars_typed, u64::MAX);
}

#[test]
fn source_is_the_dictionary_while_nothing_is_learnt() {
    let empty = Profile::new("p".to_string());
    for branch in 0..4 {
        assert_eq!(selection_source(branch, &empty), WordSource::Dictionary);
    }
    let mut some = Profile::new("p".to_string());
    some.record_completion("w");
    assert_eq!(selection_source(0, &some), WordSource::Dictionary);
    assert_eq!(selection_source(1, &some), WordSource::Learnt);
}

#[test]
fn nothing_learnt_always_draws_from_the_dictionary() {
    let dict = dictionary(&["one", "two", "three"]);
    let empty = Profile::new("p".to_string());
    let mut seen = [false; 3];
    assert!(can_select(&dict, &empty));
    for _ in 0..300 {
        let w = new_word(&dict, &empty);
        let at = dict.words.iter().position(|d| d.identifier == w.original).unwrap();
        assert_eq!(w.translation, dict.words[at].translation);
        assert_eq!(w.size, w.original.chars().count());
        seen[at] = true;
    }
    assert_eq!(seen, [true, true, true]);
    for branch in 0..3 {
        assert_eq!(select_word(&dict, &empty, branch, 1).unwrap().original, "two");
        assert!(select_word(&dict, &empty, branch, 3).is_none());
    }
}

#[test]
fn learnt_words_are_looked_up_in_the_dictionary() {
    let dict = dictionary(&["one", "two", "three", "two"]);
    let mut profile = Profile::new("p".to_string());
    profile.record_completion("three");
    profile.record_completion("missing");
    assert_eq!(select_word(&dict, &profile, 1, 0).unwrap().original, "three");
    assert!(select_word(&dict, &profile, 1, 1).is_none());
    assert!(select_word(&dict, &profile, 1, 2).is_none());
    assert_eq!(select_word(&dict, &profile, 0, 0).unwrap().original, "one");
    assert_eq!(learnt_word_at(&dict, &profile, 0).unwrap().translation, vec!["t-three".to_string()]);
    assert_eq!(word_at(&dict, 3).unwrap().original, "two");
    assert!(word_at(&dict, 4).is_none());
    assert_eq!(lookup_word(&dict, "two").unwrap().size, 3);
    assert!(lookup_word(&dict, "four").is_none());
}

#[test]
fn new_word_draws_within_the_dictionary() {
    let dict = dictionary(&["one", "two"]);
    let mut profile = Profile::new("p".to_string());
    profile.record_completion("two");
    let mut seen_one = false;
    let mut seen_two = false;
    assert!(can_select(&dict, &profile));
    for _ in 0..300 {
        let w = new_word(&dict, &profile);
        seen_one = seen_one || w.original == "one";
        seen_two = seen_two || w.original == "two";
        assert!(w.original == "one" || w.original == "two");
    }
    assert!(seen_one && seen_two);
}

#[test]
fn nothing_can_be_selected_from_an_empty_dictionary() {
    let dict = dictionary(&[]);
    assert!(!can_select(&dict, &Profile::new("p".to_string())));
    let mut profile = Profile::new("p".to_string());
    profile.record_completion("one");
    assert!(!can_select(&dict, &profile));
}

#[test]
fn a_learnt_word_missing_from_the_dictionary_is_noticed() {
    let dict = dictionary(&["one", "two"]);
    let mut profile = Profile::new("p".to_string());
    profile.record_completion("two");
    assert!(can_select(&dict, &profile));
    profile.record_completion("elsewhere");
    assert!(!can_select(&dict, &profile));
    profile.record_completion("one");
    assert!(!can_select(&dict, &profile));
}

#[test]
fn loading_keeps_the_dictionary_and_the_start_time() {
    let mut loading = Loading::new();
    assert!(!loading.ready());
    loading.receive(AppEvent::LoadingStarted, 100);
    assert_eq!(loading.load_time, 100);
    assert!(!loading.ready());
    loading.receive(AppEvent::DictionaryLoaded(dictionary(&["a"])), 150);
    assert!(loading.ready());
    assert_eq!(loading.load_time, 100);
    loading.receive(AppEvent::LoadingFinished, 180);
    assert_eq!(loading.millis_loading(180), 80);
    assert_eq!(loading.dict.unwrap().words.len(), 1);
}

#[test]
fn events_have_labels() {
    assert_eq!(AppEvent::LoadingStarted.label(), "Loading Started");
    assert_eq!(AppEvent::LoadingFinished.label(), "Loading Finished");
    assert_eq!(AppEvent::DictionaryLoaded(dictionary(&[])).label(), "Dictionary Loaded");
    assert_eq!(ProgressEvent::Fail.label(), "Failed");
    assert_eq!(ProgressEvent::Success(None).label(), "Success");
}
