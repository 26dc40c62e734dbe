use typo_eq::config::Profile;
use typo_eq::importer::dictionary::DictionaryWord;
use typo_eq::practice::cursor::Cursor;
use typo_eq::practice::icons::Icon;
use typo_eq::practice::render::{
    get_progress_cursor, render_center, render_completed_words, render_cursor, render_knowledge,
    render_new_word, render_translations, reset_cursor, Color, DrawOp, Renderer, TextAlign,
};
use typo_eq::practice::util::{offset_from, shift, term_center};
use typo_eq::practice::word::{State, Word};

fn word(text: &str, translations: &[&str]) -> Word {
    let mut entry = DictionaryWord::new("ar".to_string());
    entry.identifier = text.to_string();
    for t in translations {
        entry.translation.push(t.to_string());
    }
    Word::from_entry(&entry)
}

fn printed(op: &DrawOp) -> (String, (i16, i16), Option<TextAlign>, Option<Color>, bool) {
    match op {
        DrawOp::Print(r) => {
            assert_eq!(r.background_color, None);
            (r.text.clone(), r.offset, r.align, r.color, r.clear)
        }
        other => panic!("not a print request: {:?}", other),
    }
}

#[test]
fn icons_follow_the_count() {
    assert_eq!(Icon::for_count(0), Icon::New);
    assert_eq!(Icon::for_count(1), Icon::Seen);
    assert_eq!(Icon::for_count(4), Icon::Seen);
    assert_eq!(Icon::for_count(5), Icon::Learnt);
    assert_eq!(Icon::for_count(i64::MAX), Icon::Learnt);
    assert_eq!(Icon::New.glyph(), "");
    assert_eq!(Icon::Seen.glyph(), "\u{e22f}");
    assert_eq!(Icon::Learnt.glyph(), "\u{e21c}");
}

#[test]
fn centre_and_offsets() {
    assert_eq!(term_center((80, 25)), (40, 12));
    assert_eq!(term_center((0, 1)), (0, 0));
    assert_eq!(shift(40, -6), 34);
    assert_eq!(shift(40, 6), 46);
    assert_eq!(shift(2, -3), 65535);
    assert_eq!(shift(65535, 1), 0);
    assert_eq!(shift(65535, i16::MAX), 32766);
    assert_eq!(shift(0, i16::MIN), 32768);
    assert_eq!(offset_from((40, 12), (-2, 3)), (38, 15));
    assert_eq!(Cursor::move_to_center((40, 12), (0, 8)), (40, 20));
    assert_eq!(Cursor::move_to_center((1, 1), (-2, -2)), (65535, 65535));
    assert_eq!(Cursor::move_to_center_default((40, 12)), (40, 12));
    assert_eq!(Renderer.clear_line_at_center((40, 12), (0, 2)), (40, 14));
}

#[test]
fn aligned_text_starts_left_of_its_position() {
    let r = Renderer;
    assert_eq!(TextAlign::default(), TextAlign::Left);
    assert_eq!(r.print_at("hello", (40, 12), TextAlign::Left), (40, 12));
    assert_eq!(r.print_at("hello", (40, 12), TextAlign::Center), (38, 12));
    assert_eq!(r.print_at("hello", (40, 12), TextAlign::Right), (35, 12));
    assert_eq!(r.print_at("h\u{e9}llo!", (40, 12), TextAlign::Center), (37, 12));
    assert_eq!(r.print_at("hello", (2, 0), TextAlign::Right), (65533, 0));
    assert_eq!(r.print_at_center((40, 12), "hello", (4, -1), None), (42, 11));
    assert_eq!(r.print_at_center((40, 12), "hello", (4, -1), Some(TextAlign::Left)), (44, 11));
    assert_eq!(r.print_at_center((40, 12), "hello", (4, -1), Some(TextAlign::Right)), (39, 11));
    assert_eq!(r.print_at_center_default((40, 12), "Loading Started"), (33, 12));
}

#[test]
fn cursor_follows_the_progress() {
    let w = word("hello", &[]);
    let mut state = State::starting_at(0);
    assert_eq!(get_progress_cursor(&w, &state), -2);
    state.progress = 3;
    assert_eq!(get_progress_cursor(&w, &state), 1);
    assert_eq!(reset_cursor(&w, &state), (1, 0));
    state.failed = true;
    assert_eq!(reset_cursor(&w, &state), (2, 0));
    assert_eq!(
        printed(&render_cursor(&w, &state)),
        ("^".to_string(), (1, 1), None, Some(Color::DarkYellow), true)
    );
}

#[test]
fn new_word_is_shown_on_a_cleared_line() {
    let w = word("hello", &["bonjour"]);
    assert_eq!(printed(&render_new_word(&w)), ("hello".to_string(), (0, 0), None, None, true));
}

#[test]
fn knowledge_shows_count_and_icon() {
    assert_eq!(
        printed(&render_knowledge(0)),
        ("0 ".to_string(), (0, 2), Some(TextAlign::Left), Some(Color::Green), false)
    );
    assert_eq!(printed(&render_knowledge(3)).0, "3 \u{e22f}");
    assert_eq!(printed(&render_knowledge(12)).0, "12 \u{e21c}");
}

#[test]
fn translations_get_a_row_each() {
    let w = word("hello", &["bonjour", "salut"]);
    let ops = render_translations(&w);
    assert_eq!(ops.len(), 3);
    assert!(matches!(ops[0], DrawOp::ClearDown { row: 3 }));
    assert_eq!(printed(&ops[1]), ("bonjour".to_string(), (0, 3), None, None, false));
    assert_eq!(printed(&ops[2]), ("salut".to_string(), (0, 4), None, None, false));
    assert_eq!(render_translations(&word("x", &[])).len(), 1);
}

#[test]
fn completed_words_are_listed_most_recent_first() {
    let words = vec![word("one", &["un", "une"]), word("two", &[])];
    let ops = render_completed_words(&words);
    assert_eq!(ops.len(), 8);
    assert!(matches!(ops[0], DrawOp::ClearLine { offset: (0, -2) }));
    assert_eq!(
        printed(&ops[1]),
        ("two".to_string(), (-2, -2), Some(TextAlign::Right), Some(Color::DarkGrey), false)
    );
    assert_eq!(printed(&ops[2]), ("->".to_string(), (0, -2), None, Some(Color::DarkGrey), false));
    assert_eq!(
        printed(&ops[3]),
        ("no translation".to_string(), (2, -2), Some(TextAlign::Left), Some(Color::DarkGrey), false)
    );
    assert!(matches!(ops[4], DrawOp::ClearLine { offset: (0, -3) }));
    assert_eq!(printed(&ops[5]).0, "one");
    assert_eq!(printed(&ops[5]).1, (-2, -3));
    assert_eq!(printed(&ops[7]).0, "un");
    assert!(render_completed_words(&Vec::new()).is_empty());
}

#[test]
fn centre_line_shows_progress_speed_and_word() {
    let w = word("hello", &["bonjour"]);
    let mut state = State::starting_at(0);
    state.progress = 2;
    let mut profile = Profile::new("p".to_string());
    profile.set_count("hello", 7);
    let ops = render_center(&w, &state, &profile, "42");
    assert_eq!(ops.len(), 6);
    assert!(matches!(ops[0], DrawOp::ClearLine { offset: (0, 0) }));
    assert_eq!(
        printed(&ops[1]),
        ("2/5".to_string(), (6, 0), Some(TextAlign::Left), Some(Color::DarkGrey), false)
    );
    assert_eq!(
        printed(&ops[2]),
        ("42 wpm".to_string(), (-6, 0), Some(TextAlign::Right), Some(Color::DarkYellow), false)
    );
    assert_eq!(
        printed(&ops[3]),
        ("he".to_string(), (-2, 0), Some(TextAlign::Left), Some(Color::DarkGreen), false)
    );
    assert_eq!(printed(&ops[4]), ("llo".to_string(), (0, 0), Some(TextAlign::Left), None, false));
    assert_eq!(printed(&ops[5]).0, "7 \u{e21c}");
}

#[test]
fn centre_line_marks_the_failed_character() {
    let w = word("hello", &[]);
    let mut state = State::starting_at(0);
    state.progress = 1;
    state.failed = true;
    let profile = Profile::new("p".to_string());
    let ops = render_center(&w, &state, &profile, "inf");
    assert_eq!(ops.len(), 7);
    assert_eq!(
        printed(&ops[5]),
        ("e".to_string(), (-1, 0), Some(TextAlign::Left), Some(Color::DarkRed), false)
    );
    assert_eq!(printed(&ops[6]).0, "0 ");
    state.progress = 5;
    let ops = render_center(&w, &state, &profile, "1");
    assert_eq!(printed(&ops[5]).0, " ");
    assert_eq!(printed(&ops[3]).0, "hello");
    assert_eq!(printed(&ops[4]).0, "");
}
