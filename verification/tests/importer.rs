use typo_eq::importer::counter::count_xml_tags;
use typo_eq::importer::dictionary::{DictionaryEntry, DictionaryPhrase, DictionaryWord};
use typo_eq::importer::parser::base::DictionaryParser;
use typo_eq::importer::parser::typo::TypoEQParser;
use typo_eq::importer::parser::xdxf::{
    decode_event, import_events, parse_source, ImportState, MarkupEvent, TextTarget, XDXFParser,
};
use typo_eq::importer::markup::RawEvent;
use typo_eq::importer::parser::{extension, parse_file, parser_for, Format, ImportError};

const SOURCE: &str = "<?xml version=\"1.0\"?>\n<xdxf lang_from=\"en\" lang_to=\"fr\">\n\
<ar><exm><k>cat</k><ex type=\"exm\">the cat sleeps</ex></exm><dtrn>chat</dtrn><dtrn>minou</dtrn></ar>\n\
<ar><k>dog</k><dtrn>chien</dtrn></ar>\n\
<ar><dtrn>nothing</dtrn></ar>\n\
<ar><exm><k>fish &amp; chips</k><ex type=\"exm\">fish swim</ex></exm><dtrn>poisson</dtrn><dtrn>poisson</dtrn></ar>\n\
</xdxf>\n";

#[test]
fn entries_and_views_follow_the_entry_blocks() {
    let dict = parse_source(SOURCE).unwrap();
    // four entry blocks, one without identifier, two with an example phrase
    assert_eq!(dict.words.len(), 3);
    assert_eq!(dict.phrases.len(), 2);
    assert_eq!(dict.entries.len(), 5);
    assert_eq!(dict.words[0].identifier, "cat");
    assert_eq!(dict.words[0].kind, "ar");
    assert_eq!(dict.words[0].translation, vec!["chat".to_string(), "minou".to_string()]);
    assert_eq!(dict.words[1].identifier, "dog");
    assert_eq!(dict.words[2].identifier, "fish & chips");
    assert_eq!(dict.words[2].translation, vec!["poisson".to_string(), "poisson".to_string()]);
    assert_eq!(dict.phrases[0].identifier, "the cat sleeps");
    assert_eq!(dict.phrases[0].example_for, "cat");
    assert_eq!(dict.phrases[0].kind, "exm");
    assert_eq!(dict.phrases[1].identifier, "fish swim");
    assert_eq!(dict.phrases[1].example_for, "fish & chips");
    assert!(matches!(&dict.entries[0], DictionaryEntry::Word(w) if w.identifier == "cat"));
    assert!(matches!(&dict.entries[1], DictionaryEntry::Phrase(p) if p.example_for == "cat"));
    assert!(matches!(&dict.entries[2], DictionaryEntry::Word(w) if w.identifier == "dog"));
    assert!(matches!(&dict.entries[3], DictionaryEntry::Word(w) if w.identifier == "fish & chips"));
    assert!(matches!(&dict.entries[4], DictionaryEntry::Phrase(p) if p.identifier == "fish swim"));
}

#[test]
fn language_attributes_are_captured() {
    let dict = parse_source(SOURCE).unwrap();
    assert_eq!(dict.from, "en");
    assert_eq!(dict.to, "fr");
}

#[test]
fn languages_default_to_unknown() {
    let dict = parse_source("<xdxf><ar><k>a</k></ar></xdxf>").unwrap();
    assert_eq!(dict.from, "Unknown");
    assert_eq!(dict.to, "Unknown");
    assert_eq!(dict.words.len(), 1);
    let empty = parse_source("").unwrap();
    assert_eq!(empty.from, "Unknown");
    assert_eq!(empty.entries.len(), 0);
}

#[test]
fn only_one_language_attribute() {
    let dict = parse_source("<xdxf lang_to='de'></xdxf>").unwrap();
    assert_eq!(dict.from, "Unknown");
    assert_eq!(dict.to, "de");
}

#[test]
fn mismatched_closing_tag_is_malformed() {
    assert_eq!(parse_source("<xdxf><ar><k>a</k></b></ar></xdxf>").err(), Some(ImportError::Malformed));
}

#[test]
fn unknown_entity_in_needed_text_is_an_error() {
    assert_eq!(parse_source("<ar><k>a&nope;b</k></ar>").err(), Some(ImportError::BadText));
}

#[test]
fn unknown_entity_in_ignored_text_is_passed_over() {
    let dict = parse_source("<ar><k>word</k><note>a&nope;b</note></ar>").unwrap();
    assert_eq!(dict.words.len(), 1);
    assert_eq!(dict.words[0].identifier, "word");
}

#[test]
fn example_text_needs_the_phrase_flag() {
    let dict = parse_source("<ar><exm><k>w</k><ex type=\"other\">not a phrase</ex></exm></ar>").unwrap();
    assert_eq!(dict.words.len(), 1);
    assert_eq!(dict.phrases.len(), 0);
}

#[test]
fn unclosed_entry_is_left_out() {
    let dict = parse_source("<ar><k>done</k></ar><ar><k>open</k>").unwrap();
    assert_eq!(dict.words.len(), 1);
    assert_eq!(dict.words[0].identifier, "done");
}

#[test]
fn decode_start_event_reads_attributes() {
    let raw = RawEvent::Start {
        name: "xdxf".to_string(),
        content: "xdxf lang_from=\"en\" lang_to=\"fr\" format=\"visual\"".to_string(),
    };
    match decode_event(raw) {
        MarkupEvent::Start { tag, lang_from, lang_to, attributes } => {
            assert_eq!(tag, "xdxf");
            assert_eq!(lang_from, Some("en".to_string()));
            assert_eq!(lang_to, Some("fr".to_string()));
            assert_eq!(attributes, vec!["en".to_string(), "fr".to_string(), "visual".to_string()]);
        }
        other => panic!("unexpected event {:?}", other),
    }
}

#[test]
fn decode_start_event_with_name_longer_than_content() {
    let raw = RawEvent::Start { name: "longer".to_string(), content: "x".to_string() };
    match decode_event(raw) {
        MarkupEvent::Start { tag, lang_from, lang_to, attributes } => {
            assert_eq!(tag, "longer");
            assert_eq!(lang_from, None);
            assert_eq!(lang_to, None);
            assert!(attributes.is_empty());
        }
        other => panic!("unexpected event {:?}", other),
    }
}

#[test]
fn decode_text_event_unescapes() {
    match decode_event(RawEvent::Text("a &lt; b &#65;".to_string())) {
        MarkupEvent::Text { content } => assert_eq!(content, Some("a < b A".to_string())),
        other => panic!("unexpected event {:?}", other),
    }
    match decode_event(RawEvent::Text("a &unknown; b".to_string())) {
        MarkupEvent::Text { content } => assert_eq!(content, None),
        other => panic!("unexpected event {:?}", other),
    }
}

fn start(tag: &str, attributes: &[&str]) -> MarkupEvent {
    MarkupEvent::Start {
        tag: tag.to_string(),
        lang_from: None,
        lang_to: None,
        attributes: attributes.iter().map(|a| a.to_string()).collect(),
    }
}

fn text(content: &str) -> MarkupEvent {
    MarkupEvent::Text { content: Some(content.to_string()) }
}

fn end(tag: &str) -> MarkupEvent {
    MarkupEvent::End { tag: tag.to_string() }
}

#[test]
fn import_events_builds_word_and_phrase() {
    let events = vec![
        start("ar", &[]),
        start("exm", &[]),
        start("k", &[]),
        text("tree"),
        end("k"),
        start("ex", &["exm"]),
        text("a tall tree"),
        end("ex"),
        end("exm"),
        start("dtrn", &[]),
        text("arbre"),
        end("dtrn"),
        end("ar"),
        MarkupEvent::Eof,
        start("ar", &[]),
    ];
    let dict = import_events(&events).unwrap();
    assert_eq!(dict.entries.len(), 2);
    assert_eq!(dict.words[0].identifier, "tree");
    assert_eq!(dict.words[0].translation, vec!["arbre".to_string()]);
    assert_eq!(dict.phrases[0].identifier, "a tall tree");
    assert_eq!(dict.phrases[0].example_for, "tree");
}

#[test]
fn import_events_stops_at_failure() {
    let events = vec![start("ar", &[]), MarkupEvent::Malformed, MarkupEvent::Eof];
    assert_eq!(import_events(&events).err(), Some(ImportError::Malformed));
    let events = vec![start("ar", &[]), start("k", &[]), MarkupEvent::Text { content: None }];
    assert_eq!(import_events(&events).err(), Some(ImportError::BadText));
}

#[test]
fn phrase_after_the_headword_names_its_word() {
    let source = "<xdxf><ar><k>cat</k><dtrn>chat</dtrn><exm><ex type=\"exm\">the cat sat</ex></exm></ar></xdxf>";
    let dict = parse_source(source).unwrap();
    assert_eq!(dict.words.len(), 1);
    assert_eq!(dict.words[0].identifier, "cat");
    assert_eq!(dict.phrases.len(), 1);
    assert_eq!(dict.phrases[0].identifier, "the cat sat");
    assert_eq!(dict.phrases[0].example_for, "cat");
    assert!(matches!(&dict.entries[0], DictionaryEntry::Word(w) if w.identifier == "cat"));
    assert!(matches!(&dict.entries[1], DictionaryEntry::Phrase(p) if p.example_for == "cat"));
}

#[test]
fn phrase_names_its_word_wherever_the_headword_stands() {
    let before = "<ar><k>w</k><exm><ex type=\"exm\">p</ex></exm></ar>";
    let within = "<ar><exm><k>w</k><ex type=\"exm\">p</ex></exm></ar>";
    let after = "<ar><exm><ex type=\"exm\">p</ex></exm><k>w</k></ar>";
    for source in [before, within, after] {
        let dict = parse_source(source).unwrap();
        assert_eq!(dict.phrases.len(), 1);
        assert_eq!(dict.phrases[0].identifier, "p");
        assert_eq!(dict.phrases[0].example_for, "w");
        assert_eq!(dict.entries.len(), 2);
    }
}

#[test]
fn phrase_without_a_headword_names_no_word() {
    let dict = parse_source("<ar><exm><ex type=\"exm\">p</ex></exm><dtrn>t</dtrn></ar>").unwrap();
    assert_eq!(dict.words.len(), 0);
    assert_eq!(dict.phrases.len(), 1);
    assert_eq!(dict.phrases[0].example_for, "");
}

#[test]
fn phrase_that_opens_after_the_headword_is_seeded_at_once() {
    let mut state = ImportState::new();
    state.apply(&start("ar", &[])).unwrap();
    state.apply(&start("k", &[])).unwrap();
    state.apply(&text("tree")).unwrap();
    state.apply(&end("k")).unwrap();
    assert_eq!(state.identifier_of_word(), "tree");
    state.apply(&start("exm", &[])).unwrap();
    assert_eq!(state.phrase.as_ref().unwrap().example_for, "tree");
    assert_eq!(state.phrase.as_ref().unwrap().kind, "exm");
}

#[test]
fn text_target_follows_the_current_tag() {
    let mut state = ImportState::new();
    assert!(matches!(state.target_of_text(), TextTarget::Ignored));
    state.apply(&start("ar", &[])).unwrap();
    state.apply(&start("k", &[])).unwrap();
    assert!(matches!(state.target_of_text(), TextTarget::Headword));
    state.apply(&start("dtrn", &[])).unwrap();
    assert!(matches!(state.target_of_text(), TextTarget::Translation));
    state.apply(&start("ex", &["exm"])).unwrap();
    assert!(matches!(state.target_of_text(), TextTarget::Ignored));
    state.apply(&start("exm", &[])).unwrap();
    state.apply(&start("ex", &["x", "exm"])).unwrap();
    assert!(matches!(state.target_of_text(), TextTarget::PhraseText));
    state.apply(&end("ex")).unwrap();
    assert!(matches!(state.target_of_text(), TextTarget::Ignored));
}

#[test]
fn parser_is_chosen_by_extension() {
    assert_eq!(parser_for("dict.xdxf"), Ok(Format::Xdxf));
    assert_eq!(parser_for("/a.b/dict.typo"), Ok(Format::Typo));
    assert_eq!(parser_for("dict.txt"), Err(ImportError::NoParser));
    assert_eq!(parser_for("dict.xdxf.bak"), Err(ImportError::NoParser));
    assert_eq!(parser_for("dict"), Err(ImportError::NoExtension));
    assert_eq!(extension("a.b.c"), Some(".c".to_string()));
    assert_eq!(extension("abc"), None);
    assert_eq!(extension("abc."), Some(".".to_string()));
}

#[test]
fn parse_file_uses_the_chosen_parser() {
    assert_eq!(parser_for("words.xdxf"), Ok(Format::Xdxf));
    let dict = parse_file("words.xdxf", SOURCE).unwrap();
    assert_eq!(dict.words.len(), 3);
    assert_eq!(dict.from, "en");
    assert_eq!(parse_file("a.b/c.xdxf", "<ar><k>a</b></ar>").err(), Some(ImportError::Malformed));
}

#[test]
fn parsers_behind_the_trait() {
    assert_eq!(XDXFParser.parse(SOURCE).unwrap().phrases.len(), 2);
    assert_eq!(TypoEQParser.parse(SOURCE).err(), Some(ImportError::Unsupported));
}

#[test]
fn new_entries_are_blank() {
    let word = DictionaryWord::new("ar".to_string());
    assert_eq!(word.kind, "ar");
    assert_eq!(word.identifier, "");
    assert!(word.translation.is_empty());
    let phrase = DictionaryPhrase::new("exm".to_string());
    assert_eq!(phrase.kind, "exm");
    assert_eq!(phrase.identifier, "");
    assert_eq!(phrase.translation, "");
    assert_eq!(phrase.example_for, "");
}

#[test]
fn word_is_written_with_an_arrow() {
    let mut word = DictionaryWord::new("ar".to_string());
    word.identifier = "cat".to_string();
    word.translation.push("chat".to_string());
    word.translation.push("minou".to_string());
    assert_eq!(word.to_text(), "cat->chatminou");
    assert_eq!(word.clone().to_text(), "cat->chatminou");
}

#[test]
fn tags_are_counted_by_the_pattern() {
    assert_eq!(count_xml_tags("<a>\n<b>\n</c>\n"), 2);
    assert_eq!(count_xml_tags("<a><b>"), 1);
    assert_eq!(count_xml_tags("no tags"), 0);
    assert_eq!(count_xml_tags(""), 0);
}
