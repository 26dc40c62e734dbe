use typo_eq::config::{argument_after, extract_config, profile_path, LearntWord, Profile, ProfileFile};
use typo_eq::decimal::{decimal_digits, read_count, write_count};
use typo_eq::util::{get_index, get_index_of_line};

fn chars(s: &str) -> Vec<char> {
    s.chars().collect()
}

fn count(s: &str) -> i64 {
    let c = chars(s);
    read_count(&c, 0, c.len())
}

fn pairs(profile: &Profile) -> Vec<(String, i64)> {
    profile.words_learnt.iter().map(|w| (w.word.clone(), w.count)).collect()
}

#[test]
fn counts_are_read_as_decimal_numerals() {
    assert_eq!(count("0"), 0);
    assert_eq!(count("13"), 13);
    assert_eq!(count("+7"), 7);
    assert_eq!(count("007"), 7);
    assert_eq!(count("9223372036854775807"), i64::MAX);
}

#[test]
fn unreadable_counts_are_zero() {
    assert_eq!(count(""), 0);
    assert_eq!(count("+"), 0);
    assert_eq!(count("-"), 0);
    assert_eq!(count("-3"), 0);
    assert_eq!(count("12a"), 0);
    assert_eq!(count(" 12"), 0);
    assert_eq!(count("++1"), 0);
    assert_eq!(count("9223372036854775808"), 0);
    assert_eq!(count("99999999999999999999999"), 0);
}

#[test]
fn counts_are_written_as_decimal_numerals() {
    assert_eq!(write_count(0), chars("0"));
    assert_eq!(write_count(120), chars("120"));
    assert_eq!(write_count(-45), chars("-45"));
    assert_eq!(write_count(i64::MAX), chars("9223372036854775807"));
    assert_eq!(write_count(i64::MIN), chars("-9223372036854775808"));
    assert_eq!(decimal_digits(u64::MAX), chars("18446744073709551615"));
}

#[test]
fn load_reads_sections_words_and_counts() {
    let file = ProfileFile::load("p.txt".to_string(), "[default]\ncat#3\ndog#12\n[other]\nfish#0\n");
    assert_eq!(file.path, "p.txt");
    assert_eq!(file.profiles.len(), 2);
    assert_eq!(file.profiles[0].name, "default");
    assert_eq!(pairs(&file.profiles[0]), vec![("cat".to_string(), 3), ("dog".to_string(), 12)]);
    assert_eq!(file.profiles[1].name, "other");
    assert_eq!(pairs(&file.profiles[1]), vec![("fish".to_string(), 0)]);
}

#[test]
fn load_without_section_gives_the_default_profile() {
    for text in ["", "cat#3\ndog#4\n", "\n\n"] {
        let file = ProfileFile::load("p".to_string(), text);
        assert_eq!(file.profiles.len(), 1);
        assert_eq!(file.profiles[0].name, "default");
        assert!(file.profiles[0].words_learnt.is_empty());
    }
}

#[test]
fn line_without_separator_counts_zero_and_keeps_later_lines() {
    let file = ProfileFile::load("p".to_string(), "[a]\nfirst#2\nnoseparator\nlast#5\n");
    assert_eq!(
        pairs(&file.profiles[0]),
        vec![("first".to_string(), 2), ("noseparator".to_string(), 0), ("last".to_string(), 5)]
    );
}

#[test]
fn unparsable_count_is_zero_and_keeps_later_lines() {
    let file = ProfileFile::load("p".to_string(), "[a]\nx#abc\ny#\nz#4#9\nw#7");
    assert_eq!(
        pairs(&file.profiles[0]),
        vec![("x".to_string(), 0), ("y".to_string(), 0), ("z".to_string(), 4), ("w".to_string(), 7)]
    );
}

#[test]
fn blank_lines_and_line_endings_carry_nothing() {
    let file = ProfileFile::load("p".to_string(), "[a]\r\n\r\ncat#3\r\n\n[b]\r\ndog#1");
    assert_eq!(file.profiles.len(), 2);
    assert_eq!(file.profiles[0].name, "a");
    assert_eq!(pairs(&file.profiles[0]), vec![("cat".to_string(), 3)]);
    assert_eq!(file.profiles[1].name, "b");
    assert_eq!(pairs(&file.profiles[1]), vec![("dog".to_string(), 1)]);
}

#[test]
fn repeated_words_and_sections_replace_earlier_ones() {
    let file = ProfileFile::load("p".to_string(), "[a]\ncat#1\ndog#2\ncat#9\n[b]\nx#1\n[a]\nnew#4\n");
    assert_eq!(file.profiles.len(), 2);
    assert_eq!(file.profiles[0].name, "a");
    assert_eq!(pairs(&file.profiles[0]), vec![("new".to_string(), 4)]);
    assert_eq!(file.profiles[1].name, "b");
    let again = ProfileFile::load("p".to_string(), "[a]\ncat#1\ndog#2\ncat#9\n");
    assert_eq!(pairs(&again.profiles[0]), vec![("cat".to_string(), 9), ("dog".to_string(), 2)]);
}

#[test]
fn header_name_loses_every_bracket() {
    let file = ProfileFile::load("p".to_string(), "[[a]b]\n[\n]\n[]\n");
    assert_eq!(file.profiles.len(), 2);
    assert_eq!(file.profiles[0].name, "ab");
    assert_eq!(pairs(&file.profiles[0]), vec![("[".to_string(), 0), ("]".to_string(), 0)]);
    assert_eq!(file.profiles[1].name, "");
}

#[test]
fn save_writes_headers_and_word_lines() {
    let mut file = ProfileFile::new("p".to_string());
    let mut a = Profile::new("a".to_string());
    a.set_count("cat", 0);
    a.set_count("dog", 1234);
    file.put(a);
    file.put(Profile::new("empty".to_string()));
    assert_eq!(file.save(), "[a]\ncat#0\ndog#1234\n[empty]\n");
    let mut buffer = chars("kept");
    file.save_to_file(&mut buffer);
    assert_eq!(buffer, chars("kept[a]\ncat#0\ndog#1234\n[empty]\n"));
    assert_eq!(ProfileFile::new("q".to_string()).save(), "");
}

#[test]
fn save_then_load_gives_the_profiles_back() {
    let mut file = ProfileFile::new("p".to_string());
    let mut a = Profile::new("default".to_string());
    a.set_count("zero", 0);
    a.set_count("many", 1234567);
    a.set_count("a b/c|d", 5);
    a.set_count("", 2);
    file.put(a);
    let mut b = Profile::new("second profile".to_string());
    b.set_count("zero", 9223372036854775807);
    file.put(b);
    file.put(Profile::new("third".to_string()));
    let loaded = ProfileFile::load("p".to_string(), &file.save());
    assert_eq!(loaded.profiles.len(), 3);
    for i in 0..3 {
        assert_eq!(loaded.profiles[i].name, file.profiles[i].name);
        assert_eq!(pairs(&loaded.profiles[i]), pairs(&file.profiles[i]));
    }
    assert_eq!(loaded.save(), file.save());
}

#[test]
fn put_and_get_go_by_name() {
    let mut file = ProfileFile::new("p".to_string());
    assert!(file.get("a").is_none());
    file.put(Profile::new("a".to_string()));
    file.put(Profile::new("b".to_string()));
    let mut again = Profile::new("a".to_string());
    again.set_count("w", 3);
    file.put(again);
    assert_eq!(file.profiles.len(), 2);
    assert_eq!(file.position_of("a"), Some(0));
    assert_eq!(file.position_of("b"), Some(1));
    assert_eq!(file.position_of("c"), None);
    assert_eq!(file.get("a").unwrap().count_of("w"), Some(3));
}

#[test]
fn record_completion_inserts_then_increments() {
    let mut profile = Profile::new("p".to_string());
    assert_eq!(profile.count_of("w"), None);
    profile.record_completion("w");
    assert_eq!(profile.count_of("w"), Some(1));
    profile.record_completion("other");
    profile.record_completion("w");
    assert_eq!(profile.count_of("w"), Some(2));
    assert_eq!(profile.count_of("other"), Some(1));
    assert_eq!(profile.position_of("w"), Some(0));
    assert_eq!(profile.position_of("other"), Some(1));
    assert_eq!(profile.words_learnt.len(), 2);
    let copy = profile.clone();
    assert_eq!(pairs(&copy), pairs(&profile));
    assert_eq!(copy.name, "p");
    let entry = LearntWord { word: "x".to_string(), count: 4 };
    assert_eq!(entry.clone().count, 4);
}

fn args(list: &[&str]) -> Vec<String> {
    list.iter().map(|a| a.to_string()).collect()
}

#[test]
fn get_index_finds_the_first_or_minus_one() {
    let v = args(&["a", "b", "c", "b"]);
    assert_eq!(get_index(&v, "a"), 0);
    assert_eq!(get_index(&v, "b"), 1);
    assert_eq!(get_index(&v, "z"), -1);
    assert_eq!(get_index(&Vec::new(), "a"), -1);
}

#[test]
fn get_index_of_line_gives_the_end_of_the_line() {
    assert_eq!(get_index_of_line("ab\ncd\nefg", 1), 2);
    assert_eq!(get_index_of_line("ab\ncd\nefg", 2), 5);
    assert_eq!(get_index_of_line("ab\ncd\nefg", 3), 9);
    assert_eq!(get_index_of_line("", 1), 0);
    assert_eq!(get_index_of_line("\n\n", 2), 1);
    assert_eq!(get_index_of_line("\u{e9}\nx", 2), 4);
}

#[test]
fn argument_after_follows_the_flag() {
    let v = args(&["prog", "--dict", "my.xdxf", "--profile"]);
    assert_eq!(argument_after(&v, "--dict", "fallback"), "my.xdxf");
    assert_eq!(argument_after(&v, "--profile", "fallback"), "fallback");
    assert_eq!(argument_after(&v, "--absent", "fallback"), "prog");
    assert_eq!(argument_after(&Vec::new(), "--absent", "fallback"), "fallback");
}

#[test]
fn config_from_explicit_arguments() {
    let v = args(&["prog", "--dict", "d.xdxf", "-p", "--debug", "--profile", "me"]);
    let config =
        extract_config(&v, Err("no cwd".to_string()), "/home/u", Some("[me]\ncat#4\n[you]\ndog#1\n")).unwrap();
    assert_eq!(config.dictionary_path, "d.xdxf");
    assert!(config.show_phrases);
    assert!(config.debugging);
    assert_eq!(config.profile.name, "me");
    assert_eq!(config.profile.count_of("cat"), Some(4));
    assert_eq!(config.profile_file.path, "/home/u/.config/typo-eq/profiles.txt");
    assert_eq!(config.profile_file.profiles.len(), 2);
    assert_eq!(profile_path("/home/u"), "/home/u/.config/typo-eq/profiles.txt");
}

#[test]
fn config_defaults() {
    let v = args(&["prog"]);
    let config = extract_config(&v, Ok("/work/".to_string()), "/h", None).unwrap();
    assert_eq!(config.dictionary_path, "/work/dict.xdxf");
    assert!(!config.show_phrases);
    assert!(!config.debugging);
    assert_eq!(config.profile.name, "default");
    assert!(config.profile.words_learnt.is_empty());
    assert!(config.profile_file.profiles.is_empty());
    assert_eq!(config.profile_file.path, "/h/.config/typo-eq/profiles.txt");
    assert_eq!(extract_config(&v, Err("gone".to_string()), "/h", None).err(), Some("gone".to_string()));
}

#[test]
fn stored_default_profile_is_loaded_without_a_request() {
    let v = args(&["prog"]);
    let text = "[other]\ndog#2\n[default]\ncat#4\nfish#0\n";
    let config = extract_config(&v, Ok("/work/".to_string()), "/h", Some(text)).unwrap();
    assert_eq!(config.profile.name, "default");
    assert_eq!(pairs(&config.profile), vec![("cat".to_string(), 4), ("fish".to_string(), 0)]);
    assert_eq!(config.profile_file.profiles.len(), 2);
    assert_eq!(config.profile_file.profiles[0].name, "other");
    assert_eq!(config.profile_file.save(), text);
    let config = extract_config(&v, Ok("/work/".to_string()), "/h", Some("[other]\ndog#2\n")).unwrap();
    assert_eq!(config.profile.name, "default");
    assert!(config.profile.words_learnt.is_empty());
    assert_eq!(config.profile_file.profiles.len(), 1);
}

#[test]
fn config_with_unknown_or_unreadable_profile() {
    let v = args(&["prog", "-d", "--profile", "new", "--phrases"]);
    let config = extract_config(&v, Ok("/w".to_string()), "/h", Some("[old]\ncat#4\n")).unwrap();
    // `-d` alone makes the first argument the dictionary path
    assert_eq!(config.dictionary_path, "prog");
    assert!(config.show_phrases);
    assert_eq!(config.profile.name, "new");
    assert!(config.profile.words_learnt.is_empty());
    assert_eq!(config.profile_file.profiles.len(), 1);
    let config = extract_config(&v, Ok("/w".to_string()), "/h", None).unwrap();
    assert_eq!(config.profile.name, "new");
    assert!(config.profile_file.profiles.is_empty());
    let v = args(&["prog", "--dict"]);
    assert_eq!(extract_config(&v, Ok("/w".to_string()), "/h", None).unwrap().dictionary_path, "./src");
}
