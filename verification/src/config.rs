//! Profiles: per-word completion counts, the flat text file that keeps
//! them, and the options a session starts from.

use vstd::prelude::*;
use crate::decimal::write_count;
use crate::profile_text::{
    default_profile, find_char, header_at, header_line, lemma_line_keeps_wf,
    lines_of, names_of, parsed, profiles_wf, put_profile, read_word_line, rendered,
    rendered_pairs, strip_brackets, word_line, ProfileModel, ScanModel,
};
use crate::text::{chars_of, contains_text, same_text, string_of, texts};
use crate::util::{first_index_of, lemma_first_index_of, lemma_first_index_of_is};

verus! {

/// One word of a profile and the number of times it was completed.
#[derive(Debug)]
pub struct LearntWord {
    pub word: String,
    pub count: i64,
}

/// A named record of completion counts. The words are kept in the order in
/// which they were first learnt.
#[derive(Debug)]
pub struct Profile {
    pub name: String,
    pub words_learnt: Vec<LearntWord>,
}

/// The profiles of an installation and the path of the file that keeps
/// them. The profiles are kept in the order in which they were first
/// stored.
#[derive(Debug)]
pub struct ProfileFile {
    pub path: String,
    pub profiles: Vec<Profile>,
}

/// The options of a run as the configuration file names them.
#[derive(Debug)]
pub struct ConfigFile {
    pub dictionary_path: String,
    pub show_phrases: bool,
    pub profile: String,
}

/// The resolved options of a run.
#[derive(Debug)]
pub struct Config {
    pub dictionary_path: String,
    pub show_phrases: bool,
    pub profile: Profile,
    pub profile_file: ProfileFile,
    pub debugging: bool,
}

/// The words of a list of (word, count) pairs, in order.
pub open spec fn keys_of(pairs: Seq<(Seq<char>, int)>) -> Seq<Seq<char>> {
    Seq::new(pairs.len(), |i: int| pairs[i].0)
}

/// No word occurs twice and no count is negative.
pub open spec fn counts_wf(pairs: Seq<(Seq<char>, int)>) -> bool {
    &&& forall|i: int, j: int| 0 <= i < j < pairs.len() ==> (#[trigger] pairs[i]).0 != (#[trigger] pairs[j]).0
    &&& forall|i: int| 0 <= i < pairs.len() ==> (#[trigger] pairs[i]).1 >= 0
}

/// The count recorded for `word`, if it was ever learnt.
pub open spec fn count_in(pairs: Seq<(Seq<char>, int)>, word: Seq<char>) -> Option<int> {
    match first_index_of(keys_of(pairs), word) {
        Some(i) => Some(pairs[i].1),
        None => None,
    }
}

/// The mapping from word to count that a list of pairs stands for.
pub open spec fn counts_map(pairs: Seq<(Seq<char>, int)>) -> Map<Seq<char>, int> {
    Map::new(
        |w: Seq<char>| count_in(pairs, w) is Some,
        |w: Seq<char>| count_in(pairs, w).unwrap(),
    )
}

/// The pairs with `count` recorded for `word`: in the word's place if it
/// is listed, at the end if it is not.
pub open spec fn put_count(pairs: Seq<(Seq<char>, int)>, word: Seq<char>, count: int) -> Seq<(Seq<char>, int)> {
    match first_index_of(keys_of(pairs), word) {
        Some(i) => pairs.update(i, (word, count)),
        None => pairs.push((word, count)),
    }
}

/// The pairs after one more completion of `word`: its count goes up by
/// one, or it joins the list with count 1.
pub open spec fn completed(pairs: Seq<(Seq<char>, int)>, word: Seq<char>) -> Seq<(Seq<char>, int)> {
    put_count(
        pairs,
        word,
        match count_in(pairs, word) {
            Some(c) => c + 1,
            None => 1,
        },
    )
}

impl Clone for LearntWord {
    fn clone(&self) -> (res: Self)
        ensures
            res.word@ == self.word@,
            res.count == self.count,
    {
        LearntWord { word: self.word.clone(), count: self.count }
    }
}

impl View for Profile {
    type V = ProfileModel;

    open spec fn view(&self) -> ProfileModel {
        ProfileModel { name: self.name@, pairs: self.pairs() }
    }
}

impl Clone for Profile {
    fn clone(&self) -> (res: Self)
        ensures
            res@ == self@,
    {
        let mut words_learnt: Vec<LearntWord> = Vec::new();
        let mut i: usize = 0;
        while i < self.words_learnt.len()
            invariant
                i <= self.words_learnt.len(),
                words_learnt.len() == i,
                forall|j: int|
                    0 <= j < i ==> words_learnt@[j].word@ == self.words_learnt@[j].word@ && words_learnt@[j].count
                        == self.words_learnt@[j].count,
            decreases self.words_learnt.len() - i,
        {
            words_learnt.push(self.words_learnt[i].clone());
            i += 1;
        }
        let res = Profile { name: self.name.clone(), words_learnt };
        assert(res.pairs() =~= self.pairs());
        res
    }
}

impl Profile {
    /// The (word, count) pairs of the profile, in order.
    pub open spec fn pairs(&self) -> Seq<(Seq<char>, int)> {
        Seq::new(
            self.words_learnt@.len(),
            |i: int| (self.words_learnt@[i].word@, self.words_learnt@[i].count as int),
        )
    }

    /// The profile's invariant: each word is listed once, with a count of
    /// zero or more.
    pub open spec fn wf(&self) -> bool {
        counts_wf(self.pairs())
    }

    /// The mapping from word to completion count.
    pub open spec fn learnt(&self) -> Map<Seq<char>, int> {
        counts_map(self.pairs())
    }

    /// A profile of the given name that has learnt nothing.
    pub fn new(name: String) -> (res: Self)
        ensures
            res.name@ == name@,
            res.pairs() == Seq::<(Seq<char>, int)>::empty(),
            res.wf(),
    {
        let res = Profile { name, words_learnt: Vec::new() };
        assert(res.pairs() =~= Seq::empty());
        res
    }

    /// Where `word` stands in the list, if it does.
    pub fn position_of(&self, word: &str) -> (res: Option<usize>)
        ensures
            match res {
                Some(i) => i < self.words_learnt@.len() && first_index_of(keys_of(self.pairs()), word@) == Some(i as int),
                None => first_index_of(keys_of(self.pairs()), word@) is None,
            },
    {
        let mut i: usize = 0;
        while i < self.words_learnt.len()
            invariant
                i <= self.words_learnt.len(),
                forall|j: int| 0 <= j < i ==> keys_of(self.pairs())[j] != word@,
            decreases self.words_learnt.len() - i,
        {
            if same_text(self.words_learnt[i].word.as_str(), word) {
                proof {
                    lemma_first_index_of_is(keys_of(self.pairs()), word@, i as int);
                }
                return Some(i);
            }
            i += 1;
        }
        proof {
            lemma_first_index_of_is(keys_of(self.pairs()), word@, i as int);
        }
        None
    }

    /// The completion count of `word`, if it was ever learnt.
    pub fn count_of(&self, word: &str) -> (res: Option<i64>)
        ensures
            match res {
                Some(c) => count_in(self.pairs(), word@) == Some(c as int),
                None => count_in(self.pairs(), word@) is None,
            },
    {
        match self.position_of(word) {
            Some(i) => Some(self.words_learnt[i].count),
            None => None,
        }
    }

    /// Records `count` for `word`, in the word's place if it is listed and
    /// at the end if it is not.
    pub fn set_count(&mut self, word: &str, count: i64)
        ensures
            final(self).name == old(self).name,
            final(self).pairs() == put_count(old(self).pairs(), word@, count as int),
    {
        let entry = LearntWord { word: word.to_owned(), count };
        match self.position_of(word) {
            Some(i) => {
                self.words_learnt.set(i, entry);
            },
            None => {
                self.words_learnt.push(entry);
            },
        }
        assert(self.pairs() =~= put_count(old(self).pairs(), word@, count as int));
    }

    /// Records one completion of `word`: an existing count goes up by one,
    /// a new word enters with count 1. Nothing else changes.
    pub fn record_completion(&mut self, word: &str)
        requires
            old(self).wf(),
            count_in(old(self).pairs(), word@) matches Some(c) ==> c < i64::MAX,
        ensures
            final(self).wf(),
            final(self).name == old(self).name,
            final(self).pairs() == completed(old(self).pairs(), word@),
            final(self).learnt() == old(self).learnt().insert(
                word@,
                match count_in(old(self).pairs(), word@) {
                    Some(c) => c + 1,
                    None => 1,
                },
            ),
    {
        proof {
            lemma_completed(self.pairs(), word@);
        }
        let count = match self.count_of(word) {
            Some(c) => c + 1,
            None => 1,
        };
        self.set_count(word, count);
    }
}

/// The reading with the sections `done` closed and `current` open.
pub open spec fn reading(done: Seq<ProfileModel>, current: Option<Profile>) -> ScanModel {
    ScanModel {
        done,
        current: match current {
            Some(p) => Some(p@),
            None => None,
        },
    }
}

impl ProfileFile {
    /// The profiles of the file, in order.
    pub open spec fn sections(&self) -> Seq<ProfileModel> {
        Seq::new(self.profiles@.len(), |i: int| self.profiles@[i]@)
    }

    /// The file's invariant: no two profiles share a name, and each lists
    /// every word once with a count of zero or more.
    pub open spec fn wf(&self) -> bool {
        profiles_wf(self.sections())
    }

    /// A profile file at `path` that holds no profile.
    pub fn new(path: String) -> (res: Self)
        ensures
            res.path@ == path@,
            res.sections() == Seq::<ProfileModel>::empty(),
            res.wf(),
    {
        let res = ProfileFile { path, profiles: Vec::new() };
        assert(res.sections() =~= Seq::empty());
        res
    }

    /// Where the profile named `name` stands in the file, if it does.
    pub fn position_of(&self, name: &str) -> (res: Option<usize>)
        ensures
            match res {
                Some(i) => i < self.profiles@.len() && first_index_of(names_of(self.sections()), name@) == Some(
                    i as int,
                ),
                None => first_index_of(names_of(self.sections()), name@) is None,
            },
    {
        let mut i: usize = 0;
        while i < self.profiles.len()
            invariant
                i <= self.profiles.len(),
                forall|j: int| 0 <= j < i ==> names_of(self.sections())[j] != name@,
            decreases self.profiles.len() - i,
        {
            if same_text(self.profiles[i].name.as_str(), name) {
                proof {
                    lemma_first_index_of_is(names_of(self.sections()), name@, i as int);
                }
                return Some(i);
            }
            i += 1;
        }
        proof {
            lemma_first_index_of_is(names_of(self.sections()), name@, i as int);
        }
        None
    }

    /// The profile named `name`, if the file holds one.
    pub fn get(&self, name: &str) -> (res: Option<&Profile>)
        ensures
            match res {
                Some(p) => first_index_of(names_of(self.sections()), name@) matches Some(i) && self.sections()[i]
                    == p@,
                None => first_index_of(names_of(self.sections()), name@) is None,
            },
    {
        match self.position_of(name) {
            Some(i) => Some(&self.profiles[i]),
            None => None,
        }
    }

    /// Stores `profile` under its name: in place of the profile of that
    /// name if there is one, at the end if there is none.
    pub fn put(&mut self, profile: Profile)
        ensures
            final(self).path == old(self).path,
            final(self).sections() == put_profile(old(self).sections(), profile@),
    {
        match self.position_of(profile.name.as_str()) {
            Some(i) => {
                self.profiles.set(i, profile);
            },
            None => {
                self.profiles.push(profile);
            },
        }
        assert(self.sections() =~= put_profile(old(self).sections(), profile@));
    }

    /// The profile file at `path` whose text is `contents`: the profiles
    /// that the text stands for, in the order of their sections.
    pub fn load(path: String, contents: &str) -> (res: Self)
        ensures
            res.path@ == path@,
            res.sections() == parsed(contents@),
            res.wf(),
    {
        let chars = chars_of(contents);
        let mut file = ProfileFile::new(path);
        let mut current: Option<Profile> = None;
        let mut pos: usize = 0;
        proof {
            assert(chars@.skip(0) =~= chars@);
        }
        while pos < chars.len()
            invariant
                pos <= chars.len(),
                chars@ == contents@,
                file.path@ == path@,
                current matches Some(p) ==> p.wf(),
                current is None ==> file.sections().len() == 0,
                file.wf(),
                ScanModel::initial().lines(lines_of(chars@)) == (ScanModel {
                    done: file.sections(),
                    current: match current {
                        Some(p) => Some(p@),
                        None => None,
                    },
                }).lines(lines_of(chars@.skip(pos as int))),
            decreases chars.len() - pos,
        {
            let ghost rest = chars@.skip(pos as int);
            let ghost before = reading(file.sections(), current);
            let end = find_char(&chars, pos, chars.len(), '\n');
            proof {
                assert(chars@.subrange(pos as int, chars.len() as int) =~= rest);
            }
            let line_end = if end < chars.len() && end > pos && chars[end - 1] == '\r' {
                end - 1
            } else {
                end
            };
            let next = if end < chars.len() {
                end + 1
            } else {
                end
            };
            let ghost line = chars@.subrange(pos as int, line_end as int);
            proof {
                let k = end - pos;
                if k < rest.len() {
                    assert(rest.skip(k + 1) =~= chars@.skip(next as int));
                    if k > 0 && rest[k - 1] == '\r' {
                        assert(rest.take(k - 1) =~= line);
                    } else {
                        assert(rest.take(k) =~= line);
                    }
                } else {
                    assert(rest =~= line);
                    assert(lines_of(chars@.skip(next as int)) =~= Seq::<Seq<char>>::empty());
                }
                assert(lines_of(rest) =~= seq![line] + lines_of(chars@.skip(next as int)));
                assert(lines_of(rest)[0] == line);
                assert(lines_of(rest).drop_first() =~= lines_of(chars@.skip(next as int)));
            }
            if header_at(&chars, pos, line_end) {
                proof {
                    lemma_line_keeps_wf(before, Seq::empty());
                }
                if let Some(profile) = current {
                    file.put(profile);
                }
                let name = strip_brackets(&chars, pos, line_end);
                current = Some(Profile::new(string_of(name.as_slice())));
            } else if line_end > pos {
                let (word, count) = read_word_line(&chars, pos, line_end);
                proof {
                    lemma_line_keeps_wf(before, line);
                }
                if let Some(mut profile) = current {
                    profile.set_count(string_of(word.as_slice()).as_str(), count);
                    current = Some(profile);
                }
            }
            pos = next;
        }
        proof {
            lemma_line_keeps_wf(reading(file.sections(), current), Seq::empty());
        }
        match current {
            Some(profile) => {
                file.put(profile);
            },
            None => {
                let ghost before = file.sections();
                file.profiles.push(Profile::new("default".to_owned()));
                assert(file.sections() =~= before.push(default_profile()));
            },
        }
        file
    }

    /// Writes the text of the file after what `file` holds: for each
    /// profile its header line, then one line for each word with its
    /// count.
    pub fn save_to_file(&self, file: &mut Vec<char>)
        ensures
            final(file)@ == old(file)@ + rendered(self.sections()),
    {
        let mut i: usize = 0;
        proof {
            assert(self.sections().take(0) =~= Seq::<ProfileModel>::empty());
            assert(file@ =~= old(file)@ + rendered(self.sections().take(0)));
        }
        while i < self.profiles.len()
            invariant
                i <= self.profiles.len(),
                file@ == old(file)@ + rendered(self.sections().take(i as int)),
            decreases self.profiles.len() - i,
        {
            let profile = &self.profiles[i];
            let ghost start = file@;
            let name = chars_of(profile.name.as_str());
            file.push('[');
            let mut k: usize = 0;
            while k < name.len()
                invariant
                    k <= name.len(),
                    file@ == start + seq!['['] + name@.take(k as int),
                decreases name.len() - k,
            {
                file.push(name[k]);
                assert(file@ =~= start + seq!['['] + name@.take(k + 1));
                k += 1;
            }
            file.push(']');
            file.push('\n');
            proof {
                assert(name@.take(name.len() as int) =~= name@);
                assert(file@ =~= start + (header_line(profile.name@) + seq!['\n']));
                assert(profile.pairs().take(0) =~= Seq::<(Seq<char>, int)>::empty());
                assert(file@ =~= start + (header_line(profile.name@) + seq!['\n'] + rendered_pairs(
                    profile.pairs().take(0),
                )));
            }
            let mut j: usize = 0;
            while j < profile.words_learnt.len()
                invariant
                    j <= profile.words_learnt.len(),
                    file@ == start + (header_line(profile.name@) + seq!['\n'] + rendered_pairs(
                        profile.pairs().take(j as int),
                    )),
                decreases profile.words_learnt.len() - j,
            {
                let ghost line_start = file@;
                let word = chars_of(profile.words_learnt[j].word.as_str());
                let count = write_count(profile.words_learnt[j].count);
                let mut k: usize = 0;
                while k < word.len()
                    invariant
                        k <= word.len(),
                        file@ == line_start + word@.take(k as int),
                    decreases word.len() - k,
                {
                    file.push(word[k]);
                    assert(file@ =~= line_start + word@.take(k + 1));
                    k += 1;
                }
                file.push('#');
                let ghost count_start = file@;
                let mut k: usize = 0;
                while k < count.len()
                    invariant
                        k <= count.len(),
                        file@ == count_start + count@.take(k as int),
                    decreases count.len() - k,
                {
                    file.push(count[k]);
                    assert(file@ =~= count_start + count@.take(k + 1));
                    k += 1;
                }
                file.push('\n');
                proof {
                    let pairs = profile.pairs();
                    assert(word@.take(word.len() as int) =~= word@);
                    assert(count@.take(count.len() as int) =~= count@);
                    assert(pairs.take(j + 1).drop_last() =~= pairs.take(j as int));
                    assert(pairs.take(j + 1).last() == pairs[j as int]);
                    assert(file@ =~= line_start + (word_line(pairs[j as int]) + seq!['\n']));
                    assert(file@ =~= start + (header_line(profile.name@) + seq!['\n'] + rendered_pairs(
                        pairs.take(j + 1),
                    )));
                }
                j += 1;
            }
            proof {
                let sections = self.sections();
                assert(profile.pairs().take(profile.words_learnt.len() as int) =~= profile.pairs());
                assert(sections.take(i + 1).drop_last() =~= sections.take(i as int));
                assert(sections.take(i + 1).last() == profile@);
                assert(file@ =~= old(file)@ + rendered(sections.take(i + 1)));
            }
            i += 1;
        }
        proof {
            assert(self.sections().take(self.profiles.len() as int) =~= self.sections());
        }
    }

    /// The text to keep at the file's path: every profile with its words
    /// and counts.
    pub fn save(&self) -> (res: String)
        ensures
            res@ == rendered(self.sections()),
    {
        let mut text: Vec<char> = Vec::new();
        self.save_to_file(&mut text);
        assert(text@ =~= rendered(self.sections()));
        string_of(text.as_slice())
    }
}

/// What the resolved options hold, as plain values.
pub struct ConfigModel {
    pub dictionary_path: Seq<char>,
    pub show_phrases: bool,
    pub profile: ProfileModel,
    pub profile_path: Seq<char>,
    pub profiles: Seq<ProfileModel>,
    pub debugging: bool,
}

impl View for Config {
    type V = ConfigModel;

    open spec fn view(&self) -> ConfigModel {
        ConfigModel {
            dictionary_path: self.dictionary_path@,
            show_phrases: self.show_phrases,
            profile: self.profile@,
            profile_path: self.profile_file.path@,
            profiles: self.profile_file.sections(),
            debugging: self.debugging,
        }
    }
}

/// The argument that follows the first `flag`, or the first argument of
/// all where `flag` does not occur; `fallback` where there is no such
/// argument.
pub open spec fn value_after(args: Seq<Seq<char>>, flag: Seq<char>, fallback: Seq<char>) -> Seq<char> {
    let at = match first_index_of(args, flag) {
        Some(i) => i + 1,
        None => 0,
    };
    if at < args.len() {
        args[at]
    } else {
        fallback
    }
}

/// The path of the profile file below the home directory `home`.
pub open spec fn profile_path_in(home: Seq<char>) -> Seq<char> {
    home + "/"@ + ".config/typo-eq/profiles.txt"@
}

/// The dictionary path that the arguments ask for: the argument after
/// `--dict` where `--dict` or `-d` is given, else `dict.xdxf` set directly
/// after the current directory, and the error of the current directory
/// where that is needed and could not be had.
pub open spec fn dictionary_path_for(args: Seq<Seq<char>>, current_dir: Result<Seq<char>, Seq<char>>) -> Result<
    Seq<char>,
    Seq<char>,
> {
    if args.contains("--dict"@) || args.contains("-d"@) {
        Ok(value_after(args, "--dict"@, "./src"@))
    } else {
        match current_dir {
            Ok(dir) => Ok(dir + "dict.xdxf"@),
            Err(e) => Err(e),
        }
    }
}

/// The name of the profile that the arguments ask for: the argument
/// after `--profile` where it is given, and `default` where it is not or
/// where nothing follows it.
pub open spec fn requested_profile(args: Seq<Seq<char>>) -> Seq<char> {
    if args.contains("--profile"@) {
        value_after(args, "--profile"@, "default"@)
    } else {
        "default"@
    }
}

/// The profile that the session practises with: the profile of the
/// requested name as the profile file holds it, or an empty one of that
/// name where the file could not be read or holds none.
pub open spec fn profile_for(args: Seq<Seq<char>>, profile_text: Option<Seq<char>>) -> ProfileModel {
    let name = requested_profile(args);
    match profile_text {
        Some(text) => match first_index_of(names_of(parsed(text)), name) {
            Some(i) => parsed(text)[i],
            None => ProfileModel { name, pairs: Seq::empty() },
        },
        None => ProfileModel { name, pairs: Seq::empty() },
    }
}

/// The profiles that the session starts with: those of the profile file
/// where it could be read, else none.
pub open spec fn profiles_for(profile_text: Option<Seq<char>>) -> Seq<ProfileModel> {
    match profile_text {
        Some(text) => parsed(text),
        None => Seq::empty(),
    }
}

/// The options that the arguments resolve to.
pub open spec fn config_for(
    args: Seq<Seq<char>>,
    current_dir: Result<Seq<char>, Seq<char>>,
    home: Seq<char>,
    profile_text: Option<Seq<char>>,
) -> Result<ConfigModel, Seq<char>> {
    match dictionary_path_for(args, current_dir) {
        Ok(dictionary_path) => Ok(
            ConfigModel {
                dictionary_path,
                show_phrases: args.contains("--phrases"@) || args.contains("-p"@),
                profile: profile_for(args, profile_text),
                profile_path: profile_path_in(home),
                profiles: profiles_for(profile_text),
                debugging: args.contains("--debug"@),
            },
        ),
        Err(e) => Err(e),
    }
}

/// The argument that follows the first `flag`, or the first argument of
/// all where `flag` does not occur; `fallback` where there is no such
/// argument.
pub fn argument_after(args: &Vec<String>, flag: &str, fallback: &str) -> (res: String)
    ensures
        res@ == value_after(texts(args@), flag@, fallback@),
{
    let mut i: usize = 0;
    while i < args.len()
        invariant
            i <= args.len(),
            forall|j: int| 0 <= j < i ==> texts(args@)[j] != flag@,
        decreases args.len() - i,
    {
        if same_text(args[i].as_str(), flag) {
            proof {
                lemma_first_index_of_is(texts(args@), flag@, i as int);
            }
            if i + 1 < args.len() {
                return args[i + 1].clone();
            } else {
                return fallback.to_owned();
            }
        }
        i += 1;
    }
    proof {
        lemma_first_index_of_is(texts(args@), flag@, i as int);
    }
    if args.len() > 0 {
        args[0].clone()
    } else {
        fallback.to_owned()
    }
}

/// The path of the profile file below the home directory `home`.
pub fn profile_path(home: &str) -> (res: String)
    ensures
        res@ == profile_path_in(home@),
{
    let mut path = home.to_owned();
    path.append("/");
    path.append(".config/typo-eq/profiles.txt");
    path
}

/// Resolves the options of a run from its arguments, given what the
/// environment holds: the current directory or the error of asking for
/// it, the home directory, and the text of the profile file if it could
/// be read. The profile file is taken in whole, and the profile of the
/// requested name is selected from it.
pub fn extract_config(
    args: &Vec<String>,
    current_dir: Result<String, String>,
    home: &str,
    profile_text: Option<&str>,
) -> (res: Result<Config, String>)
    ensures
        match res {
            Ok(config) => config_for(texts(args@), result_text(current_dir), home@, opt_str(profile_text)) == Ok::<
                ConfigModel,
                Seq<char>,
            >(config@) && config.profile.wf() && config.profile_file.wf(),
            Err(e) => config_for(texts(args@), result_text(current_dir), home@, opt_str(profile_text)) == Err::<
                ConfigModel,
                Seq<char>,
            >(e@),
        },
{
    let has_dict = contains_text(args, "--dict") || contains_text(args, "-d");
    let dictionary_path = if has_dict {
        argument_after(args, "--dict", "./src")
    } else {
        match current_dir {
            Ok(dir) => {
                let mut path = dir;
                path.append("dict.xdxf");
                path
            },
            Err(e) => {
                return Err(e);
            },
        }
    };
    let show_phrases = contains_text(args, "--phrases") || contains_text(args, "-p");
    let debugging = contains_text(args, "--debug");
    let name = if contains_text(args, "--profile") {
        argument_after(args, "--profile", "default")
    } else {
        "default".to_owned()
    };
    let path = profile_path(home);
    let mut profile = Profile::new(name.clone());
    let mut profile_file = ProfileFile::new(path.clone());
    if let Some(text) = profile_text {
        profile_file = ProfileFile::load(path, text);
        if let Some(saved) = profile_file.get(name.as_str()) {
            proof {
                lemma_first_index_of(names_of(profile_file.sections()), name@);
            }
            profile = saved.clone();
        }
    }
    Ok(Config { dictionary_path, debugging, show_phrases, profile, profile_file })
}

/// The character sequence of a string or of the error in its place.
pub open spec fn result_text(value: Result<String, String>) -> Result<Seq<char>, Seq<char>> {
    match value {
        Ok(s) => Ok(s@),
        Err(e) => Err(e@),
    }
}

/// The character sequence of an optional text.
pub open spec fn opt_str(value: Option<&str>) -> Option<Seq<char>> {
    match value {
        Some(s) => Some(s@),
        None => None,
    }
}

/// Recording a count that is not negative keeps the list well-formed and
/// changes the mapping at that word only.
pub proof fn lemma_put_count(pairs: Seq<(Seq<char>, int)>, word: Seq<char>, count: int)
    requires
        counts_wf(pairs),
        count >= 0,
    ensures
        counts_wf(put_count(pairs, word, count)),
        counts_map(put_count(pairs, word, count)) == counts_map(pairs).insert(word, count),
        count_in(put_count(pairs, word, count), word) == Some(count),
{
    let after = put_count(pairs, word, count);
    lemma_first_index_of(keys_of(pairs), word);
    let at: int = match first_index_of(keys_of(pairs), word) {
        Some(i) => i,
        None => pairs.len() as int,
    };
    assert(after.len() > at && after[at].0 == word);
    assert forall|i: int, j: int| 0 <= i < j < after.len() implies (#[trigger] after[i]).0 != (#[trigger] after[j]).0 by {
        if i < pairs.len() {
            assert(keys_of(pairs)[i] == pairs[i].0);
        }
        if j < pairs.len() {
            assert(keys_of(pairs)[j] == pairs[j].0);
            assert(pairs[i].0 != pairs[j].0);
        }
    }
    assert forall|w: Seq<char>| #[trigger] count_in(after, w) == (if w == word {
        Some(count)
    } else {
        count_in(pairs, w)
    }) by {
        lemma_first_index_of(keys_of(pairs), w);
        lemma_first_index_of(keys_of(after), w);
        if w == word {
            assert(keys_of(after)[at] == word);
            assert forall|j: int| 0 <= j < at implies keys_of(after)[j] != word by {
                assert(keys_of(pairs)[j] != word);
            }
            lemma_first_index_of_is(keys_of(after), word, at);
        } else {
            match first_index_of(keys_of(pairs), w) {
                Some(k) => {
                    assert(keys_of(after)[k] == w);
                    assert forall|j: int| 0 <= j < k implies keys_of(after)[j] != w by {
                        assert(keys_of(pairs)[j] != w);
                    }
                    lemma_first_index_of_is(keys_of(after), w, k);
                },
                None => {
                    assert forall|j: int| 0 <= j < after.len() implies keys_of(after)[j] != w by {
                        if j < pairs.len() {
                            assert(keys_of(pairs)[j] != w);
                        }
                    }
                    lemma_first_index_of_is(keys_of(after), w, after.len() as int);
                },
            }
        }
    }
    assert(counts_map(after) =~= counts_map(pairs).insert(word, count));
}

/// One more completion keeps the list well-formed and changes the mapping
/// at the completed word only.
pub proof fn lemma_completed(pairs: Seq<(Seq<char>, int)>, word: Seq<char>)
    requires
        counts_wf(pairs),
    ensures
        counts_wf(completed(pairs, word)),
        counts_map(completed(pairs, word)) == counts_map(pairs).insert(
            word,
            match count_in(pairs, word) {
                Some(c) => c + 1,
                None => 1,
            },
        ),
        count_in(completed(pairs, word), word) == Some(
            match count_in(pairs, word) {
                Some(c) => c + 1,
                None => 1,
            },
        ),
{
    lemma_first_index_of(keys_of(pairs), word);
    match first_index_of(keys_of(pairs), word) {
        Some(i) => {
            assert(pairs[i].1 >= 0);
        },
        None => {},
    }
    lemma_put_count(
        pairs,
        word,
        match count_in(pairs, word) {
            Some(c) => c + 1,
            None => 1,
        },
    );
}

} // verus!
