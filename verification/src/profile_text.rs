//! The flat text layout of the profile file: sections headed by a name in
//! square brackets, each followed by one `word#count` line per learnt
//! word.

use vstd::prelude::*;
use crate::config::{count_in, counts_wf, keys_of, lemma_put_count, put_count};
use crate::decimal::{
    all_digits, count_value, is_digit, lemma_count_round_trip, lemma_decimal, read_count,
    written,
};
use crate::text::subrange;
use crate::util::{first_index_of, lemma_first_index_of};

verus! {

/// What a profile holds, as plain values.
pub struct ProfileModel {
    pub name: Seq<char>,
    pub pairs: Seq<(Seq<char>, int)>,
}

/// The reading of a profile file in mid-flight: the sections that are
/// closed, and the one that lines are still added to.
pub struct ScanModel {
    pub done: Seq<ProfileModel>,
    pub current: Option<ProfileModel>,
}

/// The position of the first `c` in `s`, or the length of `s` if it holds
/// none.
pub open spec fn index_or_len(s: Seq<char>, c: char) -> int
    decreases s.len(),
{
    if s.len() == 0 {
        0
    } else if s[0] == c {
        0
    } else {
        1 + index_or_len(s.drop_first(), c)
    }
}

/// `index_or_len` lies within the sequence, points at a `c` unless it is
/// the length, and has no `c` before it.
pub proof fn lemma_index_or_len(s: Seq<char>, c: char)
    ensures
        0 <= index_or_len(s, c) <= s.len(),
        index_or_len(s, c) < s.len() ==> s[index_or_len(s, c)] == c,
        forall|j: int| 0 <= j < index_or_len(s, c) ==> s[j] != c,
    decreases s.len(),
{
    if s.len() > 0 && s[0] != c {
        let rest = s.drop_first();
        lemma_index_or_len(rest, c);
        assert forall|j: int| 0 <= j < index_or_len(s, c) implies s[j] != c by {
            if j > 0 {
                assert(rest[j - 1] == s[j]);
            }
        }
    }
}

/// A position with no `c` before it that holds `c` or is the length is
/// what `index_or_len` gives.
pub proof fn lemma_index_or_len_is(s: Seq<char>, c: char, at: int)
    requires
        0 <= at <= s.len(),
        forall|j: int| 0 <= j < at ==> s[j] != c,
        at < s.len() ==> s[at] == c,
    ensures
        index_or_len(s, c) == at,
{
    lemma_index_or_len(s, c);
}

/// The lines of a text. A line ends at a line feed; a carriage return
/// just before the line feed belongs to the line ending. The last line
/// needs no line feed, and an empty text has no line.
pub open spec fn lines_of(s: Seq<char>) -> Seq<Seq<char>>
    decreases s.len(),
{
    if s.len() == 0 {
        Seq::empty()
    } else {
        let k = index_or_len(s, '\n');
        if 0 <= k < s.len() {
            let line = if k > 0 && s[k - 1] == '\r' {
                s.take(k - 1)
            } else {
                s.take(k)
            };
            seq![line] + lines_of(s.skip(k + 1))
        } else {
            seq![s]
        }
    }
}

/// Whether a line heads a section: it begins with an opening and ends
/// with a closing square bracket.
pub open spec fn is_header(line: Seq<char>) -> bool {
    line.len() > 0 && line[0] == '[' && line.last() == ']'
}

/// The text without any square bracket.
pub open spec fn without_brackets(s: Seq<char>) -> Seq<char>
    decreases s.len(),
{
    if s.len() == 0 {
        s
    } else if s.last() == '[' || s.last() == ']' {
        without_brackets(s.drop_last())
    } else {
        without_brackets(s.drop_last()).push(s.last())
    }
}

/// The word of a line: what stands before its first `#`.
pub open spec fn word_of(line: Seq<char>) -> Seq<char> {
    line.take(index_or_len(line, '#'))
}

/// The count of a line: what the text between its first and its second
/// `#` stands for, or zero for a line without `#`.
pub open spec fn count_of_line(line: Seq<char>) -> int {
    let first = index_or_len(line, '#');
    if 0 <= first < line.len() {
        let rest = line.skip(first + 1);
        count_value(rest.take(index_or_len(rest, '#')))
    } else {
        0
    }
}

/// The names of a list of profiles, in order.
pub open spec fn names_of(profiles: Seq<ProfileModel>) -> Seq<Seq<char>> {
    Seq::new(profiles.len(), |i: int| profiles[i].name)
}

/// The profiles with `profile` stored under its name: in place of the
/// profile of that name if there is one, at the end if there is none.
pub open spec fn put_profile(profiles: Seq<ProfileModel>, profile: ProfileModel) -> Seq<ProfileModel> {
    match first_index_of(names_of(profiles), profile.name) {
        Some(i) => profiles.update(i, profile),
        None => profiles.push(profile),
    }
}

/// The profile that stands for a file without sections.
pub open spec fn default_profile() -> ProfileModel {
    ProfileModel { name: "default"@, pairs: Seq::empty() }
}

impl ScanModel {
    /// The reading before the first line.
    pub open spec fn initial() -> ScanModel {
        ScanModel { done: Seq::empty(), current: None }
    }

    /// The closed sections together with the open one.
    pub open spec fn closed(self) -> Seq<ProfileModel> {
        match self.current {
            Some(p) => put_profile(self.done, p),
            None => self.done,
        }
    }

    /// The reading after one more line. A header closes the open section
    /// and opens an empty one under the name between its brackets. A
    /// blank line carries nothing. Any other line records its word with
    /// its count in the open section; before the first header it is
    /// passed over.
    pub open spec fn line(self, line: Seq<char>) -> ScanModel {
        if is_header(line) {
            ScanModel {
                done: self.closed(),
                current: Some(ProfileModel { name: without_brackets(line), pairs: Seq::empty() }),
            }
        } else if line.len() == 0 {
            self
        } else {
            match self.current {
                Some(p) => ScanModel {
                    current: Some(
                        ProfileModel { pairs: put_count(p.pairs, word_of(line), count_of_line(line)), ..p },
                    ),
                    ..self
                },
                None => self,
            }
        }
    }

    /// The reading after the lines `lines`, in order.
    pub open spec fn lines(self, lines: Seq<Seq<char>>) -> ScanModel
        decreases lines.len(),
    {
        if lines.len() == 0 {
            self
        } else {
            self.line(lines[0]).lines(lines.drop_first())
        }
    }

    /// The profiles of the file once every line is read: the closed
    /// sections and the open one, or the default profile alone if the file
    /// had no section.
    pub open spec fn finish(self) -> Seq<ProfileModel> {
        match self.current {
            Some(_) => self.closed(),
            None => self.done.push(default_profile()),
        }
    }
}

/// The profiles that the text of a profile file stands for.
pub open spec fn parsed(text: Seq<char>) -> Seq<ProfileModel> {
    ScanModel::initial().lines(lines_of(text)).finish()
}

/// The header line of a section.
pub open spec fn header_line(name: Seq<char>) -> Seq<char> {
    seq!['['] + name + seq![']']
}

/// The line of a learnt word.
pub open spec fn word_line(pair: (Seq<char>, int)) -> Seq<char> {
    pair.0 + seq!['#'] + written(pair.1)
}

/// The text of the word lines of a section, each with its line feed.
pub open spec fn rendered_pairs(pairs: Seq<(Seq<char>, int)>) -> Seq<char>
    decreases pairs.len(),
{
    if pairs.len() == 0 {
        Seq::empty()
    } else {
        rendered_pairs(pairs.drop_last()) + word_line(pairs.last()) + seq!['\n']
    }
}

/// The text of a section: its header line and its word lines.
pub open spec fn rendered_profile(profile: ProfileModel) -> Seq<char> {
    header_line(profile.name) + seq!['\n'] + rendered_pairs(profile.pairs)
}

/// The text of a profile file: its sections one after the other.
pub open spec fn rendered(profiles: Seq<ProfileModel>) -> Seq<char>
    decreases profiles.len(),
{
    if profiles.len() == 0 {
        Seq::empty()
    } else {
        rendered(profiles.drop_last()) + rendered_profile(profiles.last())
    }
}

/// No two profiles share a name, and each lists every word once with a
/// count of zero or more.
pub open spec fn profiles_wf(profiles: Seq<ProfileModel>) -> bool {
    &&& forall|i: int, j: int|
        0 <= i < j < profiles.len() ==> (#[trigger] profiles[i]).name != (#[trigger] profiles[j]).name
    &&& forall|i: int| 0 <= i < profiles.len() ==> counts_wf((#[trigger] profiles[i]).pairs)
}

impl ScanModel {
    /// The invariant of the reading: the closed sections are well-formed
    /// and so is the open one.
    pub open spec fn wf(self) -> bool {
        &&& profiles_wf(self.done)
        &&& self.current matches Some(p) ==> counts_wf(p.pairs)
    }
}

/// Storing a well-formed profile keeps the list well-formed.
pub proof fn lemma_put_profile(profiles: Seq<ProfileModel>, profile: ProfileModel)
    requires
        profiles_wf(profiles),
        counts_wf(profile.pairs),
    ensures
        profiles_wf(put_profile(profiles, profile)),
{
    let after = put_profile(profiles, profile);
    lemma_first_index_of(names_of(profiles), profile.name);
    assert forall|i: int, j: int| 0 <= i < j < after.len() implies (#[trigger] after[i]).name != (
    #[trigger] after[j]).name by {
        if i < profiles.len() {
            assert(names_of(profiles)[i] == profiles[i].name);
        }
        if j < profiles.len() {
            assert(names_of(profiles)[j] == profiles[j].name);
            assert(profiles[i].name != profiles[j].name);
        }
    }
}

/// Every line keeps the reading well-formed.
pub proof fn lemma_line_keeps_wf(state: ScanModel, line: Seq<char>)
    requires
        state.wf(),
        count_of_line(line) >= 0,
    ensures
        state.line(line).wf(),
        profiles_wf(state.closed()),
{
    match state.current {
        Some(p) => {
            lemma_put_profile(state.done, p);
            lemma_put_count(p.pairs, word_of(line), count_of_line(line));
        },
        None => {},
    }
}

/// The position of the first `c` among the characters of `chars` from
/// `from` up to `to`, or `to` if there is none.
pub fn find_char(chars: &Vec<char>, from: usize, to: usize, c: char) -> (res: usize)
    requires
        from <= to <= chars.len(),
    ensures
        from <= res <= to,
        res - from == index_or_len(chars@.subrange(from as int, to as int), c),
{
    let ghost part = chars@.subrange(from as int, to as int);
    let mut i: usize = from;
    while i < to && chars[i] != c
        invariant
            from <= i <= to <= chars.len(),
            part == chars@.subrange(from as int, to as int),
            forall|j: int| 0 <= j < i - from ==> part[j] != c,
        decreases to - i,
    {
        i += 1;
    }
    proof {
        lemma_index_or_len_is(part, c, i - from);
    }
    i
}

/// Whether the characters of `chars` from `from` up to `to` head a
/// section.
pub fn header_at(chars: &Vec<char>, from: usize, to: usize) -> (res: bool)
    requires
        from <= to <= chars.len(),
    ensures
        res == is_header(chars@.subrange(from as int, to as int)),
{
    from < to && chars[from] == '[' && chars[to - 1] == ']'
}

/// The characters of `chars` from `from` up to `to`, without any square
/// bracket.
pub fn strip_brackets(chars: &Vec<char>, from: usize, to: usize) -> (res: Vec<char>)
    requires
        from <= to <= chars.len(),
    ensures
        res@ == without_brackets(chars@.subrange(from as int, to as int)),
{
    let ghost part = chars@.subrange(from as int, to as int);
    let mut res: Vec<char> = Vec::new();
    let mut i: usize = from;
    proof {
        assert(part.take(0) =~= Seq::<char>::empty());
    }
    while i < to
        invariant
            from <= i <= to <= chars.len(),
            part == chars@.subrange(from as int, to as int),
            res@ == without_brackets(part.take(i - from)),
        decreases to - i,
    {
        let c = chars[i];
        proof {
            assert(part.take(i - from + 1).drop_last() =~= part.take(i - from));
            assert(part.take(i - from + 1).last() == c);
        }
        if c != '[' && c != ']' {
            res.push(c);
        }
        i += 1;
    }
    proof {
        assert(part.take(to - from) =~= part);
    }
    res
}

/// The word and the count of the line that the characters of `chars` from
/// `from` up to `to` hold.
pub fn read_word_line(chars: &Vec<char>, from: usize, to: usize) -> (res: (Vec<char>, i64))
    requires
        from <= to <= chars.len(),
    ensures
        res.0@ == word_of(chars@.subrange(from as int, to as int)),
        res.1 == count_of_line(chars@.subrange(from as int, to as int)),
        res.1 >= 0,
{
    let ghost line = chars@.subrange(from as int, to as int);
    let first = find_char(chars, from, to, '#');
    let word = subrange(chars, from, first);
    proof {
        assert(word@ =~= line.take(first - from));
    }
    if first < to {
        let second = find_char(chars, first + 1, to, '#');
        proof {
            let rest = line.skip(first - from + 1);
            assert(rest =~= chars@.subrange(first + 1, to as int));
            assert(rest.take(second - first - 1) =~= chars@.subrange(first + 1, second as int));
        }
        let count = read_count(chars, first + 1, second);
        (word, count)
    } else {
        (word, 0)
    }
}

/// Whether a text is empty or ends with a line feed.
pub open spec fn ends_lines(text: Seq<char>) -> bool {
    text.len() == 0 || text.last() == '\n'
}

/// Whether a text holds none of the characters that a stored line cannot
/// carry within it: no line feed, and not `other` either.
pub open spec fn free_of(text: Seq<char>, other: char) -> bool {
    forall|i: int| 0 <= i < text.len() ==> #[trigger] text[i] != '\n' && text[i] != other
}

/// Whether a profile name can be stored: it holds no line feed and no
/// square bracket.
pub open spec fn storable_name(name: Seq<char>) -> bool {
    free_of(name, '[') && free_of(name, ']')
}

/// Whether a word can be stored: it holds no line feed and no `#`.
pub open spec fn storable_word(word: Seq<char>) -> bool {
    free_of(word, '#')
}

/// Whether a profile can be stored: its name and words can, and no count
/// is beyond `i64`.
pub open spec fn storable_profile(profile: ProfileModel) -> bool {
    &&& storable_name(profile.name)
    &&& counts_wf(profile.pairs)
    &&& forall|j: int|
        0 <= j < profile.pairs.len() ==> storable_word((#[trigger] profile.pairs[j]).0) && profile.pairs[j].1
            <= i64::MAX
}

/// Whether a list of profiles can be stored and read back: there is at
/// least one profile, no two share a name, and each can be stored.
pub open spec fn storable(profiles: Seq<ProfileModel>) -> bool {
    &&& profiles.len() > 0
    &&& profiles_wf(profiles)
    &&& forall|i: int| 0 <= i < profiles.len() ==> storable_profile(#[trigger] profiles[i])
}

/// The lines of two texts set one after the other are the lines of the
/// first followed by those of the second, where the first ends its last
/// line.
pub proof fn lemma_lines_append(x: Seq<char>, y: Seq<char>)
    requires
        ends_lines(x),
    ensures
        lines_of(x + y) == lines_of(x) + lines_of(y),
    decreases x.len(),
{
    if x.len() == 0 {
        assert(x + y =~= y);
        assert(lines_of(x) + lines_of(y) =~= lines_of(y));
    } else {
        let k = index_or_len(x, '\n');
        lemma_index_or_len(x, '\n');
        assert(k < x.len()) by {
            if k >= x.len() {
                assert(x[x.len() - 1] != '\n');
            }
        }
        let whole = x + y;
        assert forall|j: int| 0 <= j < k implies whole[j] != '\n' by {
            assert(whole[j] == x[j]);
        }
        lemma_index_or_len_is(whole, '\n', k);
        let rest = x.skip(k + 1);
        assert(whole.skip(k + 1) =~= rest + y);
        assert(ends_lines(rest)) by {
            if rest.len() > 0 {
                assert(rest.last() == x.last());
            }
        }
        lemma_lines_append(rest, y);
        if k > 0 && x[k - 1] == '\r' {
            assert(whole.take(k - 1) =~= x.take(k - 1));
        } else {
            assert(whole.take(k) =~= x.take(k));
        }
        assert(lines_of(x + y) =~= lines_of(x) + lines_of(y));
    }
}

/// A line without line feed that does not end in a carriage return,
/// followed by a line feed, reads as that one line.
pub proof fn lemma_single_line(line: Seq<char>)
    requires
        forall|i: int| 0 <= i < line.len() ==> line[i] != '\n',
        line.len() > 0 ==> line.last() != '\r',
    ensures
        lines_of(line + seq!['\n']) == seq![line],
{
    let text = line + seq!['\n'];
    let k = line.len() as int;
    assert forall|j: int| 0 <= j < k implies text[j] != '\n' by {
        assert(text[j] == line[j]);
    }
    lemma_index_or_len_is(text, '\n', k);
    assert(text.take(k) =~= line);
    assert(text.skip(k + 1) =~= Seq::<char>::empty());
    if k > 0 {
        assert(text[k - 1] == line.last());
    }
    assert(lines_of(text.skip(k + 1)) =~= Seq::<Seq<char>>::empty());
    assert(lines_of(text) =~= seq![line]);
}

/// Reading the lines of two lists one after the other is reading the
/// first list and then the second.
pub proof fn lemma_scan_append(state: ScanModel, a: Seq<Seq<char>>, b: Seq<Seq<char>>)
    ensures
        state.lines(a + b) == state.lines(a).lines(b),
    decreases a.len(),
{
    if a.len() == 0 {
        assert(a + b =~= b);
    } else {
        assert((a + b)[0] == a[0]);
        assert((a + b).drop_first() =~= a.drop_first() + b);
        lemma_scan_append(state.line(a[0]), a.drop_first(), b);
    }
}

/// A text without brackets is itself once brackets are taken out, also
/// with a bracket set before and after it.
pub proof fn lemma_without_brackets(name: Seq<char>)
    requires
        storable_name(name),
    ensures
        without_brackets(name) == name,
        without_brackets(seq!['['] + name) == name,
        without_brackets(header_line(name)) == name,
    decreases name.len(),
{
    let opened = seq!['['] + name;
    if name.len() == 0 {
        assert(opened.drop_last() =~= Seq::<char>::empty());
        assert(opened.last() == '[');
        assert(without_brackets(opened.drop_last()) =~= Seq::<char>::empty());
        assert(without_brackets(opened) =~= name);
    } else {
        let front = name.drop_last();
        assert(storable_name(front)) by {
            assert forall|i: int| 0 <= i < front.len() implies #[trigger] front[i] != '\n' && front[i] != '[' by {
                assert(front[i] == name[i]);
            }
            assert forall|i: int| 0 <= i < front.len() implies #[trigger] front[i] != '\n' && front[i] != ']' by {
                assert(front[i] == name[i]);
            }
        }
        lemma_without_brackets(front);
        assert(name.last() == name[name.len() - 1]);
        assert(opened.drop_last() =~= seq!['['] + front);
        assert(opened.last() == name.last());
        assert(without_brackets(name) =~= name);
        assert(without_brackets(opened) =~= name);
    }
    assert(header_line(name).drop_last() =~= opened);
}

/// A written count that is not negative holds digits only.
pub proof fn lemma_written_digits(n: int)
    requires
        0 <= n,
    ensures
        written(n).len() > 0,
        all_digits(written(n)),
{
    lemma_decimal(n as nat);
}

/// The line of a storable word with its count: it is not blank and no
/// header, holds no line feed, does not end in a carriage return, and
/// reads as that word with that count.
pub proof fn lemma_word_line(word: Seq<char>, count: int)
    requires
        storable_word(word),
        0 <= count <= i64::MAX,
    ensures
        word_line((word, count)).len() > 0,
        !is_header(word_line((word, count))),
        forall|i: int| 0 <= i < word_line((word, count)).len() ==> word_line((word, count))[i] != '\n',
        word_line((word, count)).last() != '\r',
        word_of(word_line((word, count))) == word,
        count_of_line(word_line((word, count))) == count,
{
    let line = word_line((word, count));
    let digits = written(count);
    lemma_written_digits(count);
    lemma_count_round_trip(count);
    let first = word.len() as int;
    assert(line.len() == first + 1 + digits.len());
    assert(line[first] == '#');
    assert forall|i: int| 0 <= i < line.len() implies line[i] != '\n' by {
        if i < first {
            assert(line[i] == word[i]);
        } else if i > first {
            assert(line[i] == digits[i - first - 1]);
            assert(is_digit(digits[i - first - 1]));
        }
    }
    assert(line.last() == digits.last());
    assert(is_digit(digits[digits.len() - 1]));
    assert forall|j: int| 0 <= j < first implies line[j] != '#' by {
        assert(line[j] == word[j]);
    }
    lemma_index_or_len_is(line, '#', first);
    assert(line.take(first) =~= word);
    let rest = line.skip(first + 1);
    assert(rest =~= digits);
    assert forall|j: int| 0 <= j < digits.len() implies digits[j] != '#' by {
        assert(is_digit(digits[j]));
    }
    lemma_index_or_len_is(digits, '#', digits.len() as int);
    assert(digits.take(digits.len() as int) =~= digits);
}

/// The header line of a storable name: it is a header, holds no line
/// feed, does not end in a carriage return, and names that name.
pub proof fn lemma_header_line(name: Seq<char>)
    requires
        storable_name(name),
    ensures
        is_header(header_line(name)),
        forall|i: int| 0 <= i < header_line(name).len() ==> header_line(name)[i] != '\n',
        header_line(name).last() != '\r',
        without_brackets(header_line(name)) == name,
{
    let line = header_line(name);
    lemma_without_brackets(name);
    assert(line[0] == '[');
    assert(line.last() == ']');
    assert forall|i: int| 0 <= i < line.len() implies line[i] != '\n' by {
        if 0 < i < line.len() - 1 {
            assert(line[i] == name[i - 1]);
        }
    }
}

/// Reading the word lines of a storable section into an open section
/// that is still empty fills it with exactly those words and counts.
pub proof fn lemma_read_pairs(state: ScanModel, name: Seq<char>, pairs: Seq<(Seq<char>, int)>)
    requires
        state.current == Some(ProfileModel { name, pairs: Seq::empty() }),
        storable_profile(ProfileModel { name, pairs }),
    ensures
        ends_lines(rendered_pairs(pairs)),
        state.lines(lines_of(rendered_pairs(pairs))) == (ScanModel {
            current: Some(ProfileModel { name, pairs }),
            ..state
        }),
    decreases pairs.len(),
{
    if pairs.len() == 0 {
        assert(pairs =~= Seq::empty());
    } else {
        let front = pairs.drop_last();
        let last = pairs.last();
        assert(storable_profile(ProfileModel { name, pairs: front })) by {
            assert forall|i: int, j: int| 0 <= i < j < front.len() implies (#[trigger] front[i]).0 != (
            #[trigger] front[j]).0 by {
                assert(front[i] == pairs[i] && front[j] == pairs[j]);
            }
            assert forall|i: int| 0 <= i < front.len() implies (#[trigger] front[i]).1 >= 0 by {
                assert(front[i] == pairs[i]);
            }
            assert forall|j: int| 0 <= j < front.len() implies storable_word((#[trigger] front[j]).0)
                && front[j].1 <= i64::MAX by {
                assert(front[j] == pairs[j]);
            }
        }
        lemma_read_pairs(state, name, front);
        assert(last == pairs[pairs.len() - 1]);
        lemma_word_line(last.0, last.1);
        let line = word_line(last);
        lemma_single_line(line);
        assert(rendered_pairs(pairs) =~= rendered_pairs(front) + (line + seq!['\n']));
        lemma_lines_append(rendered_pairs(front), line + seq!['\n']);
        lemma_scan_append(state, lines_of(rendered_pairs(front)), seq![line]);
        let filled = ScanModel { current: Some(ProfileModel { name, pairs: front }), ..state };
        assert(filled.lines(seq![line]) == filled.line(line)) by {
            assert(seq![line].drop_first() =~= Seq::<Seq<char>>::empty());
            assert(filled.line(line).lines(Seq::<Seq<char>>::empty()) == filled.line(line));
        }
        lemma_first_index_of(keys_of(front), last.0);
        assert(first_index_of(keys_of(front), last.0) is None) by {
            if first_index_of(keys_of(front), last.0) is Some {
                let i = first_index_of(keys_of(front), last.0).unwrap();
                assert(keys_of(front)[i] == pairs[i].0);
                assert(pairs[i].0 != pairs[pairs.len() - 1].0);
            }
        }
        assert(put_count(front, last.0, last.1) =~= pairs);
    }
}

/// Reading the text of a storable section closes the section that was
/// open and leaves the read one open, with its name, words and counts.
pub proof fn lemma_read_profile(state: ScanModel, profile: ProfileModel)
    requires
        storable_profile(profile),
    ensures
        ends_lines(rendered_profile(profile)),
        state.lines(lines_of(rendered_profile(profile))) == (ScanModel {
            done: state.closed(),
            current: Some(profile),
        }),
{
    let header = header_line(profile.name);
    lemma_header_line(profile.name);
    lemma_single_line(header);
    let opened = state.line(header);
    lemma_read_pairs(opened, profile.name, profile.pairs);
    lemma_lines_append(header + seq!['\n'], rendered_pairs(profile.pairs));
    lemma_scan_append(state, seq![header], lines_of(rendered_pairs(profile.pairs)));
    assert(state.lines(seq![header]) == opened) by {
        assert(seq![header].drop_first() =~= Seq::<Seq<char>>::empty());
        assert(opened.lines(Seq::<Seq<char>>::empty()) == opened);
    }
    assert(rendered_profile(profile).len() > 0 && rendered_profile(profile).last() == '\n') by {
        let body = rendered_pairs(profile.pairs);
        if body.len() > 0 {
            assert(rendered_profile(profile).last() == body.last());
        } else {
            assert(rendered_profile(profile) =~= header + seq!['\n']);
        }
    }
}

/// Reading the text of a storable list of profiles leaves the last one
/// open and the others closed, in order.
pub proof fn lemma_read_rendered(profiles: Seq<ProfileModel>)
    requires
        storable(profiles),
    ensures
        ends_lines(rendered(profiles)),
        ScanModel::initial().lines(lines_of(rendered(profiles))) == (ScanModel {
            done: profiles.drop_last(),
            current: Some(profiles.last()),
        }),
    decreases profiles.len(),
{
    let front = profiles.drop_last();
    let last = profiles.last();
    assert(last == profiles[profiles.len() - 1]);
    let before = ScanModel::initial().lines(lines_of(rendered(front)));
    if front.len() == 0 {
        assert(before == ScanModel::initial());
        assert(before.closed() =~= front);
    } else {
        assert(storable(front)) by {
            assert forall|i: int, j: int| 0 <= i < j < front.len() implies (#[trigger] front[i]).name != (
            #[trigger] front[j]).name by {
                assert(front[i] == profiles[i] && front[j] == profiles[j]);
            }
            assert forall|i: int| 0 <= i < front.len() implies counts_wf((#[trigger] front[i]).pairs) by {
                assert(front[i] == profiles[i]);
            }
            assert forall|i: int| 0 <= i < front.len() implies storable_profile(#[trigger] front[i]) by {
                assert(front[i] == profiles[i]);
            }
        }
        lemma_read_rendered(front);
        lemma_put_last(front);
        assert(before.closed() == front);
    }
    lemma_read_profile(before, last);
    lemma_lines_append(rendered(front), rendered_profile(last));
    lemma_scan_append(ScanModel::initial(), lines_of(rendered(front)), lines_of(rendered_profile(last)));
    assert(rendered(profiles).last() == rendered_profile(last).last());
}

/// Storing the last of a list of profiles with distinct names among the
/// others gives the list back.
pub proof fn lemma_put_last(profiles: Seq<ProfileModel>)
    requires
        profiles.len() > 0,
        profiles_wf(profiles),
    ensures
        put_profile(profiles.drop_last(), profiles.last()) == profiles,
{
    let front = profiles.drop_last();
    let last = profiles.last();
    lemma_first_index_of(names_of(front), last.name);
    if first_index_of(names_of(front), last.name) is Some {
        let i = first_index_of(names_of(front), last.name).unwrap();
        assert(names_of(front)[i] == profiles[i].name);
        assert(profiles[i].name != profiles[profiles.len() - 1].name);
    }
    assert(front.push(last) =~= profiles);
}

/// Saving and loading give back what was saved: the text of a storable
/// list of profiles stands for exactly those profiles, with every name,
/// word and count, in their order.
pub proof fn lemma_save_load_round_trip(profiles: Seq<ProfileModel>)
    requires
        storable(profiles),
    ensures
        parsed(rendered(profiles)) == profiles,
{
    lemma_read_rendered(profiles);
    lemma_put_last(profiles);
}

/// A line without `#` that is neither blank nor a header records its whole
/// text as a word with count zero, and the lines after it are read as they
/// would be after any other line.
pub proof fn lemma_line_without_count(state: ScanModel, line: Seq<char>, rest: Seq<Seq<char>>)
    requires
        state.current is Some,
        line.len() > 0,
        !is_header(line),
        forall|i: int| 0 <= i < line.len() ==> line[i] != '#',
    ensures
        word_of(line) == line,
        count_of_line(line) == 0,
        state.line(line).current == Some(
            ProfileModel { pairs: put_count(state.current.unwrap().pairs, line, 0), ..state.current.unwrap() },
        ),
        state.line(line).done == state.done,
        state.lines(seq![line] + rest) == state.line(line).lines(rest),
{
    lemma_index_or_len_is(line, '#', line.len() as int);
    assert(line.take(line.len() as int) =~= line);
    assert((seq![line] + rest)[0] == line);
    assert((seq![line] + rest).drop_first() =~= rest);
}

/// The word and the count that a line records.
pub open spec fn line_entry(line: Seq<char>) -> (Seq<char>, int) {
    (word_of(line), count_of_line(line))
}

/// The words and counts that a list of lines records, line by line.
pub open spec fn entries_of(lines: Seq<Seq<char>>) -> Seq<(Seq<char>, int)> {
    Seq::new(lines.len(), |i: int| line_entry(lines[i]))
}

/// In a freshly opened section, lines that are neither blank nor headers
/// and that name different words record one entry each, in their order,
/// whatever the other lines hold: a line whose count cannot be read, or
/// that has none, takes nothing from the lines before or after it. The
/// section then maps the word of every line to the count of that line,
/// and holds no other word.
pub proof fn lemma_section_lines(state: ScanModel, lines: Seq<Seq<char>>)
    requires
        state.current matches Some(p) && p.pairs.len() == 0,
        forall|i: int| 0 <= i < lines.len() ==> (#[trigger] lines[i]).len() > 0 && !is_header(lines[i]),
        forall|i: int, j: int|
            0 <= i < j < lines.len() ==> word_of(#[trigger] lines[i]) != word_of(#[trigger] lines[j]),
    ensures
        state.lines(lines) == (ScanModel {
            current: Some(ProfileModel { pairs: entries_of(lines), ..state.current.unwrap() }),
            ..state
        }),
        forall|i: int|
            0 <= i < lines.len() ==> count_in(entries_of(lines), word_of(#[trigger] lines[i])) == Some(
                count_of_line(lines[i]),
            ),
        forall|w: Seq<char>|
            count_in(entries_of(lines), w) is Some ==> exists|i: int|
                0 <= i < lines.len() && w == word_of(#[trigger] lines[i]),
    decreases lines.len(),
{
    let p = state.current.unwrap();
    let all = entries_of(lines);
    if lines.len() == 0 {
        assert(all =~= p.pairs);
    } else {
        let front = lines.drop_last();
        let last = lines.last();
        assert(last == lines[lines.len() - 1]);
        assert forall|i: int| 0 <= i < front.len() implies (#[trigger] front[i]).len() > 0 && !is_header(
            front[i],
        ) by {
            assert(front[i] == lines[i]);
        }
        assert forall|i: int, j: int| 0 <= i < j < front.len() implies word_of(#[trigger] front[i]) != word_of(
            #[trigger] front[j],
        ) by {
            assert(front[i] == lines[i] && front[j] == lines[j]);
        }
        lemma_section_lines(state, front);
        assert(lines =~= front + seq![last]);
        lemma_scan_append(state, front, seq![last]);
        let filled = state.lines(front);
        assert(filled.lines(seq![last]) == filled.line(last)) by {
            assert(seq![last].drop_first() =~= Seq::<Seq<char>>::empty());
            assert(filled.line(last).lines(Seq::<Seq<char>>::empty()) == filled.line(last));
        }
        let before = entries_of(front);
        lemma_first_index_of(keys_of(before), word_of(last));
        assert(first_index_of(keys_of(before), word_of(last)) is None) by {
            if first_index_of(keys_of(before), word_of(last)) is Some {
                let i = first_index_of(keys_of(before), word_of(last)).unwrap();
                assert(keys_of(before)[i] == word_of(lines[i]));
                assert(word_of(lines[i]) != word_of(lines[lines.len() - 1]));
            }
        }
        assert(put_count(before, word_of(last), count_of_line(last)) =~= all);
    }
    assert forall|i: int| 0 <= i < lines.len() implies count_in(all, word_of(#[trigger] lines[i])) == Some(
        count_of_line(lines[i]),
    ) by {
        assert forall|j: int| 0 <= j < i implies keys_of(all)[j] != word_of(lines[i]) by {
            assert(keys_of(all)[j] == word_of(lines[j]));
        }
        assert(keys_of(all)[i] == word_of(lines[i]));
        crate::util::lemma_first_index_of_is(keys_of(all), word_of(lines[i]), i);
    }
    assert forall|w: Seq<char>| count_in(all, w) is Some implies exists|i: int|
        0 <= i < lines.len() && w == word_of(#[trigger] lines[i]) by {
        lemma_first_index_of(keys_of(all), w);
        let i = first_index_of(keys_of(all), w).unwrap();
        assert(keys_of(all)[i] == word_of(lines[i]));
    }
}

} // verus!
