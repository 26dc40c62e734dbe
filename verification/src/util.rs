//! Lookups in argument lists and in multi-line text.

use vstd::prelude::*;
use vstd::string::StringSliceAdditionalSpecFns;
use crate::text::{same_text, texts};

verus! {

/// The position of the first element of `items` that reads `key`, if any.
pub open spec fn first_index_of(items: Seq<Seq<char>>, key: Seq<char>) -> Option<int>
    decreases items.len(),
{
    if items.len() == 0 {
        None
    } else if items[0] == key {
        Some(0)
    } else {
        match first_index_of(items.drop_first(), key) {
            Some(i) => Some(i + 1),
            None => None,
        }
    }
}

/// `first_index_of` finds `key` exactly when it occurs, and then at its
/// earliest position.
pub proof fn lemma_first_index_of(items: Seq<Seq<char>>, key: Seq<char>)
    ensures
        match first_index_of(items, key) {
            Some(i) => {
                &&& 0 <= i < items.len()
                &&& items[i] == key
                &&& forall|j: int| 0 <= j < i ==> items[j] != key
            },
            None => forall|j: int| 0 <= j < items.len() ==> items[j] != key,
        },
    decreases items.len(),
{
    if items.len() > 0 && items[0] != key {
        let rest = items.drop_first();
        lemma_first_index_of(rest, key);
        match first_index_of(rest, key) {
            Some(i) => {
                assert forall|j: int| 0 <= j < i + 1 implies items[j] != key by {
                    if j > 0 {
                        assert(rest[j - 1] == items[j]);
                    }
                }
            },
            None => {
                assert forall|j: int| 0 <= j < items.len() implies items[j] != key by {
                    if j > 0 {
                        assert(rest[j - 1] == items[j]);
                    }
                }
            },
        }
    }
}

/// A position that holds `key` and has no earlier occurrence before it is
/// the one `first_index_of` reports; with no occurrence it reports none.
pub proof fn lemma_first_index_of_is(items: Seq<Seq<char>>, key: Seq<char>, at: int)
    requires
        0 <= at <= items.len(),
        forall|j: int| 0 <= j < at ==> items[j] != key,
        at < items.len() ==> items[at] == key,
    ensures
        first_index_of(items, key) == (if at < items.len() { Some(at) } else { None }),
{
    lemma_first_index_of(items, key);
}

/// The index of the first element of `vector` equal to `key`, or `-1` when
/// there is none. An index beyond `i32::MAX` is cut to its low 32 bits.
pub fn get_index(vector: &Vec<String>, key: &str) -> (res: i32)
    ensures
        res == match first_index_of(texts(vector@), key@) {
            Some(i) => i as i32,
            None => -1i32,
        },
{
    let mut i: usize = 0;
    while i < vector.len()
        invariant
            i <= vector.len(),
            forall|j: int| 0 <= j < i ==> texts(vector@)[j] != key@,
        decreases vector.len() - i,
    {
        if same_text(vector[i].as_str(), key) {
            proof {
                lemma_first_index_of_is(texts(vector@), key@, i as int);
            }
            return #[verifier::truncate] (i as i32);
        }
        i += 1;
    }
    proof {
        lemma_first_index_of_is(texts(vector@), key@, i as int);
    }
    -1
}

/// The number of line breaks in `bytes`.
pub open spec fn line_breaks(bytes: Seq<u8>) -> nat
    decreases bytes.len(),
{
    if bytes.len() == 0 {
        0
    } else if bytes[0] == 10u8 {
        1 + line_breaks(bytes.drop_first())
    } else {
        line_breaks(bytes.drop_first())
    }
}

/// The offset at which line number `index` (counting from 1) of `bytes`
/// ends: the position of its line break, or the length of `bytes` for a
/// last line without one.
pub open spec fn line_end(bytes: Seq<u8>, index: nat) -> nat
    decreases bytes.len(),
{
    if bytes.len() == 0 {
        0
    } else if bytes[0] == 10u8 {
        if index <= 1 {
            0
        } else {
            1 + line_end(bytes.drop_first(), (index - 1) as nat)
        }
    } else {
        1 + line_end(bytes.drop_first(), index)
    }
}

proof fn lemma_line_end_bound(bytes: Seq<u8>, index: nat)
    ensures
        line_end(bytes, index) <= bytes.len(),
    decreases bytes.len(),
{
    if bytes.len() > 0 {
        if bytes[0] == 10u8 {
            if index > 1 {
                lemma_line_end_bound(bytes.drop_first(), (index - 1) as nat);
            }
        } else {
            lemma_line_end_bound(bytes.drop_first(), index);
        }
    }
}

/// The summed byte lengths of the first `index` lines of `txt`, with one
/// more for each line break between them: the offset at which line number
/// `index` ends.
pub fn get_index_of_line(txt: &str, index: usize) -> (res: usize)
    requires
        1 <= index <= line_breaks(txt.spec_bytes()) + 1,
    ensures
        res == line_end(txt.spec_bytes(), index as nat),
{
    let bytes = txt.as_bytes();
    let mut i: usize = 0;
    let mut left: usize = index;
    proof {
        lemma_line_end_bound(bytes@, index as nat);
        assert(bytes@.skip(0) =~= bytes@);
    }
    while i < bytes.len()
        invariant
            i <= bytes.len(),
            bytes@ == txt.spec_bytes(),
            1 <= left,
            line_end(bytes@, index as nat) == i + line_end(bytes@.skip(i as int), left as nat),
        decreases bytes.len() - i,
    {
        let ghost rest = bytes@.skip(i as int);
        assert(rest.len() > 0 && rest[0] == bytes@[i as int]);
        assert(rest.drop_first() =~= bytes@.skip(i + 1));
        if bytes[i] == 10u8 {
            if left == 1 {
                return i;
            }
            left -= 1;
        }
        i += 1;
    }
    assert(bytes@.skip(i as int).len() == 0);
    i
}

} // verus!
