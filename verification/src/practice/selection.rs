//! The choice of the next word: a weighted draw between the whole
//! dictionary and the words already learnt, then a uniform draw within.

use vstd::prelude::*;
use rand::distributions::Distribution;
use crate::config::Profile;
use crate::importer::dictionary::{Dictionary, DictionaryModel, WordModel};
use crate::practice::word::{practice_word, PracticeWordModel, Word};
use crate::text::same_text;
use crate::util::{first_index_of, lemma_first_index_of, lemma_first_index_of_is};

verus! {

/// The relative weight of a draw from the whole dictionary.
pub const DICTIONARY_WEIGHT: i32 = 1;

/// The relative weight of a draw from the learnt words.
pub const LEARNT_WEIGHT: i32 = 2;

/// Where the next word is drawn from.
#[derive(Debug, Clone, Copy, PartialEq, Eq, Structural)]
pub enum WordSource {
    Dictionary,
    Learnt,
}

/// The source for a weighted draw that came out as `branch`, with `learnt`
/// words in the profile: the learnt words only when the draw asks for
/// them and there are any.
pub open spec fn source_for(branch: usize, learnt: nat) -> WordSource {
    if branch == 0 || learnt == 0 {
        WordSource::Dictionary
    } else {
        WordSource::Learnt
    }
}

/// The identifiers of a list of words, in order.
pub open spec fn identifiers(words: Seq<WordModel>) -> Seq<Seq<char>> {
    Seq::new(words.len(), |i: int| words[i].identifier)
}

/// The practice word for the dictionary word at `index`.
pub open spec fn dictionary_pick(dict: DictionaryModel, index: int) -> Option<PracticeWordModel> {
    if 0 <= index < dict.words.len() {
        Some(practice_word(dict.words[index]))
    } else {
        None
    }
}

/// The practice word for the first dictionary word that reads
/// `identifier`.
pub open spec fn find_word(dict: DictionaryModel, identifier: Seq<char>) -> Option<PracticeWordModel> {
    match first_index_of(identifiers(dict.words), identifier) {
        Some(i) => Some(practice_word(dict.words[i])),
        None => None,
    }
}

/// The practice word for the learnt word at `index`, looked up in the
/// dictionary.
pub open spec fn learnt_pick(dict: DictionaryModel, pairs: Seq<(Seq<char>, int)>, index: int) -> Option<
    PracticeWordModel,
> {
    if 0 <= index < pairs.len() {
        find_word(dict, pairs[index].0)
    } else {
        None
    }
}

/// The word that the draws `branch` and `index` select.
pub open spec fn pick(dict: DictionaryModel, pairs: Seq<(Seq<char>, int)>, branch: usize, index: int) -> Option<
    PracticeWordModel,
> {
    match source_for(branch, pairs.len()) {
        WordSource::Dictionary => dictionary_pick(dict, index),
        WordSource::Learnt => learnt_pick(dict, pairs, index),
    }
}

/// With nothing learnt, every draw selects from the whole dictionary.
pub proof fn lemma_nothing_learnt_draws_from_dictionary(dict: DictionaryModel, branch: usize, index: int)
    ensures
        source_for(branch, 0) == WordSource::Dictionary,
        pick(dict, Seq::empty(), branch, index) == dictionary_pick(dict, index),
{
}

/// The source for a weighted draw that came out as `branch`.
pub fn selection_source(branch: usize, profile: &Profile) -> (res: WordSource)
    ensures
        res == source_for(branch, profile.pairs().len()),
{
    if branch == 0 || profile.words_learnt.len() == 0 {
        WordSource::Dictionary
    } else {
        WordSource::Learnt
    }
}

/// Whether `res` is the practice word that `model` describes, or absent
/// where `model` is.
pub open spec fn is_word(res: Option<Word>, model: Option<PracticeWordModel>) -> bool {
    match res {
        Some(w) => model == Some(w@) && w.wf(),
        None => model is None,
    }
}

/// The practice word for the dictionary word at `index`, if there is one.
pub fn word_at(dict: &Dictionary, index: usize) -> (res: Option<Word>)
    ensures
        is_word(res, dictionary_pick(dict@, index as int)),
{
    if index < dict.words.len() {
        Some(Word::from_entry(&dict.words[index]))
    } else {
        None
    }
}

/// The practice word for the first dictionary word that reads
/// `identifier`, if there is one.
pub fn lookup_word(dict: &Dictionary, identifier: &str) -> (res: Option<Word>)
    ensures
        is_word(res, find_word(dict@, identifier@)),
{
    let mut i: usize = 0;
    while i < dict.words.len()
        invariant
            i <= dict.words.len(),
            forall|j: int| 0 <= j < i ==> identifiers(dict@.words)[j] != identifier@,
        decreases dict.words.len() - i,
    {
        if same_text(dict.words[i].identifier.as_str(), identifier) {
            proof {
                lemma_first_index_of_is(identifiers(dict@.words), identifier@, i as int);
            }
            return Some(Word::from_entry(&dict.words[i]));
        }
        i += 1;
    }
    proof {
        lemma_first_index_of_is(identifiers(dict@.words), identifier@, i as int);
    }
    None
}

/// The practice word for the learnt word at `index`, if there is one and
/// the dictionary holds it.
pub fn learnt_word_at(dict: &Dictionary, profile: &Profile, index: usize) -> (res: Option<Word>)
    ensures
        is_word(res, learnt_pick(dict@, profile.pairs(), index as int)),
{
    if index < profile.words_learnt.len() {
        lookup_word(dict, profile.words_learnt[index].word.as_str())
    } else {
        None
    }
}

/// The word that the draws `branch` and `index` select.
pub fn select_word(dict: &Dictionary, profile: &Profile, branch: usize, index: usize) -> (res: Option<Word>)
    ensures
        is_word(res, pick(dict@, profile.pairs(), branch, index as int)),
{
    match selection_source(branch, profile) {
        WordSource::Dictionary => word_at(dict, index),
        WordSource::Learnt => learnt_word_at(dict, profile, index),
    }
}

/// An index drawn at random with the given two weights.
///
/// Trusted: stands for `rand::distributions::WeightedIndex::new` on the
/// two weights, sampled once with `rand::thread_rng`. The constructor
/// accepts weights that are not negative and not both zero, and a sample
/// is a position among the weights; the contract claims no more.
#[verifier::external_body]
pub(crate) fn weighted_index(first: i32, second: i32) -> (res: usize)
    requires
        0 <= first,
        0 <= second,
        0 < first + second <= i32::MAX,
    ensures
        res < 2,
{
    rand::distributions::WeightedIndex::new([first, second]).unwrap().sample(&mut rand::thread_rng())
}

/// An index drawn uniformly at random below `bound`.
///
/// Trusted: stands for `rand::distributions::Uniform::new(0, bound)`,
/// sampled once with `rand::thread_rng`. The constructor needs a bound
/// above zero, and a sample lies below the bound; the contract claims no
/// more.
#[verifier::external_body]
pub(crate) fn uniform_index(bound: usize) -> (res: usize)
    requires
        bound > 0,
    ensures
        res < bound,
{
    rand::distributions::Uniform::new(0, bound).sample(&mut rand::thread_rng())
}

/// Whether a word can be selected whatever the draws: the dictionary has
/// a word, and it holds every learnt word.
pub open spec fn selectable(dict: DictionaryModel, pairs: Seq<(Seq<char>, int)>) -> bool {
    &&& dict.words.len() > 0
    &&& forall|i: int| 0 <= i < pairs.len() ==> #[trigger] find_word(dict, pairs[i].0) is Some
}

/// Every word of the dictionary is found under its own identifier.
pub proof fn lemma_dictionary_word_is_found(dict: DictionaryModel, index: int)
    requires
        0 <= index < dict.words.len(),
    ensures
        find_word(dict, dict.words[index].identifier) is Some,
{
    lemma_first_index_of(identifiers(dict.words), dict.words[index].identifier);
    assert(identifiers(dict.words)[index] == dict.words[index].identifier);
}

/// A word that was found in the dictionary is found again under its own
/// text.
pub proof fn lemma_found_word_is_found(dict: DictionaryModel, identifier: Seq<char>)
    requires
        find_word(dict, identifier) is Some,
    ensures
        find_word(dict, identifier).unwrap().original == identifier,
        find_word(dict, find_word(dict, identifier).unwrap().original) is Some,
{
    lemma_first_index_of(identifiers(dict.words), identifier);
}

/// Whether a word can be selected whatever the draws.
pub fn can_select(dict: &Dictionary, profile: &Profile) -> (res: bool)
    ensures
        res == selectable(dict@, profile.pairs()),
{
    if dict.words.len() == 0 {
        return false;
    }
    let mut i: usize = 0;
    while i < profile.words_learnt.len()
        invariant
            i <= profile.words_learnt.len(),
            dict@.words.len() > 0,
            forall|j: int| 0 <= j < i ==> #[trigger] find_word(dict@, profile.pairs()[j].0) is Some,
        decreases profile.words_learnt.len() - i,
    {
        if lookup_word(dict, profile.words_learnt[i].word.as_str()).is_none() {
            assert(find_word(dict@, profile.pairs()[i as int].0) is None);
            return false;
        }
        i += 1;
    }
    true
}

/// Selects the next word at random: from the whole dictionary with weight
/// one, from the learnt words with weight two, and always from the
/// dictionary while nothing is learnt. The dictionary must have a word
/// and hold every learnt word; `can_select` tells.
///
/// Which word comes back rests on the random draws. It is always one that
/// some pair of draws within their ranges selects, and so a word of the
/// dictionary.
pub fn new_word(dict: &Dictionary, profile: &Profile) -> (res: Word)
    requires
        selectable(dict@, profile.pairs()),
    ensures
        res.wf(),
        exists|branch: usize, index: int|
            branch < 2 && Some(res@) == #[trigger] pick(dict@, profile.pairs(), branch, index),
        profile.pairs().len() == 0 ==> exists|index: int| Some(res@) == #[trigger] dictionary_pick(dict@, index),
        find_word(dict@, res@.original) is Some,
{
    let branch = weighted_index(DICTIONARY_WEIGHT, LEARNT_WEIGHT);
    match selection_source(branch, profile) {
        WordSource::Dictionary => {
            let index = uniform_index(dict.words.len());
            let word = word_at(dict, index).unwrap();
            proof {
                assert(Some(word@) == pick(dict@, profile.pairs(), branch, index as int));
                assert(Some(word@) == dictionary_pick(dict@, index as int));
                lemma_dictionary_word_is_found(dict@, index as int);
            }
            word
        },
        WordSource::Learnt => {
            let index = uniform_index(profile.words_learnt.len());
            proof {
                assert(find_word(dict@, profile.pairs()[index as int].0) is Some);
                lemma_found_word_is_found(dict@, profile.pairs()[index as int].0);
            }
            let word = learnt_word_at(dict, profile, index).unwrap();
            assert(Some(word@) == pick(dict@, profile.pairs(), branch, index as int));
            word
        },
    }
}

} // verus!
