//! The catalogs from which a language takes its phonemes and its shape
//! weights.

use vstd::prelude::*;

verus! {

/// The five base vowels.
pub open spec fn base_vowel_letters() -> Seq<char> {
    seq!['a', 'e', 'i', 'o', 'u']
}

/// The consonants of one letter.
pub open spec fn consonant_letters() -> Seq<char> {
    seq![
        'b', 'c', 'd', 'f', 'g', 'h', 'j',
        'k', 'l', 'm', 'n', 'p', 'q', 'r',
        's', 't', 'v', 'w', 'x', 'y', 'z',
    ]
}

/// The consonants of two letters.
pub open spec fn consonant_clusters() -> Seq<(char, char)> {
    seq![('n', 'g'), ('s', 'h'), ('t', 'h'), ('c', 'h'), ('z', 'h')]
}

/// The rare letters: consonants first, vowels after them.
pub open spec fn spice_letters() -> Seq<char> {
    seq![
        '\u{f1}', '\u{144}', '\u{14b}', '\u{e7}', '\u{f0}', '\u{161}',
        '\u{15b}', '\u{111}', '\u{121}', '\u{142}', '\u{155}', '\u{125}',
        '\u{135}', '\u{107}', '\u{109}', '\u{17a}', '\u{17c}', '\u{1e85}',
        '\u{175}', '\u{438}', '\u{439}', '\u{e0}', '\u{e1}', '\u{e2}',
        '\u{e3}', '\u{e4}', '\u{e5}', '\u{101}', '\u{103}', '\u{e8}',
        '\u{e9}', '\u{ea}', '\u{eb}', '\u{113}', '\u{115}', '\u{117}',
        '\u{11b}', '\u{ec}', '\u{ed}', '\u{ee}', '\u{ef}', '\u{129}',
        '\u{12b}', '\u{12d}', '\u{f2}', '\u{f3}', '\u{f4}', '\u{f5}',
        '\u{f6}', '\u{14d}', '\u{14f}', '\u{151}', '\u{f8}', '\u{f9}',
        '\u{fa}', '\u{fb}', '\u{fc}', '\u{169}', '\u{16b}', '\u{16d}',
        '\u{16f}', '\u{171}',
    ]
}

/// How many of the rare letters are consonants.
pub const SPICE_CONSONANTS: usize = 21;

/// The triples of shape weights, for the shapes consonant-vowel,
/// vowel-consonant and consonant-vowel-consonant: every triple of weights
/// up to four that has no common divisor, in dictionary order.
pub open spec fn shape_weight_triples() -> Seq<(i32, i32, i32)> {
    seq![
        (0, 0, 1), (0, 1, 0), (0, 1, 1), (0, 1, 2), (0, 1, 3),
        (0, 1, 4), (0, 2, 1), (0, 2, 3), (0, 3, 1), (0, 3, 2),
        (0, 3, 4), (0, 4, 1), (0, 4, 3), (1, 0, 0), (1, 0, 1),
        (1, 0, 2), (1, 0, 3), (1, 0, 4), (1, 1, 0), (1, 1, 1),
        (1, 1, 2), (1, 1, 3), (1, 1, 4), (1, 2, 0), (1, 2, 1),
        (1, 2, 2), (1, 2, 3), (1, 2, 4), (1, 3, 0), (1, 3, 1),
        (1, 3, 2), (1, 3, 3), (1, 3, 4), (1, 4, 0), (1, 4, 1),
        (1, 4, 2), (1, 4, 3), (1, 4, 4), (2, 0, 1), (2, 0, 3),
        (2, 1, 0), (2, 1, 1), (2, 1, 2), (2, 1, 3), (2, 1, 4),
        (2, 2, 1), (2, 2, 3), (2, 3, 0), (2, 3, 1), (2, 3, 2),
        (2, 3, 3), (2, 3, 4), (2, 4, 1), (2, 4, 3), (3, 0, 1),
        (3, 0, 2), (3, 0, 4), (3, 1, 0), (3, 1, 1), (3, 1, 2),
        (3, 1, 3), (3, 1, 4), (3, 2, 0), (3, 2, 1), (3, 2, 2),
        (3, 2, 3), (3, 2, 4), (3, 3, 1), (3, 3, 2), (3, 3, 4),
        (3, 4, 0), (3, 4, 1), (3, 4, 2), (3, 4, 3), (3, 4, 4),
        (4, 0, 1), (4, 0, 3), (4, 1, 0), (4, 1, 1), (4, 1, 2),
        (4, 1, 3), (4, 1, 4), (4, 2, 1), (4, 2, 3), (4, 3, 0),
        (4, 3, 1), (4, 3, 2), (4, 3, 3), (4, 3, 4), (4, 4, 1),
        (4, 4, 3),
    ]
}

/// A letter that stands for no sound of the lists above: neither the mark
/// of a syllable's start nor one of the letters that the weighting rules
/// single out.
pub open spec fn plain_letter(c: char) -> bool {
    c != '\0' && c != 'q' && c != 'u' && c != 'n'
}

/// Every triple of shape weights holds weights from zero to four, one of
/// them positive.
pub proof fn lemma_shape_weight_triples()
    ensures
        shape_weight_triples().len() == 91,
        forall|i: int|
            0 <= i < 91 ==> {
                let t = #[trigger] shape_weight_triples()[i];
                0 <= t.0 <= 4 && 0 <= t.1 <= 4 && 0 <= t.2 <= 4 && t.0 + t.1 + t.2 > 0
            },
{
}

/// The rare letters are sixty-two plain letters.
pub proof fn lemma_spice_letters()
    ensures
        spice_letters().len() == 62,
        forall|i: int| 0 <= i < 62 ==> plain_letter(#[trigger] spice_letters()[i]),
{
}

/// The base vowels are five; the last is `u`, and none is `q`, `n` or the
/// mark of a syllable's start.
pub proof fn lemma_base_vowel_letters()
    ensures
        base_vowel_letters().len() == 5,
        base_vowel_letters()[4] == 'u',
        forall|i: int|
            0 <= i < 5 ==> {
                let c = #[trigger] base_vowel_letters()[i];
                c != 'q' && c != 'n' && c != '\0'
            },
{
}

/// The consonants of one letter are twenty-one, none the mark of a
/// syllable's start; of the five clusters only the first is `ng`.
pub proof fn lemma_consonant_letters()
    ensures
        consonant_letters().len() == 21,
        consonant_clusters().len() == 5,
        forall|i: int| 0 <= i < 21 ==> #[trigger] consonant_letters()[i] != '\0',
        forall|i: int| 0 <= i < 5 ==> (#[trigger] consonant_clusters()[i]).0 != '\0',
        forall|i: int| 0 <= i < 5 ==> (#[trigger] consonant_clusters()[i] == ('n', 'g') <==> i == 0),
{
}

/// A letter of the basic Latin alphabet, as the base vowels and the
/// consonants are; the rare letters and the two ligatures are not.
pub open spec fn basic_letter(c: char) -> bool {
    'a' <= c <= 'z'
}

/// No letter stands twice in a catalog, no base vowel is a consonant or
/// begins a cluster, and no rare letter is a basic letter or one of the two
/// ligatures.
pub proof fn lemma_letters_differ()
    ensures
        forall|i: int, j: int|
            0 <= i < j < 5 ==> #[trigger] base_vowel_letters()[i] != #[trigger] base_vowel_letters()[j],
        forall|i: int, j: int|
            0 <= i < j < 21 ==> #[trigger] consonant_letters()[i] != #[trigger] consonant_letters()[j],
        forall|i: int, j: int|
            0 <= i < j < 5 ==> #[trigger] consonant_clusters()[i] != #[trigger] consonant_clusters()[j],
        forall|i: int, j: int|
            0 <= i < j < 62 ==> #[trigger] spice_letters()[i] != #[trigger] spice_letters()[j],
        forall|i: int| 0 <= i < 5 ==> basic_letter(#[trigger] base_vowel_letters()[i]),
        forall|i: int| 0 <= i < 21 ==> basic_letter(#[trigger] consonant_letters()[i]),
        forall|i: int, j: int|
            0 <= i < 5 && 0 <= j < 21 ==> #[trigger] base_vowel_letters()[i]
                != #[trigger] consonant_letters()[j],
        forall|i: int, j: int|
            0 <= i < 5 && 0 <= j < 5 ==> #[trigger] base_vowel_letters()[i]
                != (#[trigger] consonant_clusters()[j]).0,
        forall|i: int|
            0 <= i < 62 ==> {
                let c = #[trigger] spice_letters()[i];
                !basic_letter(c) && c != '\u{e6}' && c != '\u{153}'
            },
{
}

/// The five base vowels.
pub fn base_vowel_list() -> (letters: Vec<char>)
    ensures
        letters@ == base_vowel_letters(),
{
    vec!['a', 'e', 'i', 'o', 'u']
}

/// The consonants of one letter.
pub fn consonant_letter_list() -> (letters: Vec<char>)
    ensures
        letters@ == consonant_letters(),
{
    vec![
        'b', 'c', 'd', 'f', 'g', 'h', 'j',
        'k', 'l', 'm', 'n', 'p', 'q', 'r',
        's', 't', 'v', 'w', 'x', 'y', 'z',
    ]
}

/// The consonants of two letters.
pub fn consonant_cluster_list() -> (clusters: Vec<(char, char)>)
    ensures
        clusters@ == consonant_clusters(),
{
    vec![('n', 'g'), ('s', 'h'), ('t', 'h'), ('c', 'h'), ('z', 'h')]
}

/// The rare letters: consonants first, vowels after them.
pub fn spice_letter_list() -> (letters: Vec<char>)
    ensures
        letters@ == spice_letters(),
{
    vec![
        '\u{f1}', '\u{144}', '\u{14b}', '\u{e7}', '\u{f0}', '\u{161}',
        '\u{15b}', '\u{111}', '\u{121}', '\u{142}', '\u{155}', '\u{125}',
        '\u{135}', '\u{107}', '\u{109}', '\u{17a}', '\u{17c}', '\u{1e85}',
        '\u{175}', '\u{438}', '\u{439}', '\u{e0}', '\u{e1}', '\u{e2}',
        '\u{e3}', '\u{e4}', '\u{e5}', '\u{101}', '\u{103}', '\u{e8}',
        '\u{e9}', '\u{ea}', '\u{eb}', '\u{113}', '\u{115}', '\u{117}',
        '\u{11b}', '\u{ec}', '\u{ed}', '\u{ee}', '\u{ef}', '\u{129}',
        '\u{12b}', '\u{12d}', '\u{f2}', '\u{f3}', '\u{f4}', '\u{f5}',
        '\u{f6}', '\u{14d}', '\u{14f}', '\u{151}', '\u{f8}', '\u{f9}',
        '\u{fa}', '\u{fb}', '\u{fc}', '\u{169}', '\u{16b}', '\u{16d}',
        '\u{16f}', '\u{171}',
    ]
}

/// The triples of shape weights.
pub fn shape_weight_list() -> (triples: Vec<(i32, i32, i32)>)
    ensures
        triples@ == shape_weight_triples(),
{
    vec![
        (0, 0, 1), (0, 1, 0), (0, 1, 1), (0, 1, 2), (0, 1, 3),
        (0, 1, 4), (0, 2, 1), (0, 2, 3), (0, 3, 1), (0, 3, 2),
        (0, 3, 4), (0, 4, 1), (0, 4, 3), (1, 0, 0), (1, 0, 1),
        (1, 0, 2), (1, 0, 3), (1, 0, 4), (1, 1, 0), (1, 1, 1),
        (1, 1, 2), (1, 1, 3), (1, 1, 4), (1, 2, 0), (1, 2, 1),
        (1, 2, 2), (1, 2, 3), (1, 2, 4), (1, 3, 0), (1, 3, 1),
        (1, 3, 2), (1, 3, 3), (1, 3, 4), (1, 4, 0), (1, 4, 1),
        (1, 4, 2), (1, 4, 3), (1, 4, 4), (2, 0, 1), (2, 0, 3),
        (2, 1, 0), (2, 1, 1), (2, 1, 2), (2, 1, 3), (2, 1, 4),
        (2, 2, 1), (2, 2, 3), (2, 3, 0), (2, 3, 1), (2, 3, 2),
        (2, 3, 3), (2, 3, 4), (2, 4, 1), (2, 4, 3), (3, 0, 1),
        (3, 0, 2), (3, 0, 4), (3, 1, 0), (3, 1, 1), (3, 1, 2),
        (3, 1, 3), (3, 1, 4), (3, 2, 0), (3, 2, 1), (3, 2, 2),
        (3, 2, 3), (3, 2, 4), (3, 3, 1), (3, 3, 2), (3, 3, 4),
        (3, 4, 0), (3, 4, 1), (3, 4, 2), (3, 4, 3), (3, 4, 4),
        (4, 0, 1), (4, 0, 3), (4, 1, 0), (4, 1, 1), (4, 1, 2),
        (4, 1, 3), (4, 1, 4), (4, 2, 1), (4, 2, 3), (4, 3, 0),
        (4, 3, 1), (4, 3, 2), (4, 3, 3), (4, 3, 4), (4, 4, 1),
        (4, 4, 3),
    ]
}

} // verus!
