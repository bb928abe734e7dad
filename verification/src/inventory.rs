//! The phonemes of one language: which vowels and consonants it draws from
//! the catalogs.

use crate::catalog::{
    base_vowel_letters, base_vowel_list, basic_letter, consonant_cluster_list, consonant_clusters,
    consonant_letter_list, consonant_letters, lemma_base_vowel_letters, lemma_consonant_letters,
    lemma_letters_differ, lemma_spice_letters, spice_letter_list, spice_letters, SPICE_CONSONANTS,
};
use crate::render::push_char;
use crate::rng::{distinct_below, draw_sample, sample_draw, stream_of};
use crate::word::SyllablePartType;
use rand_pcg::Pcg64;
use vstd::prelude::*;

verus! {

/// The text of a phoneme of one letter.
pub open spec fn letter_text(c: char) -> Seq<char> {
    seq![c]
}

/// The text of a phoneme of two letters.
pub open spec fn cluster_text(first: char, second: char) -> Seq<char> {
    seq![first, second]
}

/// The mark of a syllable's start: the text that stands before the first
/// phoneme. No phoneme has it.
pub open spec fn sentinel_text() -> Seq<char> {
    letter_text('\0')
}

/// The texts of the strings of a list.
pub open spec fn texts_of(list: Seq<String>) -> Seq<Seq<char>> {
    Seq::new(list.len(), |i: int| list[i]@)
}

/// The five vowels from which a language takes its base vowels.
pub open spec fn vowel_catalog() -> Seq<Seq<char>> {
    Seq::new(5, |i: int| letter_text(base_vowel_letters()[i]))
}

/// The twenty-six consonants from which a language takes sixteen.
pub open spec fn consonant_catalog() -> Seq<Seq<char>> {
    Seq::new(
        26,
        |i: int|
            if i < 21 {
                letter_text(consonant_letters()[i])
            } else {
                cluster_text(consonant_clusters()[i - 21].0, consonant_clusters()[i - 21].1)
            },
    )
}

/// The twenty-seven diphthongs from which a language takes three: two
/// ligatures, then every ordered pair of base vowels.
pub open spec fn diphthong_catalog() -> Seq<Seq<char>> {
    Seq::new(
        27,
        |i: int|
            if i == 0 {
                letter_text('\u{e6}')
            } else if i == 1 {
                letter_text('\u{153}')
            } else {
                cluster_text(base_vowel_letters()[(i - 2) / 5], base_vowel_letters()[(i - 2) % 5])
            },
    )
}

/// The category of the rare letter at `i` of its catalog.
pub open spec fn spice_type(i: int) -> SyllablePartType {
    if i < SPICE_CONSONANTS {
        SyllablePartType::Consonant
    } else {
        SyllablePartType::Vowel
    }
}

/// The catalog items at the picked positions, in the order of the picks.
pub open spec fn picked(catalog: Seq<Seq<char>>, picks: Seq<usize>) -> Seq<Seq<char>> {
    Seq::new(picks.len(), |k: int| catalog[picks[k] as int])
}

/// The rare letters of category `part_type` among the picked ones, in the
/// order of the picks.
pub open spec fn picked_spice(picks: Seq<usize>, part_type: SyllablePartType) -> Seq<Seq<char>>
    decreases picks.len(),
{
    if picks.len() == 0 {
        Seq::empty()
    } else if spice_type(picks.last() as int) == part_type {
        picked_spice(picks.drop_last(), part_type).push(
            letter_text(spice_letters()[picks.last() as int]),
        )
    } else {
        picked_spice(picks.drop_last(), part_type)
    }
}

/// The phonemes of a language.
pub struct InventoryView {
    pub vowels: Seq<Seq<char>>,
    pub consonants: Seq<Seq<char>>,
}

/// The inventory that four samples give: the base vowels, then the
/// diphthongs, then the rare vowels; the consonants, then the rare
/// consonants.
pub open spec fn inventory_of(
    vowel_picks: Seq<usize>,
    consonant_picks: Seq<usize>,
    spice_picks: Seq<usize>,
    diphthong_picks: Seq<usize>,
) -> InventoryView {
    InventoryView {
        vowels: picked(vowel_catalog(), vowel_picks) + picked(diphthong_catalog(), diphthong_picks)
            + picked_spice(spice_picks, SyllablePartType::Vowel),
        consonants: picked(consonant_catalog(), consonant_picks) + picked_spice(
            spice_picks,
            SyllablePartType::Consonant,
        ),
    }
}

/// The inventory drawn from a stream, and the stream after it. The stream
/// gives the base vowels first, then the consonants, the rare letters and
/// the diphthongs.
pub open spec fn inventory_draw(stream: (u128, u128)) -> (InventoryView, (u128, u128)) {
    let (vowel_picks, s1) = sample_draw(stream, 5, 6);
    let (consonant_picks, s2) = sample_draw(s1, 26, 16);
    let (spice_picks, s3) = sample_draw(s2, 62, 2);
    let (diphthong_picks, s4) = sample_draw(s3, 27, 3);
    (inventory_of(vowel_picks, consonant_picks, spice_picks, diphthong_picks), s4)
}

/// A text that can stand as a vowel: it is not empty and does not begin
/// with `q`, `n` or the mark of a syllable's start.
pub open spec fn vowel_text(text: Seq<char>) -> bool {
    text.len() >= 1 && text[0] != 'q' && text[0] != 'n' && text[0] != '\0'
}

/// A text that can stand as a consonant: it is not empty and does not
/// begin with the mark of a syllable's start.
pub open spec fn consonant_text(text: Seq<char>) -> bool {
    text.len() >= 1 && text[0] != '\0'
}

/// All the phonemes of an inventory: the vowels, then the consonants.
pub open spec fn all_phonemes(inventory: InventoryView) -> Seq<Seq<char>> {
    inventory.vowels + inventory.consonants
}

/// What holds of every inventory that is drawn: eight to ten vowels, `u`
/// among the first five; sixteen to eighteen consonants; twenty-six
/// phonemes in all, no two of them the same text and none of them the mark
/// of a syllable's start.
pub open spec fn inventory_sound(inventory: InventoryView) -> bool {
    &&& 8 <= inventory.vowels.len() <= 10
    &&& 16 <= inventory.consonants.len() <= 18
    &&& inventory.vowels.len() + inventory.consonants.len() == 26
    &&& forall|i: int| 0 <= i < inventory.vowels.len() ==> vowel_text(#[trigger] inventory.vowels[i])
    &&& forall|i: int|
        0 <= i < inventory.consonants.len() ==> consonant_text(#[trigger] inventory.consonants[i])
    &&& exists|i: int| 0 <= i < 5 && #[trigger] inventory.vowels[i] == letter_text('u')
    &&& all_phonemes(inventory).no_duplicates()
    &&& !all_phonemes(inventory).contains(sentinel_text())
}

/// Each rare letter picked for a category is the text of a picked letter of
/// that category, and a plain letter; they are at most as many as the
/// picks; and where no place is picked twice no text comes twice.
pub proof fn lemma_picked_spice(picks: Seq<usize>, part_type: SyllablePartType)
    requires
        forall|i: int| 0 <= i < picks.len() ==> #[trigger] picks[i] < 62,
    ensures
        picked_spice(picks, part_type).len() <= picks.len(),
        forall|i: int|
            0 <= i < picked_spice(picks, part_type).len() ==> {
                let text = #[trigger] picked_spice(picks, part_type)[i];
                text.len() == 1 && text[0] != '\0' && text[0] != 'q' && text[0] != 'u' && text[0]
                    != 'n'
            },
        forall|i: int|
            0 <= i < picked_spice(picks, part_type).len() ==> exists|k: int|
                0 <= k < picks.len() && spice_type(picks[k] as int) == part_type
                    && #[trigger] picked_spice(picks, part_type)[i] == letter_text(
                    #[trigger] spice_letters()[picks[k] as int],
                ),
        distinct_below(picks, 62) ==> picked_spice(picks, part_type).no_duplicates(),
    decreases picks.len(),
{
    let all = picked_spice(picks, part_type);
    if picks.len() > 0 {
        let init = picks.drop_last();
        let before = picked_spice(init, part_type);
        lemma_picked_spice(init, part_type);
        lemma_spice_letters();
        lemma_letters_differ();
        let last = picks.last() as int;
        assert(picks[picks.len() - 1] < 62);
        assert forall|i: int| 0 <= i < all.len() implies exists|k: int|
            0 <= k < picks.len() && spice_type(picks[k] as int) == part_type && #[trigger] all[i]
                == letter_text(#[trigger] spice_letters()[picks[k] as int]) by {
            if i < before.len() {
                let k = choose|k: int|
                    0 <= k < init.len() && spice_type(init[k] as int) == part_type && before[i]
                        == letter_text(#[trigger] spice_letters()[init[k] as int]);
                assert(init[k] == picks[k]);
                assert(all[i] == letter_text(spice_letters()[picks[k] as int]));
            } else {
                assert(all[i] == letter_text(spice_letters()[picks[picks.len() - 1] as int]));
            }
        }
        if distinct_below(picks, 62) {
            assert(distinct_below(init, 62)) by {
                assert forall|i: int, j: int| 0 <= i < j < init.len() implies #[trigger] init[i]
                    != #[trigger] init[j] by {
                    assert(picks[i] != picks[j]);
                }
                assert forall|i: int| 0 <= i < init.len() implies #[trigger] init[i] < 62 by {
                    assert(picks[i] < 62);
                }
            }
            assert forall|i: int, j: int| 0 <= i < j < all.len() implies all[i] != all[j] by {
                if j < before.len() {
                    assert(before[i] != before[j]);
                } else {
                    let k = choose|k: int|
                        0 <= k < init.len() && spice_type(init[k] as int) == part_type && before[i]
                            == letter_text(#[trigger] spice_letters()[init[k] as int]);
                    assert(picks[k] != picks[picks.len() - 1]);
                    let one = picks[k] as int;
                    if one < last {
                        assert(spice_letters()[one] != spice_letters()[last]);
                    } else {
                        assert(spice_letters()[last] != spice_letters()[one]);
                    }
                    assert(letter_text(spice_letters()[one])[0] != letter_text(
                        spice_letters()[last],
                    )[0]);
                }
            }
        }
    }
}

/// Each picked place gives one rare letter, a vowel or a consonant.
pub proof fn lemma_picked_spice_split(picks: Seq<usize>)
    ensures
        picked_spice(picks, SyllablePartType::Vowel).len() + picked_spice(
            picks,
            SyllablePartType::Consonant,
        ).len() == picks.len(),
    decreases picks.len(),
{
    if picks.len() > 0 {
        lemma_picked_spice_split(picks.drop_last());
    }
}

/// The texts of a catalog differ wherever the places differ.
pub proof fn lemma_catalogs_differ()
    ensures
        forall|i: int, j: int|
            0 <= i < 5 && 0 <= j < 5 && i != j ==> #[trigger] vowel_catalog()[i]
                != #[trigger] vowel_catalog()[j],
        forall|i: int, j: int|
            0 <= i < 26 && 0 <= j < 26 && i != j ==> #[trigger] consonant_catalog()[i]
                != #[trigger] consonant_catalog()[j],
        forall|i: int, j: int|
            0 <= i < 27 && 0 <= j < 27 && i != j ==> #[trigger] diphthong_catalog()[i]
                != #[trigger] diphthong_catalog()[j],
{
    lemma_letters_differ();
    lemma_base_vowel_letters();
    lemma_consonant_letters();
    assert forall|i: int, j: int| 0 <= i < 5 && 0 <= j < 5 && i != j implies #[trigger] vowel_catalog()[i]
        != #[trigger] vowel_catalog()[j] by {
        let a = base_vowel_letters()[i];
        let b = base_vowel_letters()[j];
        assert(a != b) by {
            if i < j {
                assert(base_vowel_letters()[i] != base_vowel_letters()[j]);
            } else {
                assert(base_vowel_letters()[j] != base_vowel_letters()[i]);
            }
        }
        assert(letter_text(a)[0] != letter_text(b)[0]);
    }
    assert forall|i: int, j: int|
        0 <= i < 26 && 0 <= j < 26 && i != j implies #[trigger] consonant_catalog()[i]
        != #[trigger] consonant_catalog()[j] by {
        let x = consonant_catalog()[i];
        let y = consonant_catalog()[j];
        if i < 21 && j < 21 {
            let a = consonant_letters()[i];
            let b = consonant_letters()[j];
            assert(a != b) by {
                if i < j {
                    assert(consonant_letters()[i] != consonant_letters()[j]);
                } else {
                    assert(consonant_letters()[j] != consonant_letters()[i]);
                }
            }
            assert(x[0] != y[0]);
        } else if i >= 21 && j >= 21 {
            let a = consonant_clusters()[i - 21];
            let b = consonant_clusters()[j - 21];
            assert(a != b) by {
                if i < j {
                    assert(consonant_clusters()[i - 21] != consonant_clusters()[j - 21]);
                } else {
                    assert(consonant_clusters()[j - 21] != consonant_clusters()[i - 21]);
                }
            }
            assert(x[0] == a.0 && x[1] == a.1 && y[0] == b.0 && y[1] == b.1);
        } else {
            assert(x.len() != y.len());
        }
    }
    assert forall|i: int, j: int|
        0 <= i < 27 && 0 <= j < 27 && i != j implies #[trigger] diphthong_catalog()[i]
        != #[trigger] diphthong_catalog()[j] by {
        let x = diphthong_catalog()[i];
        let y = diphthong_catalog()[j];
        if i < 2 && j < 2 {
            assert(x[0] != y[0]);
        } else if i >= 2 && j >= 2 {
            let a = (i - 2) / 5;
            let b = (i - 2) % 5;
            let c = (j - 2) / 5;
            let d = (j - 2) % 5;
            assert(a != c || b != d);
            assert(x[0] == base_vowel_letters()[a] && x[1] == base_vowel_letters()[b]);
            assert(y[0] == base_vowel_letters()[c] && y[1] == base_vowel_letters()[d]);
            if a != c {
                if a < c {
                    assert(base_vowel_letters()[a] != base_vowel_letters()[c]);
                } else {
                    assert(base_vowel_letters()[c] != base_vowel_letters()[a]);
                }
            } else {
                if b < d {
                    assert(base_vowel_letters()[b] != base_vowel_letters()[d]);
                } else {
                    assert(base_vowel_letters()[d] != base_vowel_letters()[b]);
                }
            }
        } else {
            assert(x.len() != y.len());
        }
    }
}

/// Whatever the four samples hold, as long as each names different places
/// of its catalog, the inventory they give is sound.
pub proof fn lemma_inventory_sound(
    vowel_picks: Seq<usize>,
    consonant_picks: Seq<usize>,
    spice_picks: Seq<usize>,
    diphthong_picks: Seq<usize>,
)
    requires
        vowel_picks.len() == 5,
        distinct_below(vowel_picks, 5),
        consonant_picks.len() == 16,
        distinct_below(consonant_picks, 26),
        spice_picks.len() == 2,
        distinct_below(spice_picks, 62),
        diphthong_picks.len() == 3,
        distinct_below(diphthong_picks, 27),
    ensures
        inventory_sound(
            inventory_of(vowel_picks, consonant_picks, spice_picks, diphthong_picks),
        ),
{
    let inventory = inventory_of(vowel_picks, consonant_picks, spice_picks, diphthong_picks);
    let rare_vowels = picked_spice(spice_picks, SyllablePartType::Vowel);
    let rare_consonants = picked_spice(spice_picks, SyllablePartType::Consonant);
    lemma_base_vowel_letters();
    lemma_consonant_letters();
    lemma_picked_spice(spice_picks, SyllablePartType::Vowel);
    lemma_picked_spice(spice_picks, SyllablePartType::Consonant);
    lemma_picked_spice_split(spice_picks);
    assert forall|i: int| 0 <= i < inventory.vowels.len() implies vowel_text(
        #[trigger] inventory.vowels[i],
    ) by {
        if i < 5 {
            assert(inventory.vowels[i] == vowel_catalog()[vowel_picks[i] as int]);
        } else if i < 8 {
            let d = diphthong_picks[i - 5] as int;
            assert(inventory.vowels[i] == diphthong_catalog()[d]);
            if d >= 2 {
                assert(0 <= (d - 2) / 5 < 5);
            }
        } else {
            assert(inventory.vowels[i] == rare_vowels[i - 8]);
        }
    }
    assert forall|i: int| 0 <= i < inventory.consonants.len() implies consonant_text(
        #[trigger] inventory.consonants[i],
    ) by {
        if i < 16 {
            assert(inventory.consonants[i] == consonant_catalog()[consonant_picks[i] as int]);
        } else {
            assert(inventory.consonants[i] == rare_consonants[i - 16]);
        }
    }
    assert(exists|i: int| 0 <= i < 5 && #[trigger] inventory.vowels[i] == letter_text('u')) by {
        assert(vowel_picks[0] == 4 || vowel_picks[1] == 4 || vowel_picks[2] == 4 || vowel_picks[3]
            == 4 || vowel_picks[4] == 4);
        let k = choose|k: int| 0 <= k < 5 && vowel_picks[k] == 4;
        assert(inventory.vowels[k] == vowel_catalog()[vowel_picks[k] as int]);
        assert(inventory.vowels[k] =~= letter_text('u'));
    }
    lemma_phonemes_differ(vowel_picks, consonant_picks, spice_picks, diphthong_picks);
    let all = all_phonemes(inventory);
    assert forall|i: int| 0 <= i < all.len() implies #[trigger] all[i] != sentinel_text() by {
        if i < inventory.vowels.len() {
            assert(vowel_text(inventory.vowels[i]));
        } else {
            assert(consonant_text(inventory.consonants[i - inventory.vowels.len()]));
        }
        assert(sentinel_text()[0] == '\0');
    }
}

/// How a phoneme of a drawn inventory is spelled: with one basic letter,
/// with one of the two ligatures, with two letters, or with a rare letter.
pub open spec fn spelling(text: Seq<char>) -> int {
    if text.len() != 1 {
        2
    } else if basic_letter(text[0]) {
        0
    } else if text[0] == '\u{e6}' || text[0] == '\u{153}' {
        1
    } else {
        3
    }
}

/// No two phonemes of the inventory that four samples give are the same
/// text.
pub proof fn lemma_phonemes_differ(
    vowel_picks: Seq<usize>,
    consonant_picks: Seq<usize>,
    spice_picks: Seq<usize>,
    diphthong_picks: Seq<usize>,
)
    requires
        vowel_picks.len() == 5,
        distinct_below(vowel_picks, 5),
        consonant_picks.len() == 16,
        distinct_below(consonant_picks, 26),
        spice_picks.len() == 2,
        distinct_below(spice_picks, 62),
        diphthong_picks.len() == 3,
        distinct_below(diphthong_picks, 27),
    ensures
        all_phonemes(
            inventory_of(vowel_picks, consonant_picks, spice_picks, diphthong_picks),
        ).no_duplicates(),
{
    let inventory = inventory_of(vowel_picks, consonant_picks, spice_picks, diphthong_picks);
    let all = all_phonemes(inventory);
    let rare_vowels = picked_spice(spice_picks, SyllablePartType::Vowel);
    let rare_consonants = picked_spice(spice_picks, SyllablePartType::Consonant);
    let vowels = inventory.vowels.len() as int;
    lemma_base_vowel_letters();
    lemma_consonant_letters();
    lemma_letters_differ();
    lemma_catalogs_differ();
    lemma_picked_spice(spice_picks, SyllablePartType::Vowel);
    lemma_picked_spice(spice_picks, SyllablePartType::Consonant);
    assert forall|i: int| 0 <= i < 5 implies #[trigger] all[i] == vowel_catalog()[vowel_picks[i] as int]
        && spelling(all[i]) == 0 by {
        assert(inventory.vowels[i] == vowel_catalog()[vowel_picks[i] as int]);
    }
    assert forall|i: int| 5 <= i < 8 implies #[trigger] all[i] == diphthong_catalog()[diphthong_picks[i
        - 5] as int] && (spelling(all[i]) == 1 || spelling(all[i]) == 2) by {
        assert(inventory.vowels[i] == diphthong_catalog()[diphthong_picks[i - 5] as int]);
    }
    assert forall|i: int| 8 <= i < vowels implies #[trigger] all[i] == rare_vowels[i - 8]
        && spelling(all[i]) == 3 by {
        assert(inventory.vowels[i] == rare_vowels[i - 8]);
        let k = choose|k: int|
            0 <= k < spice_picks.len() && spice_type(spice_picks[k] as int)
                == SyllablePartType::Vowel && rare_vowels[i - 8] == letter_text(
                #[trigger] spice_letters()[spice_picks[k] as int],
            );
        assert(spice_picks[k] < 62);
    }
    assert forall|i: int| vowels <= i < vowels + 16 implies #[trigger] all[i]
        == consonant_catalog()[consonant_picks[i - vowels] as int] && (spelling(all[i]) == 0
        || spelling(all[i]) == 2) by {
        assert(inventory.consonants[i - vowels] == consonant_catalog()[consonant_picks[i
            - vowels] as int]);
    }
    assert forall|i: int| vowels + 16 <= i < all.len() implies #[trigger] all[i]
        == rare_consonants[i - vowels - 16] && spelling(all[i]) == 3 by {
        assert(inventory.consonants[i - vowels] == rare_consonants[i - vowels - 16]);
        let k = choose|k: int|
            0 <= k < spice_picks.len() && spice_type(spice_picks[k] as int)
                == SyllablePartType::Consonant && rare_consonants[i - vowels - 16] == letter_text(
                #[trigger] spice_letters()[spice_picks[k] as int],
            );
        assert(spice_picks[k] < 62);
    }
    assert forall|i: int, j: int| 0 <= i < j < all.len() implies all[i] != all[j] by {
        if j < 5 {
            assert(vowel_picks[i] != vowel_picks[j]);
        } else if i < 5 {
            if vowels <= j < vowels + 16 {
                let a = vowel_picks[i] as int;
                let b = consonant_picks[j - vowels] as int;
                if b < 21 {
                    assert(base_vowel_letters()[a] != consonant_letters()[b]);
                    assert(all[i][0] != all[j][0]);
                }
            }
        } else if i < 8 {
            if j < 8 {
                assert(diphthong_picks[i - 5] != diphthong_picks[j - 5]);
            } else if vowels <= j < vowels + 16 {
                let a = diphthong_picks[i - 5] as int;
                let b = consonant_picks[j - vowels] as int;
                if a >= 2 && b >= 21 {
                    assert(0 <= (a - 2) / 5 < 5);
                    assert(base_vowel_letters()[(a - 2) / 5] != consonant_clusters()[b - 21].0);
                    assert(all[i][0] != all[j][0]);
                }
            }
        } else if i < vowels {
            if j < vowels {
                assert(rare_vowels[i - 8] != rare_vowels[j - 8]);
            } else if j >= vowels + 16 {
                let k = choose|k: int|
                    0 <= k < spice_picks.len() && spice_type(spice_picks[k] as int)
                        == SyllablePartType::Vowel && rare_vowels[i - 8] == letter_text(
                        #[trigger] spice_letters()[spice_picks[k] as int],
                    );
                let m = choose|m: int|
                    0 <= m < spice_picks.len() && spice_type(spice_picks[m] as int)
                        == SyllablePartType::Consonant && rare_consonants[j - vowels - 16]
                        == letter_text(#[trigger] spice_letters()[spice_picks[m] as int]);
                let one = spice_picks[k] as int;
                let other = spice_picks[m] as int;
                assert(other < one);
                assert(spice_letters()[other] != spice_letters()[one]);
                assert(all[i][0] != all[j][0]);
            }
        } else if i < vowels + 16 {
            if j < vowels + 16 {
                assert(consonant_picks[i - vowels] != consonant_picks[j - vowels]);
            }
        } else {
            assert(rare_consonants[i - vowels - 16] != rare_consonants[j - vowels - 16]);
        }
    }
}

/// A string of one letter.
pub fn letter_string(c: char) -> (text: String)
    ensures
        text@ == letter_text(c),
{
    let mut text = String::new();
    push_char(&mut text, c);
    assert(text@ =~= letter_text(c));
    text
}

/// A string of two letters.
pub fn cluster_string(first: char, second: char) -> (text: String)
    ensures
        text@ == cluster_text(first, second),
{
    let mut text = String::new();
    push_char(&mut text, first);
    push_char(&mut text, second);
    assert(text@ =~= cluster_text(first, second));
    text
}

/// The vowels from which a language takes its base vowels.
pub fn vowel_candidates() -> (list: Vec<String>)
    ensures
        texts_of(list@) == vowel_catalog(),
{
    let letters = base_vowel_list();
    let mut list: Vec<String> = Vec::new();
    let mut i: usize = 0;
    while i < letters.len()
        invariant
            letters@ == base_vowel_letters(),
            i <= letters@.len(),
            list@.len() == i,
            forall|k: int| 0 <= k < i ==> (#[trigger] list@[k])@ == letter_text(letters@[k]),
        decreases letters@.len() - i,
    {
        list.push(letter_string(letters[i]));
        i = i + 1;
    }
    proof {
        lemma_base_vowel_letters();
        assert(texts_of(list@) =~= vowel_catalog());
    }
    list
}

/// The consonants from which a language takes its consonants.
pub fn consonant_candidates() -> (list: Vec<String>)
    ensures
        texts_of(list@) == consonant_catalog(),
{
    let letters = consonant_letter_list();
    let clusters = consonant_cluster_list();
    let mut list: Vec<String> = Vec::new();
    let mut i: usize = 0;
    while i < letters.len()
        invariant
            letters@ == consonant_letters(),
            i <= letters@.len(),
            list@.len() == i,
            forall|k: int| 0 <= k < i ==> (#[trigger] list@[k])@ == letter_text(letters@[k]),
        decreases letters@.len() - i,
    {
        list.push(letter_string(letters[i]));
        i = i + 1;
    }
    let mut j: usize = 0;
    while j < clusters.len()
        invariant
            letters@ == consonant_letters(),
            clusters@ == consonant_clusters(),
            j <= clusters@.len(),
            list@.len() == letters@.len() + j,
            forall|k: int|
                0 <= k < letters@.len() ==> (#[trigger] list@[k])@ == letter_text(letters@[k]),
            forall|k: int|
                0 <= k < j ==> (#[trigger] list@[letters@.len() + k])@ == cluster_text(
                    clusters@[k].0,
                    clusters@[k].1,
                ),
        decreases clusters@.len() - j,
    {
        list.push(cluster_string(clusters[j].0, clusters[j].1));
        j = j + 1;
    }
    proof {
        lemma_consonant_letters();
        assert forall|k: int| 0 <= k < 26 implies texts_of(list@)[k] == consonant_catalog()[k] by {
            if k >= 21 {
                assert(list@[21 + (k - 21)]@ == cluster_text(
                    clusters@[k - 21].0,
                    clusters@[k - 21].1,
                ));
            }
        }
        assert(texts_of(list@) =~= consonant_catalog());
    }
    list
}

/// The diphthongs from which a language takes its diphthongs.
pub fn diphthong_candidates() -> (list: Vec<String>)
    ensures
        texts_of(list@) == diphthong_catalog(),
{
    let letters = base_vowel_list();
    let mut list: Vec<String> = Vec::new();
    list.push(letter_string('\u{e6}'));
    list.push(letter_string('\u{153}'));
    proof {
        lemma_base_vowel_letters();
    }
    let mut i: usize = 0;
    while i < 5
        invariant
            letters@ == base_vowel_letters(),
            letters@.len() == 5,
            i <= 5,
            list@.len() == 2 + 5 * i,
            forall|k: int|
                0 <= k < list@.len() ==> (#[trigger] list@[k])@ == diphthong_catalog()[k],
        decreases 5 - i,
    {
        let mut j: usize = 0;
        while j < 5
            invariant
                letters@ == base_vowel_letters(),
                letters@.len() == 5,
                i < 5,
                j <= 5,
                list@.len() == 2 + 5 * i + j,
                forall|k: int|
                    0 <= k < list@.len() ==> (#[trigger] list@[k])@ == diphthong_catalog()[k],
            decreases 5 - j,
        {
            proof {
                let k = 2 + 5 * i + j;
                assert((k - 2) / 5 == i && (k - 2) % 5 == j);
            }
            list.push(cluster_string(letters[i], letters[j]));
            j = j + 1;
        }
        i = i + 1;
    }
    assert(texts_of(list@) =~= diphthong_catalog());
    list
}

/// Copies of the candidates at the picked positions, in the order of the
/// picks.
pub fn pick_texts(candidates: &Vec<String>, picks: &Vec<usize>) -> (list: Vec<String>)
    requires
        forall|k: int| 0 <= k < picks@.len() ==> #[trigger] picks@[k] < candidates@.len(),
    ensures
        texts_of(list@) == picked(texts_of(candidates@), picks@),
{
    let mut list: Vec<String> = Vec::new();
    let mut k: usize = 0;
    while k < picks.len()
        invariant
            k <= picks@.len(),
            list@.len() == k,
            forall|m: int| 0 <= m < picks@.len() ==> #[trigger] picks@[m] < candidates@.len(),
            forall|m: int| 0 <= m < k ==> (#[trigger] list@[m])@ == candidates@[picks@[m] as int]@,
        decreases picks@.len() - k,
    {
        list.push(candidates[picks[k]].clone());
        k = k + 1;
    }
    assert(texts_of(list@) =~= picked(texts_of(candidates@), picks@));
    list
}

/// Draws the base vowels of a language: all five, in a drawn order.
pub fn random_vowels(rng: &mut Pcg64) -> (vowels: Vec<String>)
    ensures
        texts_of(vowels@) == picked(vowel_catalog(), sample_draw(stream_of(*old(rng)), 5, 6).0),
        stream_of(*final(rng)) == sample_draw(stream_of(*old(rng)), 5, 6).1,
        vowels@.len() == 5,
        distinct_below(sample_draw(stream_of(*old(rng)), 5, 6).0, 5),
{
    let candidates = vowel_candidates();
    assert(candidates@.len() == texts_of(candidates@).len());
    let picks = draw_sample(rng, candidates.len(), 6);
    let vowels = pick_texts(&candidates, &picks);
    assert(vowels@.len() == texts_of(vowels@).len());
    vowels
}

/// Draws three diphthongs.
pub fn random_diphthongs(rng: &mut Pcg64) -> (diphthongs: Vec<String>)
    ensures
        texts_of(diphthongs@) == picked(
            diphthong_catalog(),
            sample_draw(stream_of(*old(rng)), 27, 3).0,
        ),
        stream_of(*final(rng)) == sample_draw(stream_of(*old(rng)), 27, 3).1,
        diphthongs@.len() == 3,
        distinct_below(sample_draw(stream_of(*old(rng)), 27, 3).0, 27),
{
    let candidates = diphthong_candidates();
    assert(candidates@.len() == texts_of(candidates@).len());
    let picks = draw_sample(rng, candidates.len(), 3);
    let diphthongs = pick_texts(&candidates, &picks);
    assert(diphthongs@.len() == texts_of(diphthongs@).len());
    diphthongs
}

/// Draws sixteen consonants.
pub fn random_consonants(rng: &mut Pcg64) -> (consonants: Vec<String>)
    ensures
        texts_of(consonants@) == picked(
            consonant_catalog(),
            sample_draw(stream_of(*old(rng)), 26, 16).0,
        ),
        stream_of(*final(rng)) == sample_draw(stream_of(*old(rng)), 26, 16).1,
        consonants@.len() == 16,
        distinct_below(sample_draw(stream_of(*old(rng)), 26, 16).0, 26),
{
    let candidates = consonant_candidates();
    assert(candidates@.len() == texts_of(candidates@).len());
    let picks = draw_sample(rng, candidates.len(), 16);
    let consonants = pick_texts(&candidates, &picks);
    assert(consonants@.len() == texts_of(consonants@).len());
    consonants
}

/// The picked rare letters with their categories, in the order of the
/// picks.
pub open spec fn spice_of(picks: Seq<usize>) -> Seq<(Seq<char>, SyllablePartType)> {
    Seq::new(
        picks.len(),
        |k: int| (letter_text(spice_letters()[picks[k] as int]), spice_type(picks[k] as int)),
    )
}

/// The rare letters of a drawn list, as texts with their categories.
pub open spec fn spice_texts(list: Seq<(String, SyllablePartType)>) -> Seq<
    (Seq<char>, SyllablePartType),
> {
    Seq::new(list.len(), |k: int| (list[k].0@, list[k].1))
}

/// Draws two rare letters, each with its category.
pub fn random_spice(rng: &mut Pcg64) -> (spice: Vec<(String, SyllablePartType)>)
    ensures
        spice_texts(spice@) == spice_of(sample_draw(stream_of(*old(rng)), 62, 2).0),
        stream_of(*final(rng)) == sample_draw(stream_of(*old(rng)), 62, 2).1,
        spice@.len() == 2,
        distinct_below(sample_draw(stream_of(*old(rng)), 62, 2).0, 62),
{
    let letters = spice_letter_list();
    proof {
        lemma_spice_letters();
    }
    let picks = draw_sample(rng, letters.len(), 2);
    let mut spice: Vec<(String, SyllablePartType)> = Vec::new();
    let mut k: usize = 0;
    while k < picks.len()
        invariant
            letters@ == spice_letters(),
            letters@.len() == 62,
            distinct_below(picks@, 62),
            k <= picks@.len(),
            spice@.len() == k,
            forall|m: int|
                0 <= m < k ==> (#[trigger] spice@[m]).0@ == letter_text(
                    spice_letters()[picks@[m] as int],
                ) && spice@[m].1 == spice_type(picks@[m] as int),
        decreases picks@.len() - k,
    {
        let at = picks[k];
        let part_type = if at < SPICE_CONSONANTS {
            SyllablePartType::Consonant
        } else {
            SyllablePartType::Vowel
        };
        spice.push((letter_string(letters[at]), part_type));
        k = k + 1;
    }
    assert(spice_texts(spice@) =~= spice_of(picks@));
    spice
}

/// Draws the inventory of a language. The base vowels come first from the
/// stream, then the consonants, the rare letters and the diphthongs; the
/// vowels are listed base vowels first, diphthongs next and rare vowels
/// last, the consonants with the rare ones last.
pub fn draw_inventory(rng: &mut Pcg64) -> (lists: (Vec<String>, Vec<String>))
    ensures
        (InventoryView { vowels: texts_of(lists.0@), consonants: texts_of(lists.1@) })
            == inventory_draw(stream_of(*old(rng))).0,
        stream_of(*final(rng)) == inventory_draw(stream_of(*old(rng))).1,
        inventory_sound(
            InventoryView { vowels: texts_of(lists.0@), consonants: texts_of(lists.1@) },
        ),
{
    let ghost s0 = stream_of(*rng);
    let mut vowels = random_vowels(rng);
    let ghost s1 = stream_of(*rng);
    let mut consonants = random_consonants(rng);
    let ghost s2 = stream_of(*rng);
    let spice = random_spice(rng);
    let ghost s3 = stream_of(*rng);
    let mut diphthongs = random_diphthongs(rng);
    let ghost vowel_picks = sample_draw(s0, 5, 6).0;
    let ghost consonant_picks = sample_draw(s1, 26, 16).0;
    let ghost spice_picks = sample_draw(s2, 62, 2).0;
    let ghost diphthong_picks = sample_draw(s3, 27, 3).0;
    let ghost base = texts_of(vowels@);
    let ghost doubles = texts_of(diphthongs@);
    let ghost plain = texts_of(consonants@);
    proof {
        assert(vowel_picks.len() == base.len());
        assert(consonant_picks.len() == plain.len());
        assert(diphthong_picks.len() == doubles.len());
        assert(spice_picks.len() == spice_texts(spice@).len());
    }
    vowels.append(&mut diphthongs);
    assert(texts_of(vowels@) =~= base + doubles);
    let mut k: usize = 0;
    while k < spice.len()
        invariant
            k <= spice@.len(),
            spice@.len() == spice_picks.len(),
            spice_texts(spice@) == spice_of(spice_picks),
            texts_of(vowels@) == base + doubles + picked_spice(
                spice_picks.take(k as int),
                SyllablePartType::Vowel,
            ),
            texts_of(consonants@) == plain + picked_spice(
                spice_picks.take(k as int),
                SyllablePartType::Consonant,
            ),
        decreases spice@.len() - k,
    {
        proof {
            let next = spice_picks.take(k + 1);
            assert(next.drop_last() =~= spice_picks.take(k as int));
            assert(next.last() == spice_picks[k as int]);
            assert(spice_texts(spice@)[k as int] == spice_of(spice_picks)[k as int]);
        }
        let ghost before_vowels = texts_of(vowels@);
        let ghost before_consonants = texts_of(consonants@);
        match spice[k].1 {
            SyllablePartType::Vowel => {
                vowels.push(spice[k].0.clone());
                assert(texts_of(vowels@) =~= before_vowels.push(spice@[k as int].0@));
            },
            SyllablePartType::Consonant => {
                consonants.push(spice[k].0.clone());
                assert(texts_of(consonants@) =~= before_consonants.push(spice@[k as int].0@));
            },
        }
        k = k + 1;
    }
    proof {
        assert(spice_picks.take(k as int) =~= spice_picks);
        lemma_inventory_sound(vowel_picks, consonant_picks, spice_picks, diphthong_picks);
    }
    (vowels, consonants)
}

} // verus!
