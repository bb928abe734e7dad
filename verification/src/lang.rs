//! A synthetic language: its inventory, its table of transitions, its shape
//! weights and its stream, and the words drawn from them.

use crate::choice::draw_position;
use crate::catalog::{lemma_shape_weight_triples, shape_weight_list, shape_weight_triples};
use crate::inventory::{
    consonant_text, draw_inventory, inventory_draw, inventory_sound, letter_string, letter_text,
    sentinel_text, texts_of, vowel_text, InventoryView,
};
use crate::render::collapse;
use crate::rng::{
    choice_draw, draw_choice, draw_range, range_draw, seed_rng, seeded_stream, stream_of,
    weighted_draw,
};
use crate::table::{
    build_table, entry_sound, has_positive, lemma_lookup_is_map, lookup, table_draw, table_map,
    table_sound, EntryView, TransitionTable,
};
use crate::word::{
    all_conform, all_spelled, categories, compound_parts, conforms, has_shape,
    lemma_compound_bounds, lemma_compound_conforms, lemma_compound_from_operands,
    lemma_conforming_shape, lemma_rendered_not_empty, shape_of, views_of, word_text, CompoundRule,
    PartView, Syllable, SyllablePart, SyllablePartType, SyllableType, Word, WordView,
};
use rand_pcg::Pcg64;
use vstd::pervasive::unreached;
use vstd::prelude::*;

verus! {

/// A language and its stream of random numbers.
#[derive(Debug)]
pub struct SynthLang {
    consonants: Vec<String>,
    vowels: Vec<String>,
    vc_weight: i32,
    cv_weight: i32,
    cvc_weight: i32,
    next_part_weights: TransitionTable,
    rng: Pcg64,
}

/// A language as a value.
pub struct LangView {
    pub vowels: Seq<Seq<char>>,
    pub consonants: Seq<Seq<char>>,
    pub cv_weight: i32,
    pub vc_weight: i32,
    pub cvc_weight: i32,
    pub table: Seq<EntryView>,
    pub stream: (u128, u128),
}

impl LangView {
    /// The phonemes of the language.
    pub open spec fn inventory(self) -> InventoryView {
        InventoryView { vowels: self.vowels, consonants: self.consonants }
    }

    /// The weights of the shapes consonant-vowel, vowel-consonant and
    /// consonant-vowel-consonant, in this order.
    pub open spec fn shape_weights(self) -> Seq<i32> {
        seq![self.cv_weight, self.vc_weight, self.cvc_weight]
    }

    /// The same language at another place of its stream.
    pub open spec fn at(self, stream: (u128, u128)) -> LangView {
        LangView { stream, ..self }
    }

    /// The language can always draw a word: its inventory and its table are
    /// sound, and its shape weights are one of the triples, so that each is
    /// four at most and one of them is positive.
    pub open spec fn sound(self) -> bool {
        &&& inventory_sound(self.inventory())
        &&& table_sound(self.table, self.inventory())
        &&& shape_weights_sound((self.cv_weight, self.vc_weight, self.cvc_weight))
    }
}

/// What holds of every triple of shape weights that is drawn: it is one of
/// the triples of the catalog, each weight lies between nothing and four,
/// and one of them is positive.
pub open spec fn shape_weights_sound(weights: (i32, i32, i32)) -> bool {
    &&& shape_weight_triples().contains(weights)
    &&& 0 <= weights.0 <= 4
    &&& 0 <= weights.1 <= 4
    &&& 0 <= weights.2 <= 4
    &&& weights.0 + weights.1 + weights.2 >= 1
}

/// The shape weights drawn from a stream, and the stream after the draw.
pub open spec fn shape_weights_draw(stream: (u128, u128)) -> ((i32, i32, i32), (u128, u128)) {
    let (at, after) = choice_draw(stream, 91);
    (shape_weight_triples()[at as int], after)
}

/// The language of a seed: from the seeded stream come the inventory, then
/// the table, then the shape weights.
pub open spec fn language_of(seed: u64) -> LangView {
    let (inventory, s1) = inventory_draw(seeded_stream(seed));
    let (table, s2) = table_draw(s1, inventory);
    let (weights, s3) = shape_weights_draw(s2);
    LangView {
        vowels: inventory.vowels,
        consonants: inventory.consonants,
        cv_weight: weights.0,
        vc_weight: weights.1,
        cvc_weight: weights.2,
        table,
        stream: s3,
    }
}

/// The phoneme of category `next_type` drawn after `part`, and the stream
/// after the draw: the table's entry for `part` weighs the candidates.
pub open spec fn next_part_draw(
    lang: LangView,
    stream: (u128, u128),
    part: Seq<char>,
    next_type: SyllablePartType,
) -> (Seq<char>, (u128, u128)) {
    let entry = table_map(lang.table)[part];
    match next_type {
        SyllablePartType::Vowel => {
            let (at, after) = weighted_draw(stream, entry.vowel_weights);
            (lang.vowels[at as int], after)
        },
        SyllablePartType::Consonant => {
            let (at, after) = weighted_draw(stream, entry.consonant_weights);
            (lang.consonants[at as int], after)
        },
    }
}

/// The weights that an entry gives to the phonemes of category `next_type`.
pub open spec fn weights_for(entry: EntryView, next_type: SyllablePartType) -> Seq<i32> {
    match next_type {
        SyllablePartType::Vowel => entry.vowel_weights,
        SyllablePartType::Consonant => entry.consonant_weights,
    }
}

/// Whether a phoneme of category `next_type` can be drawn after `part`:
/// the table has an entry for `part`, and the entry gives some phoneme of
/// that category a positive weight.
pub open spec fn can_draw_after(lang: LangView, part: Seq<char>, next_type: SyllablePartType) -> bool {
    table_map(lang.table).dom().contains(part) && has_positive(
        weights_for(table_map(lang.table)[part], next_type),
    )
}

/// Whether `part` is the start of a syllable or a phoneme of the category
/// other than `next_type`.
pub open spec fn can_follow(lang: LangView, part: Seq<char>, next_type: SyllablePartType) -> bool {
    part == sentinel_text() || match next_type {
        SyllablePartType::Vowel => lang.consonants.contains(part),
        SyllablePartType::Consonant => lang.vowels.contains(part),
    }
}

/// In a sound language a vowel can be drawn after the start of a syllable
/// and after every consonant, and a consonant after the start of a syllable
/// and after every vowel.
pub proof fn lemma_can_draw_in_syllable(
    lang: LangView,
    part: Seq<char>,
    next_type: SyllablePartType,
)
    requires
        lang.sound(),
        can_follow(lang, part, next_type),
    ensures
        can_draw_after(lang, part, next_type),
{
    lemma_lookup_is_map(lang.table, part);
    if part != sentinel_text() {
        match next_type {
            SyllablePartType::Vowel => {
                let i = choose|i: int| 0 <= i < lang.consonants.len() && lang.consonants[i] == part;
                assert(lookup(lang.table, lang.consonants[i]) is Some);
            },
            SyllablePartType::Consonant => {
                let i = choose|i: int| 0 <= i < lang.vowels.len() && lang.vowels[i] == part;
                assert(lookup(lang.table, lang.vowels[i]) is Some);
            },
        }
    }
    let place = lookup(lang.table, part)->0;
    assert(entry_sound(lang.table[place], lang.inventory()));
}

/// Whether `value` is a phoneme of category `next_type` to which the
/// table's entry for `part` gives a positive weight.
pub open spec fn weighted_after(
    lang: LangView,
    part: Seq<char>,
    next_type: SyllablePartType,
    value: Seq<char>,
) -> bool {
    let entry = table_map(lang.table)[part];
    match next_type {
        SyllablePartType::Vowel => exists|at: int|
            0 <= at < lang.vowels.len() && lang.vowels[at] == value
                && #[trigger] entry.vowel_weights[at] > 0,
        SyllablePartType::Consonant => exists|at: int|
            0 <= at < lang.consonants.len() && lang.consonants[at] == value
                && #[trigger] entry.consonant_weights[at] > 0,
    }
}

/// Whether the phoneme stands in the language's list of its category.
pub open spec fn in_inventory(lang: LangView, part: PartView) -> bool {
    match part.part_type {
        SyllablePartType::Vowel => lang.vowels.contains(part.value),
        SyllablePartType::Consonant => lang.consonants.contains(part.value),
    }
}

/// The weight that the language gives to a shape.
pub open spec fn shape_weight(lang: LangView, shape: SyllableType) -> i32 {
    match shape {
        SyllableType::CV => lang.cv_weight,
        SyllableType::VC => lang.vc_weight,
        SyllableType::CVC => lang.cvc_weight,
    }
}

/// What holds of every syllable that a language draws: it has a shape, and
/// one to which the language gives a positive weight; the first phoneme has
/// a positive weight in the table's entry for the start of a syllable, and
/// each later one in the entry for the phoneme before it; each stands in
/// the inventory and has a text; and `q` is followed by `u` alone.
pub open spec fn drawn_syllable(lang: LangView, syllable: Seq<PartView>) -> bool {
    &&& conforms(syllable)
    &&& has_shape(syllable, SyllableType::CV) ==> lang.cv_weight > 0
    &&& has_shape(syllable, SyllableType::VC) ==> lang.vc_weight > 0
    &&& has_shape(syllable, SyllableType::CVC) ==> lang.cvc_weight > 0
    &&& weighted_after(lang, sentinel_text(), syllable[0].part_type, syllable[0].value)
    &&& forall|i: int, j: int|
        0 <= i && j == i + 1 && j < syllable.len() ==> weighted_after(
            lang,
            (#[trigger] syllable[i]).value,
            syllable[j].part_type,
            (#[trigger] syllable[j]).value,
        )
    &&& forall|j: int| 0 <= j < syllable.len() ==> in_inventory(lang, #[trigger] syllable[j])
    &&& forall|j: int| 0 <= j < syllable.len() ==> (#[trigger] syllable[j]).value.len() >= 1
    &&& forall|i: int, j: int|
        0 <= i && j == i + 1 && j < syllable.len() && (#[trigger] syllable[i]).value
            == letter_text('q') ==> (#[trigger] syllable[j]).value == letter_text('u')
}

/// Every syllable is one that the language draws.
pub open spec fn drawn_syllables(lang: LangView, parts: Seq<Seq<PartView>>) -> bool {
    forall|i: int| 0 <= i < parts.len() ==> drawn_syllable(lang, #[trigger] parts[i])
}

/// In a sound language a phoneme that has a positive weight after what
/// stands before it in a syllable stands in the inventory and has a text,
/// and after `q` it is `u`.
pub proof fn lemma_drawn_part(lang: LangView, part: Seq<char>, drawn: PartView)
    requires
        lang.sound(),
        can_follow(lang, part, drawn.part_type),
        weighted_after(lang, part, drawn.part_type, drawn.value),
    ensures
        in_inventory(lang, drawn),
        drawn.value.len() >= 1,
        part == letter_text('q') ==> drawn.value == letter_text('u'),
{
    lemma_can_draw_in_syllable(lang, part, drawn.part_type);
    lemma_lookup_is_map(lang.table, part);
    let place = lookup(lang.table, part)->0;
    let entry = lang.table[place];
    assert(entry_sound(entry, lang.inventory()));
    assert(entry == table_map(lang.table)[part]);
    match drawn.part_type {
        SyllablePartType::Vowel => {
            let at = choose|at: int|
                0 <= at < lang.vowels.len() && lang.vowels[at] == drawn.value
                    && #[trigger] entry.vowel_weights[at] > 0;
            assert(vowel_text(lang.vowels[at]));
        },
        SyllablePartType::Consonant => {
            let at = choose|at: int|
                0 <= at < lang.consonants.len() && lang.consonants[at] == drawn.value
                    && #[trigger] entry.consonant_weights[at] > 0;
            assert(consonant_text(lang.consonants[at]));
        },
    }
}

/// The phoneme drawn for a place of category `next_type` after `part`, as
/// a part of a syllable, and the stream after the draw.
pub open spec fn part_draw(
    lang: LangView,
    stream: (u128, u128),
    part: Seq<char>,
    next_type: SyllablePartType,
) -> (PartView, (u128, u128)) {
    let (value, after) = next_part_draw(lang, stream, part, next_type);
    (PartView { part_type: next_type, value }, after)
}

/// The syllable of the given shape drawn from a stream, and the stream
/// after it: each place is drawn after the one before it, the first after
/// the start of a syllable.
pub open spec fn filled(lang: LangView, stream: (u128, u128), shape: SyllableType) -> (
    Seq<PartView>,
    (u128, u128),
) {
    match shape {
        SyllableType::CV => {
            let (first, s1) = part_draw(lang, stream, sentinel_text(), SyllablePartType::Consonant);
            let (second, s2) = part_draw(lang, s1, first.value, SyllablePartType::Vowel);
            (seq![first, second], s2)
        },
        SyllableType::VC => {
            let (first, s1) = part_draw(lang, stream, sentinel_text(), SyllablePartType::Vowel);
            let (second, s2) = part_draw(lang, s1, first.value, SyllablePartType::Consonant);
            (seq![first, second], s2)
        },
        SyllableType::CVC => {
            let (first, s1) = part_draw(lang, stream, sentinel_text(), SyllablePartType::Consonant);
            let (second, s2) = part_draw(lang, s1, first.value, SyllablePartType::Vowel);
            let (third, s3) = part_draw(lang, s2, second.value, SyllablePartType::Consonant);
            (seq![first, second, third], s3)
        },
    }
}

/// The shape that stands at place `at` among the weighted shapes.
pub open spec fn shape_at(at: usize) -> SyllableType {
    if at == 0 {
        SyllableType::CV
    } else if at == 1 {
        SyllableType::VC
    } else {
        SyllableType::CVC
    }
}

/// The syllable drawn from a stream, and the stream after it: first the
/// shape, by the language's shape weights, then the phonemes.
pub open spec fn syllable_draw(lang: LangView, stream: (u128, u128)) -> (
    Seq<PartView>,
    (u128, u128),
) {
    let (at, s1) = weighted_draw(stream, lang.shape_weights());
    filled(lang, s1, shape_at(at))
}

/// `n` syllables drawn one after another, and the stream after them.
pub open spec fn syllables_draw(lang: LangView, stream: (u128, u128), n: nat) -> (
    Seq<Seq<PartView>>,
    (u128, u128),
)
    decreases n,
{
    if n == 0 {
        (Seq::empty(), stream)
    } else {
        let (before, s1) = syllables_draw(lang, stream, (n - 1) as nat);
        let (syllable, s2) = syllable_draw(lang, s1);
        (before.push(syllable), s2)
    }
}

/// The rule that a number from nought to three stands for.
pub open spec fn rule_of(n: i32) -> CompoundRule {
    if n == 0 {
        CompoundRule::DropLeft
    } else if n == 1 {
        CompoundRule::DropRight
    } else {
        CompoundRule::DropNone
    }
}

/// The rule drawn from a stream, and the stream after the draw.
pub open spec fn rule_draw(stream: (u128, u128)) -> (CompoundRule, (u128, u128)) {
    let (n, after) = range_draw(stream, 0, 4);
    (rule_of(n), after)
}

/// The weights of a word of one syllable and of a word of two.
pub open spec fn syllable_count_weights() -> Seq<i32> {
    seq![1, 2]
}

/// The word drawn from a stream, and the stream after it: first the number
/// of syllables, then the syllables, then the rule.
pub open spec fn word_draw(lang: LangView, stream: (u128, u128)) -> (WordView, (u128, u128)) {
    let (at, s1) = weighted_draw(stream, syllable_count_weights());
    let (parts, s2) = syllables_draw(lang, s1, (at + 1) as nat);
    let (compound_rule, s3) = rule_draw(s2);
    (WordView { parts, compound_rule }, s3)
}

/// The compound of two words drawn from a stream, and the stream after it:
/// the syllables are fixed by the operands, the rule is drawn.
pub open spec fn compound_draw(stream: (u128, u128), left: WordView, right: WordView) -> (
    WordView,
    (u128, u128),
) {
    let (compound_rule, after) = rule_draw(stream);
    (WordView { parts: compound_parts(left, right), compound_rule }, after)
}

/// Draws the rule of a new word: `DropLeft` and `DropRight` for one number
/// in four each, `DropNone` for the other two.
pub fn draw_rule(rng: &mut Pcg64) -> (rule: CompoundRule)
    ensures
        (rule, stream_of(*final(rng))) == rule_draw(stream_of(*old(rng))),
{
    let n = draw_range(rng, 0, 4);
    if n == 0 {
        CompoundRule::DropLeft
    } else if n == 1 {
        CompoundRule::DropRight
    } else {
        CompoundRule::DropNone
    }
}

/// Draws the three shape weights of a language: one of the triples of the
/// catalog.
pub fn random_weights(rng: &mut Pcg64) -> (weights: (i32, i32, i32))
    ensures
        (weights, stream_of(*final(rng))) == shape_weights_draw(stream_of(*old(rng))),
        shape_weights_sound(weights),
{
    let possible_weights = shape_weight_list();
    proof {
        lemma_shape_weight_triples();
    }
    match draw_choice(rng, possible_weights.len()) {
        Some(at) => {
            let weights = possible_weights[at];
            assert(weights == shape_weight_triples()[at as int]);
            weights
        },
        None => unreached(),
    }
}

/// A syllable of a shape of positive weight, whose phonemes each have a
/// positive weight after what stands before them, stand in the inventory
/// and have a text, and in which `q` is followed by `u` alone, is one that
/// the language draws.
pub proof fn lemma_drawn_shape(lang: LangView, syllable: Seq<PartView>, shape: SyllableType)
    requires
        has_shape(syllable, shape),
        shape_weight(lang, shape) > 0,
        weighted_after(lang, sentinel_text(), syllable[0].part_type, syllable[0].value),
        forall|i: int, j: int|
            0 <= i && j == i + 1 && j < syllable.len() ==> weighted_after(
                lang,
                (#[trigger] syllable[i]).value,
                syllable[j].part_type,
                (#[trigger] syllable[j]).value,
            ),
        forall|j: int| 0 <= j < syllable.len() ==> in_inventory(lang, #[trigger] syllable[j]),
        forall|j: int| 0 <= j < syllable.len() ==> (#[trigger] syllable[j]).value.len() >= 1,
        forall|i: int, j: int|
            0 <= i && j == i + 1 && j < syllable.len() && (#[trigger] syllable[i]).value
                == letter_text('q') ==> (#[trigger] syllable[j]).value == letter_text('u'),
    ensures
        drawn_syllable(lang, syllable),
{
    lemma_conforming_shape(syllable);
}

/// What a language draws does not depend on the place in its stream.
pub proof fn lemma_same_language(lang: LangView, stream: (u128, u128), syllable: Seq<PartView>)
    requires
        drawn_syllable(lang.at(stream), syllable),
    ensures
        drawn_syllable(lang, syllable),
{
    let other = lang.at(stream);
    assert(weighted_after(other, sentinel_text(), syllable[0].part_type, syllable[0].value));
    assert forall|i: int, j: int| 0 <= i && j == i + 1 && j < syllable.len() implies weighted_after(
        lang,
        (#[trigger] syllable[i]).value,
        syllable[j].part_type,
        (#[trigger] syllable[j]).value,
    ) by {
        assert(weighted_after(other, syllable[i].value, syllable[j].part_type, syllable[j].value));
    }
    assert forall|j: int| 0 <= j < syllable.len() implies in_inventory(
        lang,
        #[trigger] syllable[j],
    ) by {
        assert(in_inventory(other, syllable[j]));
    }
}

impl View for SynthLang {
    type V = LangView;

    closed spec fn view(&self) -> LangView {
        LangView {
            vowels: texts_of(self.vowels@),
            consonants: texts_of(self.consonants@),
            cv_weight: self.cv_weight,
            vc_weight: self.vc_weight,
            cvc_weight: self.cvc_weight,
            table: self.next_part_weights@,
            stream: stream_of(self.rng),
        }
    }
}

impl SynthLang {
    /// The language can always draw a word.
    pub open spec fn wf(&self) -> bool {
        self@.sound()
    }

    /// The language of a seed.
    pub fn new(seed: u64) -> (lang: Self)
        ensures
            lang@ == language_of(seed),
            lang.wf(),
    {
        let mut rng = seed_rng(seed);
        let (vowels, consonants) = draw_inventory(&mut rng);
        let next_part_weights = build_table(&mut rng, &vowels, &consonants);
        let weights = random_weights(&mut rng);
        SynthLang {
            consonants,
            vowels,
            cv_weight: weights.0,
            vc_weight: weights.1,
            cvc_weight: weights.2,
            next_part_weights,
            rng,
        }
    }

    /// The vowels of the language, in the order of their weights.
    pub fn vowels(&self) -> (vowels: &Vec<String>)
        ensures
            texts_of(vowels@) == self@.vowels,
    {
        &self.vowels
    }

    /// The consonants of the language, in the order of their weights.
    pub fn consonants(&self) -> (consonants: &Vec<String>)
        ensures
            texts_of(consonants@) == self@.consonants,
    {
        &self.consonants
    }

    /// The weight of the shape consonant-vowel.
    pub fn cv_weight(&self) -> (weight: i32)
        ensures
            weight == self@.cv_weight,
    {
        self.cv_weight
    }

    /// The weight of the shape vowel-consonant.
    pub fn vc_weight(&self) -> (weight: i32)
        ensures
            weight == self@.vc_weight,
    {
        self.vc_weight
    }

    /// The weight of the shape consonant-vowel-consonant.
    pub fn cvc_weight(&self) -> (weight: i32)
        ensures
            weight == self@.cvc_weight,
    {
        self.cvc_weight
    }

    /// Draws the phoneme of category `next_part_type` that follows `part`,
    /// by the weights that the table holds for `part`. A phoneme of weight
    /// nothing is never drawn.
    pub fn next_part(&mut self, part: &str, next_part_type: SyllablePartType) -> (value: String)
        requires
            old(self).wf(),
            can_draw_after(old(self)@, part@, next_part_type),
        ensures
            (value@, final(self)@.stream) == next_part_draw(
                old(self)@,
                old(self)@.stream,
                part@,
                next_part_type,
            ),
            weighted_after(old(self)@, part@, next_part_type, value@),
            final(self)@ == old(self)@.at(final(self)@.stream),
            final(self).wf(),
            can_follow(
                final(self)@,
                value@,
                match next_part_type {
                    SyllablePartType::Vowel => SyllablePartType::Consonant,
                    SyllablePartType::Consonant => SyllablePartType::Vowel,
                },
            ),
    {
        let ghost lang = self@;
        proof {
            lemma_lookup_is_map(lang.table, part@);
        }
        let place = match self.next_part_weights.find(part) {
            Some(place) => place,
            None => unreached(),
        };
        let entry = &self.next_part_weights.entries[place];
        proof {
            assert(entry@ == lang.table[place as int]);
            assert(entry_sound(lang.table[place as int], lang.inventory()));
        }
        match next_part_type {
            SyllablePartType::Vowel => {
                let at = draw_position(&mut self.rng, &entry.vowel_weights);
                let value = self.vowels[at].clone();
                assert(lang.vowels[at as int] == value@);
                assert(entry@.vowel_weights[at as int] > 0);
                value
            },
            SyllablePartType::Consonant => {
                let at = draw_position(&mut self.rng, &entry.consonant_weights);
                let value = self.consonants[at].clone();
                assert(lang.consonants[at as int] == value@);
                assert(entry@.consonant_weights[at as int] > 0);
                value
            },
        }
    }

    /// Draws a phoneme of category `next_part_type` after `part` as a part
    /// of a syllable.
    fn draw_part(&mut self, part: &str, next_part_type: SyllablePartType) -> (drawn: SyllablePart)
        requires
            old(self).wf(),
            can_follow(old(self)@, part@, next_part_type),
        ensures
            (drawn@, final(self)@.stream) == part_draw(
                old(self)@,
                old(self)@.stream,
                part@,
                next_part_type,
            ),
            drawn@.part_type == next_part_type,
            weighted_after(old(self)@, part@, next_part_type, drawn@.value),
            in_inventory(old(self)@, drawn@),
            drawn@.value.len() >= 1,
            part@ == letter_text('q') ==> drawn@.value == letter_text('u'),
            final(self)@ == old(self)@.at(final(self)@.stream),
            final(self).wf(),
            can_follow(
                final(self)@,
                drawn@.value,
                match next_part_type {
                    SyllablePartType::Vowel => SyllablePartType::Consonant,
                    SyllablePartType::Consonant => SyllablePartType::Vowel,
                },
            ),
    {
        proof {
            lemma_can_draw_in_syllable(self@, part@, next_part_type);
        }
        let ghost lang = self@;
        let value = self.next_part(part, next_part_type);
        let drawn = SyllablePart::new(next_part_type, value);
        proof {
            lemma_drawn_part(lang, part@, drawn@);
        }
        drawn
    }

    /// Draws a syllable: first its shape, by the shape weights, then its
    /// phonemes in the order of the shape, each after the one before it and
    /// the first after the start of a syllable. A shape of weight nothing
    /// is never drawn, nor a phoneme to which the table gives nothing after
    /// the one before it.
    pub fn syllable(&mut self) -> (syllable: Syllable)
        requires
            old(self).wf(),
        ensures
            (syllable@, final(self)@.stream) == syllable_draw(old(self)@, old(self)@.stream),
            conforms(syllable@),
            drawn_syllable(old(self)@, syllable@),
            final(self)@ == old(self)@.at(final(self)@.stream),
            final(self).wf(),
    {
        let ghost lang = self@;
        let weights: Vec<i32> = vec![self.cv_weight, self.vc_weight, self.cvc_weight];
        proof {
            assert(weights@ =~= lang.shape_weights());
            assert(weights@[0] > 0 || weights@[1] > 0 || weights@[2] > 0);
        }
        let at = draw_position(&mut self.rng, &weights);
        let ghost s1 = self@.stream;
        assert(self@ == lang.at(s1));
        let sentinel = letter_string('\0');
        let mut parts: Vec<SyllablePart> = Vec::new();
        if at == 0 {
            let first = self.draw_part(sentinel.as_str(), SyllablePartType::Consonant);
            let second = self.draw_part(first.value().as_str(), SyllablePartType::Vowel);
            parts.push(first);
            parts.push(second);
            proof {
                let drawn = Seq::new(parts@.len(), |i: int| parts@[i]@);
                assert(drawn =~= filled(lang, s1, SyllableType::CV).0);
                assert(categories(drawn) =~= shape_of(SyllableType::CV));
                lemma_drawn_shape(lang, drawn, SyllableType::CV);
            }
        } else if at == 1 {
            let first = self.draw_part(sentinel.as_str(), SyllablePartType::Vowel);
            let second = self.draw_part(first.value().as_str(), SyllablePartType::Consonant);
            parts.push(first);
            parts.push(second);
            proof {
                let drawn = Seq::new(parts@.len(), |i: int| parts@[i]@);
                assert(drawn =~= filled(lang, s1, SyllableType::VC).0);
                assert(categories(drawn) =~= shape_of(SyllableType::VC));
                lemma_drawn_shape(lang, drawn, SyllableType::VC);
            }
        } else {
            let first = self.draw_part(sentinel.as_str(), SyllablePartType::Consonant);
            let second = self.draw_part(first.value().as_str(), SyllablePartType::Vowel);
            let third = self.draw_part(second.value().as_str(), SyllablePartType::Consonant);
            parts.push(first);
            parts.push(second);
            parts.push(third);
            proof {
                let drawn = Seq::new(parts@.len(), |i: int| parts@[i]@);
                assert(drawn =~= filled(lang, s1, SyllableType::CVC).0);
                assert(categories(drawn) =~= shape_of(SyllableType::CVC));
                lemma_drawn_shape(lang, drawn, SyllableType::CVC);
            }
        }
        Syllable::new(parts)
    }

    /// Draws a word: one syllable or, twice as often, two, and then the
    /// rule by which it compounds. Every syllable is one that the language
    /// draws, so the word's phonemes come from the inventory and its text
    /// is not empty.
    pub fn word(&mut self) -> (word: Word)
        requires
            old(self).wf(),
        ensures
            (word@, final(self)@.stream) == word_draw(old(self)@, old(self)@.stream),
            word.wf(),
            1 <= word@.parts.len() <= 2,
            drawn_syllables(old(self)@, word@.parts),
            all_spelled(word@.parts),
            collapse(word_text(word@.parts)).len() >= 1,
            final(self)@ == old(self)@.at(final(self)@.stream),
            final(self).wf(),
    {
        let ghost lang = self@;
        let choices: Vec<i32> = vec![1, 2];
        proof {
            assert(choices@ =~= syllable_count_weights());
            assert(choices@[0] > 0);
        }
        let at = draw_position(&mut self.rng, &choices);
        let num_syllables = at + 1;
        let ghost s1 = self@.stream;
        assert(self@ == lang.at(s1));
        let mut syllables: Vec<Syllable> = Vec::new();
        let mut i: usize = 0;
        while i < num_syllables
            invariant
                i <= num_syllables <= 2,
                self.wf(),
                self@ == lang.at(self@.stream),
                syllables@.len() == i,
                (views_of(syllables@), self@.stream) == syllables_draw(lang, s1, i as nat),
                all_conform(views_of(syllables@)),
                drawn_syllables(lang, views_of(syllables@)),
            decreases num_syllables - i,
        {
            let ghost before = views_of(syllables@);
            let ghost here = self@.stream;
            let syllable = self.syllable();
            proof {
                assert(syllable_draw(lang.at(here), here) == syllable_draw(lang, here));
                lemma_same_language(lang, here, syllable@);
            }
            syllables.push(syllable);
            proof {
                let now = views_of(syllables@);
                assert(now =~= before.push(syllable@));
                assert forall|k: int| 0 <= k < now.len() implies drawn_syllable(
                    lang,
                    #[trigger] now[k],
                ) by {
                    if k < before.len() {
                        assert(now[k] == before[k]);
                    }
                }
            }
            i = i + 1;
        }
        let compound_rule = draw_rule(&mut self.rng);
        let word = Word::new(syllables, compound_rule);
        proof {
            let parts = word@.parts;
            assert forall|k: int, j: int|
                0 <= k < parts.len() && 0 <= j < parts[k].len() implies (#[trigger] parts[k][j])
                .value.len() >= 1 by {
                assert(drawn_syllable(lang, parts[k]));
            }
            lemma_rendered_not_empty(word@.parts);
        }
        word
    }

    /// Merges two words: what the left one keeps under its rule, then what
    /// the right one keeps under its own, and a newly drawn rule. The
    /// operands stay as they are. Every syllable of the compound is a
    /// syllable of an operand.
    pub fn compound(&mut self, left: &Word, right: &Word) -> (word: Word)
        requires
            left.wf(),
            right.wf(),
        ensures
            (word@, final(self)@.stream) == compound_draw(old(self)@.stream, left@, right@),
            word.wf(),
            word@.parts.len() >= 2,
            word@.parts.len() <= left@.parts.len() + right@.parts.len(),
            forall|i: int|
                0 <= i < word@.parts.len() ==> left@.parts.contains(#[trigger] word@.parts[i])
                    || right@.parts.contains(word@.parts[i]),
            all_spelled(left@.parts) && all_spelled(right@.parts) ==> all_spelled(word@.parts),
            final(self)@ == old(self)@.at(final(self)@.stream),
            old(self).wf() ==> final(self).wf(),
    {
        let mut new = left.kept_syllables();
        let mut kept = right.kept_syllables();
        let ghost first = views_of(new@);
        let ghost second = views_of(kept@);
        new.append(&mut kept);
        proof {
            assert(views_of(new@) =~= first + second);
            lemma_compound_conforms(left@, right@);
            lemma_compound_from_operands(left@, right@);
            lemma_compound_bounds(left@, right@);
        }
        let compound_rule = draw_rule(&mut self.rng);
        Word::new(new, compound_rule)
    }
}

} // verus!
