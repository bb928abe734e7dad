//! Phonemes, syllables and words, and what a word keeps when it is compounded.

use crate::render::{collapse, lemma_collapse_last, no_triple, remove_repeated_chars};
use vstd::prelude::*;
use vstd::string::StringExecFns;

verus! {

/// Which syllable a word gives up when it is merged with another.
#[derive(Clone, Copy, Debug, PartialEq, Eq, Structural)]
pub enum CompoundRule {
    DropLeft,
    DropRight,
    DropNone,
}

/// The category pattern of a syllable.
#[derive(Clone, Copy, Debug, PartialEq, Eq, Structural)]
pub enum SyllableType {
    VC,
    CV,
    CVC,
}

/// The category of a phoneme.
#[derive(Clone, Copy, Debug, PartialEq, Eq, Structural)]
pub enum SyllablePartType {
    Consonant,
    Vowel,
}

/// A phoneme: its text and its category.
#[derive(Debug)]
pub struct SyllablePart {
    part_type: SyllablePartType,
    value: String,
}

/// Two or three phonemes in the order of one of the three shapes.
#[derive(Debug)]
pub struct Syllable {
    parts: Vec<SyllablePart>,
}

/// One or more syllables and the rule by which the word compounds.
#[derive(Debug)]
pub struct Word {
    parts: Vec<Syllable>,
    compound_rule: CompoundRule,
}

/// A phoneme as a value: category and characters.
pub struct PartView {
    pub part_type: SyllablePartType,
    pub value: Seq<char>,
}

/// A word as a value: its syllables, each a sequence of phonemes, and its rule.
pub struct WordView {
    pub parts: Seq<Seq<PartView>>,
    pub compound_rule: CompoundRule,
}

/// The categories that a shape asks for, in order.
pub open spec fn shape_of(shape: SyllableType) -> Seq<SyllablePartType> {
    match shape {
        SyllableType::CV => seq![SyllablePartType::Consonant, SyllablePartType::Vowel],
        SyllableType::VC => seq![SyllablePartType::Vowel, SyllablePartType::Consonant],
        SyllableType::CVC => seq![
            SyllablePartType::Consonant,
            SyllablePartType::Vowel,
            SyllablePartType::Consonant,
        ],
    }
}

/// The categories of a syllable's phonemes, in order.
pub open spec fn categories(syllable: Seq<PartView>) -> Seq<SyllablePartType> {
    Seq::new(syllable.len(), |i: int| syllable[i].part_type)
}

/// The syllable has the pattern of `shape`.
pub open spec fn has_shape(syllable: Seq<PartView>, shape: SyllableType) -> bool {
    categories(syllable) == shape_of(shape)
}

/// The syllable has the pattern of one of the three shapes.
pub open spec fn conforms(syllable: Seq<PartView>) -> bool {
    has_shape(syllable, SyllableType::CV) || has_shape(syllable, SyllableType::VC) || has_shape(
        syllable,
        SyllableType::CVC,
    )
}

/// Every syllable has one of the three shapes.
pub open spec fn all_conform(parts: Seq<Seq<PartView>>) -> bool {
    forall|i: int| 0 <= i < parts.len() ==> conforms(#[trigger] parts[i])
}

/// The syllables that a word with these syllables and this rule brings into
/// a compound: all but the first under `DropLeft`, all but the last under
/// `DropRight`, and all of them under `DropNone` or where there is only one.
pub open spec fn kept_parts(parts: Seq<Seq<PartView>>, rule: CompoundRule) -> Seq<Seq<PartView>> {
    if parts.len() < 2 {
        parts
    } else {
        match rule {
            CompoundRule::DropLeft => parts.subrange(1, parts.len() as int),
            CompoundRule::DropRight => parts.subrange(0, parts.len() - 1),
            CompoundRule::DropNone => parts,
        }
    }
}

/// The syllables of the compound of two words, left operand first.
pub open spec fn compound_parts(left: WordView, right: WordView) -> Seq<Seq<PartView>> {
    kept_parts(left.parts, left.compound_rule) + kept_parts(right.parts, right.compound_rule)
}

/// The characters of a syllable's phonemes, in order.
pub open spec fn syllable_text(syllable: Seq<PartView>) -> Seq<char>
    decreases syllable.len(),
{
    if syllable.len() == 0 {
        Seq::empty()
    } else {
        syllable_text(syllable.drop_last()) + syllable.last().value
    }
}

/// The characters of all the syllables, in order.
pub open spec fn word_text(parts: Seq<Seq<PartView>>) -> Seq<char>
    decreases parts.len(),
{
    if parts.len() == 0 {
        Seq::empty()
    } else {
        word_text(parts.drop_last()) + syllable_text(parts.last())
    }
}

/// A syllable of one of the three shapes has two or three phonemes, and its
/// categories are those of exactly one shape.
pub proof fn lemma_conforming_shape(syllable: Seq<PartView>)
    requires
        conforms(syllable),
    ensures
        2 <= syllable.len() <= 3,
        has_shape(syllable, SyllableType::CV) ==> !has_shape(syllable, SyllableType::VC)
            && !has_shape(syllable, SyllableType::CVC),
        has_shape(syllable, SyllableType::VC) ==> !has_shape(syllable, SyllableType::CVC),
{
    let c = categories(syllable);
    assert(c.len() == syllable.len());
    if has_shape(syllable, SyllableType::CV) {
        assert(c[0] == SyllablePartType::Consonant);
        assert(shape_of(SyllableType::VC)[0] == SyllablePartType::Vowel);
    }
}

/// A compound has at least one syllable from each operand, at most all of
/// both, and at least all but one of each.
pub proof fn lemma_compound_bounds(left: WordView, right: WordView)
    requires
        left.parts.len() >= 1,
        right.parts.len() >= 1,
    ensures
        compound_parts(left, right).len() >= 2,
        compound_parts(left, right).len() <= left.parts.len() + right.parts.len(),
        compound_parts(left, right).len() >= (if left.parts.len() >= 2 {
            left.parts.len() - 1
        } else {
            1
        }) + (if right.parts.len() >= 2 {
            right.parts.len() - 1
        } else {
            1
        }),
{
}

/// A compound of words whose syllables all have a shape holds only such
/// syllables.
pub proof fn lemma_compound_conforms(left: WordView, right: WordView)
    requires
        all_conform(left.parts),
        all_conform(right.parts),
    ensures
        all_conform(compound_parts(left, right)),
{
    let l = kept_parts(left.parts, left.compound_rule);
    let r = kept_parts(right.parts, right.compound_rule);
    assert forall|i: int| 0 <= i < l.len() implies conforms(#[trigger] l[i]) by {
        if left.parts.len() >= 2 && left.compound_rule == CompoundRule::DropLeft {
            assert(l[i] == left.parts[i + 1]);
        } else {
            assert(l[i] == left.parts[i]);
        }
    }
    assert forall|i: int| 0 <= i < r.len() implies conforms(#[trigger] r[i]) by {
        if right.parts.len() >= 2 && right.compound_rule == CompoundRule::DropLeft {
            assert(r[i] == right.parts[i + 1]);
        } else {
            assert(r[i] == right.parts[i]);
        }
    }
    let both = l + r;
    assert forall|i: int| 0 <= i < both.len() implies conforms(#[trigger] both[i]) by {
        if i < l.len() {
            assert(both[i] == l[i]);
        } else {
            assert(both[i] == r[i - l.len()]);
        }
    }
}

/// Every phoneme of every syllable has a text of one character at least.
pub open spec fn all_spelled(parts: Seq<Seq<PartView>>) -> bool {
    forall|i: int, j: int|
        0 <= i < parts.len() && 0 <= j < parts[i].len() ==> (#[trigger] parts[i][j]).value.len()
            >= 1
}

/// A syllable's text is at least as long as the text of any of its
/// phonemes.
pub proof fn lemma_syllable_text_len(syllable: Seq<PartView>, j: int)
    requires
        0 <= j < syllable.len(),
    ensures
        syllable_text(syllable).len() >= syllable[j].value.len(),
    decreases syllable.len(),
{
    if j < syllable.len() - 1 {
        lemma_syllable_text_len(syllable.drop_last(), j);
    }
}

/// A word's text is at least as long as the text of any of its syllables.
pub proof fn lemma_word_text_len(parts: Seq<Seq<PartView>>, i: int)
    requires
        0 <= i < parts.len(),
    ensures
        word_text(parts).len() >= syllable_text(parts[i]).len(),
    decreases parts.len(),
{
    if i < parts.len() - 1 {
        lemma_word_text_len(parts.drop_last(), i);
    }
}

/// A word that has a syllable, each of a shape, and whose phonemes all have
/// a text, is rendered as a text that is not empty.
pub proof fn lemma_rendered_not_empty(parts: Seq<Seq<PartView>>)
    requires
        parts.len() >= 1,
        all_conform(parts),
        all_spelled(parts),
    ensures
        word_text(parts).len() >= 1,
        collapse(word_text(parts)).len() >= 1,
{
    lemma_conforming_shape(parts[0]);
    assert(parts[0][0].value.len() >= 1);
    lemma_syllable_text_len(parts[0], 0);
    lemma_word_text_len(parts, 0);
    lemma_collapse_last(word_text(parts));
}

/// A compound of words whose phonemes all have a text holds only such
/// phonemes, and each of its syllables is a syllable of an operand.
pub proof fn lemma_compound_from_operands(left: WordView, right: WordView)
    ensures
        forall|i: int|
            0 <= i < compound_parts(left, right).len() ==> left.parts.contains(
                #[trigger] compound_parts(left, right)[i],
            ) || right.parts.contains(compound_parts(left, right)[i]),
        all_spelled(left.parts) && all_spelled(right.parts) ==> all_spelled(
            compound_parts(left, right),
        ),
{
    let l = kept_parts(left.parts, left.compound_rule);
    let r = kept_parts(right.parts, right.compound_rule);
    let both = compound_parts(left, right);
    assert forall|i: int| 0 <= i < both.len() implies left.parts.contains(#[trigger] both[i])
        || right.parts.contains(both[i]) by {
        if i < l.len() {
            assert(both[i] == l[i]);
            if left.parts.len() >= 2 && left.compound_rule == CompoundRule::DropLeft {
                assert(l[i] == left.parts[i + 1]);
            } else {
                assert(l[i] == left.parts[i]);
            }
        } else {
            let k = i - l.len();
            assert(both[i] == r[k]);
            if right.parts.len() >= 2 && right.compound_rule == CompoundRule::DropLeft {
                assert(r[k] == right.parts[k + 1]);
            } else {
                assert(r[k] == right.parts[k]);
            }
        }
    }
    if all_spelled(left.parts) && all_spelled(right.parts) {
        assert forall|i: int, j: int|
            0 <= i < both.len() && 0 <= j < both[i].len() implies (#[trigger] both[i][j]).value.len()
            >= 1 by {
            if left.parts.contains(both[i]) {
                let k = choose|k: int| 0 <= k < left.parts.len() && left.parts[k] == both[i];
                assert(left.parts[k][j].value.len() >= 1);
            } else {
                let k = choose|k: int| 0 <= k < right.parts.len() && right.parts[k] == both[i];
                assert(right.parts[k][j].value.len() >= 1);
            }
        }
    }
}

impl View for SyllablePart {
    type V = PartView;

    closed spec fn view(&self) -> PartView {
        PartView { part_type: self.part_type, value: self.value@ }
    }
}

impl Clone for SyllablePart {
    fn clone(&self) -> (copy: Self)
        ensures
            copy@ == self@,
    {
        SyllablePart { part_type: self.part_type, value: self.value.clone() }
    }
}

impl SyllablePart {
    /// A phoneme of the given category and text.
    pub fn new(part_type: SyllablePartType, value: String) -> (part: Self)
        ensures
            part@ == (PartView { part_type, value: value@ }),
    {
        SyllablePart { part_type, value }
    }

    /// The phoneme's category.
    pub fn part_type(&self) -> (part_type: SyllablePartType)
        ensures
            part_type == self@.part_type,
    {
        self.part_type
    }

    /// The phoneme's text.
    pub fn value(&self) -> (value: &String)
        ensures
            value@ == self@.value,
    {
        &self.value
    }
}

impl View for Syllable {
    type V = Seq<PartView>;

    closed spec fn view(&self) -> Seq<PartView> {
        Seq::new(self.parts@.len(), |i: int| self.parts@[i]@)
    }
}

impl Clone for Syllable {
    fn clone(&self) -> (copy: Self)
        ensures
            copy@ == self@,
    {
        let mut parts: Vec<SyllablePart> = Vec::new();
        let mut i: usize = 0;
        while i < self.parts.len()
            invariant
                i <= self.parts@.len(),
                parts@.len() == i,
                forall|k: int| 0 <= k < i ==> (#[trigger] parts@[k])@ == self.parts@[k]@,
            decreases self.parts@.len() - i,
        {
            parts.push(self.parts[i].clone());
            i = i + 1;
        }
        let copy = Syllable { parts };
        assert(copy@ =~= self@);
        copy
    }
}

impl Syllable {
    /// The syllable made of these phonemes, which must follow a shape.
    pub fn new(parts: Vec<SyllablePart>) -> (syllable: Self)
        requires
            conforms(Seq::new(parts@.len(), |i: int| parts@[i]@)),
        ensures
            syllable@ == Seq::new(parts@.len(), |i: int| parts@[i]@),
            conforms(syllable@),
    {
        Syllable { parts }
    }

    /// The number of phonemes.
    pub fn len(&self) -> (n: usize)
        ensures
            n == self@.len(),
    {
        self.parts.len()
    }

    /// The phoneme at `i`.
    pub fn part(&self, i: usize) -> (part: &SyllablePart)
        requires
            i < self@.len(),
        ensures
            part@ == self@[i as int],
    {
        &self.parts[i]
    }

    /// The texts of the phonemes, joined in order.
    pub fn to_string(&self) -> (text: String)
        ensures
            text@ == syllable_text(self@),
    {
        let mut text = String::new();
        let mut i: usize = 0;
        while i < self.parts.len()
            invariant
                i <= self.parts@.len(),
                self@.len() == self.parts@.len(),
                text@ == syllable_text(self@.take(i as int)),
            decreases self.parts@.len() - i,
        {
            proof {
                let next = self@.take(i + 1);
                assert(next.drop_last() =~= self@.take(i as int));
                assert(next.last() == self.parts@[i as int]@);
            }
            text.append(self.parts[i].value.as_str());
            i = i + 1;
        }
        assert(self@.take(i as int) =~= self@);
        text
    }
}

impl View for Word {
    type V = WordView;

    closed spec fn view(&self) -> WordView {
        WordView {
            parts: Seq::new(self.parts@.len(), |i: int| self.parts@[i]@),
            compound_rule: self.compound_rule,
        }
    }
}

impl Clone for Word {
    fn clone(&self) -> (copy: Self)
        ensures
            copy@ == self@,
    {
        let parts = copy_syllables(&self.parts, 0, self.parts.len());
        let copy = Word { parts, compound_rule: self.compound_rule };
        assert(copy@.parts =~= self@.parts);
        copy
    }
}

/// The views of the syllables in a vector.
pub open spec fn views_of(parts: Seq<Syllable>) -> Seq<Seq<PartView>> {
    Seq::new(parts.len(), |i: int| parts[i]@)
}

/// Copies of the syllables from `from` up to `to`.
fn copy_syllables(parts: &Vec<Syllable>, from: usize, to: usize) -> (copies: Vec<Syllable>)
    requires
        from <= to <= parts@.len(),
    ensures
        views_of(copies@) == views_of(parts@).subrange(from as int, to as int),
{
    let mut copies: Vec<Syllable> = Vec::new();
    let mut i: usize = from;
    while i < to
        invariant
            from <= i <= to <= parts@.len(),
            copies@.len() == i - from,
            forall|k: int| 0 <= k < i - from ==> (#[trigger] copies@[k])@ == parts@[from + k]@,
        decreases to - i,
    {
        copies.push(parts[i].clone());
        i = i + 1;
    }
    assert(views_of(copies@) =~= views_of(parts@).subrange(from as int, to as int));
    copies
}

impl Word {
    /// The word is well formed: it has a syllable, and each has a shape.
    pub open spec fn wf(&self) -> bool {
        self@.parts.len() >= 1 && all_conform(self@.parts)
    }

    /// The word made of these syllables, of which there must be one at
    /// least, with this rule.
    pub fn new(parts: Vec<Syllable>, compound_rule: CompoundRule) -> (word: Self)
        requires
            parts@.len() >= 1,
        ensures
            word@ == (WordView { parts: views_of(parts@), compound_rule }),
            word@.parts.len() == parts@.len(),
    {
        let word = Word { parts, compound_rule };
        assert(word@.parts =~= views_of(parts@));
        word
    }

    /// The number of syllables.
    pub fn syllable_count(&self) -> (n: usize)
        ensures
            n == self@.parts.len(),
    {
        self.parts.len()
    }

    /// The syllable at `i`.
    pub fn syllable(&self, i: usize) -> (syllable: &Syllable)
        requires
            i < self@.parts.len(),
        ensures
            syllable@ == self@.parts[i as int],
    {
        &self.parts[i]
    }

    /// The rule by which the word compounds.
    pub fn compound_rule(&self) -> (rule: CompoundRule)
        ensures
            rule == self@.compound_rule,
    {
        self.compound_rule
    }

    /// Copies of the syllables that the word brings into a compound.
    pub fn kept_syllables(&self) -> (kept: Vec<Syllable>)
        ensures
            views_of(kept@) == kept_parts(self@.parts, self@.compound_rule),
    {
        let n = self.parts.len();
        assert(views_of(self.parts@) =~= self@.parts);
        if n >= 2 {
            match self.compound_rule {
                CompoundRule::DropLeft => copy_syllables(&self.parts, 1, n),
                CompoundRule::DropRight => copy_syllables(&self.parts, 0, n - 1),
                CompoundRule::DropNone => {
                    let kept = copy_syllables(&self.parts, 0, n);
                    assert(self@.parts.subrange(0, n as int) =~= self@.parts);
                    kept
                },
            }
        } else {
            let kept = copy_syllables(&self.parts, 0, n);
            assert(self@.parts.subrange(0, n as int) =~= self@.parts);
            kept
        }
    }

    /// The word as text: the phonemes' texts joined in order, with every run
    /// of three or more equal characters cut to two.
    pub fn to_string(&self) -> (text: String)
        ensures
            text@ == collapse(word_text(self@.parts)),
            no_triple(text@),
            self.wf() && all_spelled(self@.parts) ==> text@.len() >= 1,
    {
        proof {
            if self.wf() && all_spelled(self@.parts) {
                lemma_rendered_not_empty(self@.parts);
            }
        }
        let mut joined = String::new();
        let mut i: usize = 0;
        while i < self.parts.len()
            invariant
                i <= self.parts@.len(),
                self@.parts.len() == self.parts@.len(),
                joined@ == word_text(self@.parts.take(i as int)),
            decreases self.parts@.len() - i,
        {
            proof {
                let next = self@.parts.take(i + 1);
                assert(next.drop_last() =~= self@.parts.take(i as int));
                assert(next.last() == self.parts@[i as int]@);
            }
            let piece = self.parts[i].to_string();
            joined.append(piece.as_str());
            i = i + 1;
        }
        assert(self@.parts.take(i as int) =~= self@.parts);
        remove_repeated_chars(joined.as_str())
    }
}

} // verus!
