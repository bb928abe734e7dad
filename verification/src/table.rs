//! The weights of transitions: for each phoneme, and for the start of a
//! syllable, how likely each vowel and each consonant is to come next.

use crate::inventory::{
    all_phonemes, cluster_text, inventory_sound, letter_string, letter_text, picked, sentinel_text, texts_of,
    vowel_text, InventoryView,
};
use crate::rng::{
    clamped_total, distinct_below, draw_range, draw_shuffle, has_negative, range_draw,
    shuffle_draw, stream_of,
};
use rand_pcg::Pcg64;
use vstd::prelude::*;
use vstd::set_lib::{lemma_int_range, lemma_subset_equality, set_int_range};

verus! {

/// The weight of the candidate at place `i` of a list of `len`: ten in the
/// first half of the list, nothing past four fifths of it, five between.
pub open spec fn base_weight(i: int, len: int) -> i32 {
    if 5 * i > 4 * len {
        0
    } else if 2 * i > len {
        5
    } else {
        10
    }
}

/// The weight of `next_part` after `part`, and the stream after weighing.
/// At the start of a syllable `ng` keeps its weight on one draw in four and
/// loses it otherwise, which takes a number from the stream; after `q` all
/// but `u` lose it; every other pair keeps it.
pub open spec fn overridden(
    stream: (u128, u128),
    weight: i32,
    part: Seq<char>,
    next_part: Seq<char>,
) -> (i32, (u128, u128)) {
    if part == sentinel_text() && next_part == cluster_text('n', 'g') {
        let (n, after) = range_draw(stream, 0, 4);
        (if n == 0 { weight } else { 0 }, after)
    } else if part == letter_text('q') && next_part != letter_text('u') {
        (0, stream)
    } else {
        (weight, stream)
    }
}

/// The weights of the first `n` candidates after `key`, and the stream
/// after weighing them in order.
pub open spec fn list_weights(
    stream: (u128, u128),
    key: Seq<char>,
    candidates: Seq<Seq<char>>,
    n: nat,
) -> (Seq<i32>, (u128, u128))
    decreases n,
{
    if n == 0 {
        (Seq::empty(), stream)
    } else {
        let (weights, s1) = list_weights(stream, key, candidates, (n - 1) as nat);
        let (weight, s2) = overridden(
            s1,
            base_weight(n - 1, candidates.len() as int),
            key,
            candidates[n - 1],
        );
        (weights.push(weight), s2)
    }
}

/// Whether `text` is the one letter `c`.
pub fn is_letter(text: &str, c: char) -> (same: bool)
    ensures
        same == (text@ == letter_text(c)),
{
    let same = text.unicode_len() == 1 && text.get_char(0) == c;
    assert(same == (text@ =~= letter_text(c)));
    same
}

/// Whether `text` is the two letters `first` and `second`.
pub fn is_cluster(text: &str, first: char, second: char) -> (same: bool)
    ensures
        same == (text@ == cluster_text(first, second)),
{
    let same = text.unicode_len() == 2 && text.get_char(0) == first && text.get_char(1) == second;
    assert(same == (text@ =~= cluster_text(first, second)));
    same
}

/// The base weight of the candidate at place `i` of a list of `len`.
pub fn next_part_weight(i: usize, len: usize) -> (weight: i32)
    ensures
        weight == base_weight(i as int, len as int),
{
    let place: u128 = i as u128;
    let length: u128 = len as u128;
    if 5 * place > 4 * length {
        0
    } else if 2 * place > length {
        5
    } else {
        10
    }
}

/// The weight of `next_part` after `part`, given its base weight.
pub fn next_part_weight_overrides(
    rng: &mut Pcg64,
    weight: i32,
    part: &str,
    next_part: &str,
) -> (adjusted: i32)
    ensures
        (adjusted, stream_of(*final(rng))) == overridden(
            stream_of(*old(rng)),
            weight,
            part@,
            next_part@,
        ),
        adjusted == weight || adjusted == 0,
{
    if is_letter(part, '\0') && is_cluster(next_part, 'n', 'g') {
        if draw_range(rng, 0, 4) == 0 {
            weight
        } else {
            0
        }
    } else if is_letter(part, 'q') && !is_letter(next_part, 'u') {
        0
    } else {
        weight
    }
}

/// The weights of all the candidates after `key`, in the candidates' order.
pub fn candidate_weights(
    rng: &mut Pcg64,
    key: &str,
    candidates: &Vec<String>,
) -> (weights: Vec<i32>)
    ensures
        (weights@, stream_of(*final(rng))) == list_weights(
            stream_of(*old(rng)),
            key@,
            texts_of(candidates@),
            candidates@.len(),
        ),
{
    let mut weights: Vec<i32> = Vec::new();
    let mut i: usize = 0;
    while i < candidates.len()
        invariant
            i <= candidates@.len(),
            (weights@, stream_of(*rng)) == list_weights(
                stream_of(*old(rng)),
                key@,
                texts_of(candidates@),
                i as nat,
            ),
        decreases candidates@.len() - i,
    {
        let base = next_part_weight(i, candidates.len());
        let weight = next_part_weight_overrides(rng, base, key, candidates[i].as_str());
        weights.push(weight);
        i = i + 1;
    }
    weights
}

/// What the table holds for one phoneme, or for the start of a syllable:
/// the weight of each vowel and of each consonant of the inventory as the
/// next phoneme, in the inventory's order.
#[derive(Debug)]
pub struct TransitionEntry {
    pub key: String,
    pub vowel_weights: Vec<i32>,
    pub consonant_weights: Vec<i32>,
}

/// The table: its entries in the order in which they were made. Where two
/// entries have one key, the later one counts.
#[derive(Debug)]
pub struct TransitionTable {
    pub entries: Vec<TransitionEntry>,
}

/// An entry as a value.
pub struct EntryView {
    pub key: Seq<char>,
    pub vowel_weights: Seq<i32>,
    pub consonant_weights: Seq<i32>,
}

impl View for TransitionEntry {
    type V = EntryView;

    open spec fn view(&self) -> EntryView {
        EntryView {
            key: self.key@,
            vowel_weights: self.vowel_weights@,
            consonant_weights: self.consonant_weights@,
        }
    }
}

impl View for TransitionTable {
    type V = Seq<EntryView>;

    open spec fn view(&self) -> Seq<EntryView> {
        Seq::new(self.entries@.len(), |i: int| self.entries@[i]@)
    }
}

/// The entry for `key`, and the stream after making it: the vowels are
/// weighed first, then the consonants.
pub open spec fn entry_for(stream: (u128, u128), key: Seq<char>, inventory: InventoryView) -> (
    EntryView,
    (u128, u128),
) {
    let (vowel_weights, s1) = list_weights(stream, key, inventory.vowels, inventory.vowels.len());
    let (consonant_weights, s2) = list_weights(
        s1,
        key,
        inventory.consonants,
        inventory.consonants.len(),
    );
    (EntryView { key, vowel_weights, consonant_weights }, s2)
}

/// The entries for the first `n` keys, and the stream after making them in
/// order.
pub open spec fn entries_for(
    stream: (u128, u128),
    keys: Seq<Seq<char>>,
    inventory: InventoryView,
    n: nat,
) -> (Seq<EntryView>, (u128, u128))
    decreases n,
{
    if n == 0 {
        (Seq::empty(), stream)
    } else {
        let (entries, s1) = entries_for(stream, keys, inventory, (n - 1) as nat);
        let (entry, s2) = entry_for(s1, keys[n - 1], inventory);
        (entries.push(entry), s2)
    }
}

/// The keys of the table before they are shuffled: the vowels, the
/// consonants and the mark of a syllable's start.
pub open spec fn table_keys(inventory: InventoryView) -> Seq<Seq<char>> {
    inventory.vowels + inventory.consonants + seq![sentinel_text()]
}

/// The table of an inventory drawn from a stream, and the stream after it:
/// the keys are shuffled, then each gets its entry.
pub open spec fn table_draw(stream: (u128, u128), inventory: InventoryView) -> (
    Seq<EntryView>,
    (u128, u128),
) {
    let keys = table_keys(inventory);
    let (order, s1) = shuffle_draw(stream, keys.len() as usize);
    entries_for(s1, picked(keys, order), inventory, keys.len())
}

/// The place of the entry that counts for `key`: the last with that key.
pub open spec fn lookup(entries: Seq<EntryView>, key: Seq<char>) -> Option<int>
    decreases entries.len(),
{
    if entries.len() == 0 {
        None
    } else if entries.last().key == key {
        Some(entries.len() - 1)
    } else {
        lookup(entries.drop_last(), key)
    }
}

/// The table as a mapping from keys to entries.
pub open spec fn table_map(entries: Seq<EntryView>) -> Map<Seq<char>, EntryView>
    decreases entries.len(),
{
    if entries.len() == 0 {
        Map::empty()
    } else {
        table_map(entries.drop_last()).insert(entries.last().key, entries.last())
    }
}

/// Looking a key up finds what the mapping holds for it.
pub proof fn lemma_lookup_is_map(entries: Seq<EntryView>, key: Seq<char>)
    ensures
        lookup(entries, key) is Some <==> table_map(entries).dom().contains(key),
        lookup(entries, key) matches Some(i) ==> 0 <= i < entries.len() && entries[i].key == key
            && table_map(entries)[key] == entries[i],
    decreases entries.len(),
{
    if entries.len() > 0 {
        lemma_lookup_is_map(entries.drop_last(), key);
    }
}

/// A key of some entry is found.
pub proof fn lemma_lookup_finds(entries: Seq<EntryView>, at: int)
    requires
        0 <= at < entries.len(),
    ensures
        lookup(entries, entries[at].key) is Some,
    decreases entries.len(),
{
    if at < entries.len() - 1 && entries.last().key != entries[at].key {
        lemma_lookup_finds(entries.drop_last(), at);
    }
}

impl TransitionTable {
    /// The place of the entry that counts for `key`, if there is one.
    pub fn find(&self, key: &str) -> (place: Option<usize>)
        ensures
            place is Some <==> lookup(self@, key@) is Some,
            place matches Some(i) ==> lookup(self@, key@) == Some(i as int) && i
                < self.entries@.len(),
    {
        let mut i: usize = self.entries.len();
        assert(self@.take(i as int) =~= self@);
        while i > 0
            invariant
                i <= self.entries@.len(),
                self@.len() == self.entries@.len(),
                lookup(self@, key@) == lookup(self@.take(i as int), key@),
            decreases i,
        {
            proof {
                let upto = self@.take(i as int);
                assert(upto.drop_last() =~= self@.take(i - 1));
                assert(upto.last() == self.entries@[i - 1]@);
            }
            if same_text(self.entries[i - 1].key.as_str(), key) {
                return Some(i - 1);
            }
            i = i - 1;
        }
        None
    }
}

/// Whether two texts are equal.
pub fn same_text(a: &str, b: &str) -> (same: bool)
    ensures
        same == (a@ == b@),
{
    let n = a.unicode_len();
    if n != b.unicode_len() {
        return false;
    }
    let mut i: usize = 0;
    while i < n
        invariant
            n == a@.len(),
            n == b@.len(),
            i <= n,
            forall|k: int| 0 <= k < i ==> a@[k] == b@[k],
        decreases n - i,
    {
        if a.get_char(i) != b.get_char(i) {
            return false;
        }
        i = i + 1;
    }
    assert(a@ =~= b@);
    true
}

/// Some weight is positive.
pub open spec fn has_positive(weights: Seq<i32>) -> bool {
    exists|i: int| 0 <= i < weights.len() && #[trigger] weights[i] > 0
}

/// Every weight lies between nothing and ten.
pub open spec fn weights_bounded(weights: Seq<i32>) -> bool {
    forall|i: int| 0 <= i < weights.len() ==> 0 <= #[trigger] weights[i] <= 10
}

/// The weights follow the rules after `key`: each is the base weight of
/// its place or nothing; after `q` every candidate but `u` has nothing; and
/// a candidate keeps its base weight unless it is `ng` at the start of a
/// syllable or follows `q` without being `u`.
pub open spec fn weights_ruled(key: Seq<char>, candidates: Seq<Seq<char>>, weights: Seq<i32>) -> bool {
    &&& weights.len() == candidates.len()
    &&& forall|i: int|
        0 <= i < weights.len() ==> {
            let weight = #[trigger] weights[i];
            let base = base_weight(i, candidates.len() as int);
            &&& weight == base || weight == 0
            &&& key == letter_text('q') && candidates[i] != letter_text('u') ==> weight == 0
            &&& !(key == sentinel_text() && candidates[i] == cluster_text('n', 'g')) && !(key
                == letter_text('q') && candidates[i] != letter_text('u')) ==> weight == base
        }
}

/// An entry from which the next phoneme can always be drawn where a
/// syllable needs one: it has a weight for each phoneme of the inventory,
/// by the rules; after the start of a syllable and after a consonant some
/// vowel has a positive weight, after the start of a syllable and after a
/// vowel some consonant.
pub open spec fn entry_sound(entry: EntryView, inventory: InventoryView) -> bool {
    &&& entry.vowel_weights.len() == inventory.vowels.len()
    &&& entry.consonant_weights.len() == inventory.consonants.len()
    &&& weights_bounded(entry.vowel_weights)
    &&& weights_bounded(entry.consonant_weights)
    &&& weights_ruled(entry.key, inventory.vowels, entry.vowel_weights)
    &&& weights_ruled(entry.key, inventory.consonants, entry.consonant_weights)
    &&& (entry.key == sentinel_text() || inventory.consonants.contains(entry.key))
        ==> has_positive(entry.vowel_weights)
    &&& (entry.key == sentinel_text() || inventory.vowels.contains(entry.key)) ==> has_positive(
        entry.consonant_weights,
    )
}

/// A table whose entries are all sound and whose keys are the phonemes of
/// the inventory and the start of a syllable, each once and nothing else.
pub open spec fn table_sound(entries: Seq<EntryView>, inventory: InventoryView) -> bool {
    &&& forall|i: int| 0 <= i < entries.len() ==> entry_sound(#[trigger] entries[i], inventory)
    &&& entries.len() == table_keys(inventory).len()
    &&& forall|i: int|
        0 <= i < entries.len() ==> table_keys(inventory).contains((#[trigger] entries[i]).key)
    &&& forall|i: int, j: int|
        0 <= i < j < entries.len() ==> (#[trigger] entries[i]).key != (#[trigger] entries[j]).key
    &&& lookup(entries, sentinel_text()) is Some
    &&& forall|i: int|
        0 <= i < inventory.vowels.len() ==> lookup(entries, #[trigger] inventory.vowels[i]) is Some
    &&& forall|i: int|
        0 <= i < inventory.consonants.len() ==> lookup(
            entries,
            #[trigger] inventory.consonants[i],
        ) is Some
}

/// Bounded weights hold no negative one and add up to ten times their
/// number at most; with a positive one among them the sum is positive.
pub proof fn lemma_bounded_total(weights: Seq<i32>)
    requires
        weights_bounded(weights),
    ensures
        !has_negative(weights),
        0 <= clamped_total(weights) <= 10 * weights.len(),
        has_positive(weights) ==> clamped_total(weights) > 0,
    decreases weights.len(),
{
    if weights.len() > 0 {
        let init = weights.drop_last();
        assert forall|i: int| 0 <= i < init.len() implies 0 <= #[trigger] init[i] <= 10 by {
            assert(init[i] == weights[i]);
        }
        lemma_bounded_total(init);
        assert(0 <= weights[weights.len() - 1] <= 10);
        if has_positive(weights) {
            let at = choose|i: int| 0 <= i < weights.len() && #[trigger] weights[i] > 0;
            if at < weights.len() - 1 {
                assert(init[at] > 0);
            }
        }
    }
}

/// The first `n` weights after `key` follow the rules, and so do all of
/// them together.
pub proof fn lemma_list_weights(
    stream: (u128, u128),
    key: Seq<char>,
    candidates: Seq<Seq<char>>,
    n: nat,
)
    requires
        n <= candidates.len(),
    ensures
        list_weights(stream, key, candidates, n).0.len() == n,
        forall|i: int|
            0 <= i < n ==> {
                let weight = #[trigger] list_weights(stream, key, candidates, n).0[i];
                let base = base_weight(i, candidates.len() as int);
                &&& weight == base || weight == 0
                &&& key == letter_text('q') && candidates[i] != letter_text('u') ==> weight == 0
                &&& !(key == sentinel_text() && candidates[i] == cluster_text('n', 'g')) && !(key
                    == letter_text('q') && candidates[i] != letter_text('u')) ==> weight == base
            },
        weights_bounded(list_weights(stream, key, candidates, n).0),
        n == candidates.len() ==> weights_ruled(
            key,
            candidates,
            list_weights(stream, key, candidates, n).0,
        ),
    decreases n,
{
    assert(sentinel_text()[0] == '\0' && letter_text('q')[0] == 'q');
    if n > 0 {
        lemma_list_weights(stream, key, candidates, (n - 1) as nat);
        let before = list_weights(stream, key, candidates, (n - 1) as nat).0;
        let all = list_weights(stream, key, candidates, n).0;
        assert forall|i: int| 0 <= i < n implies {
            let weight = #[trigger] all[i];
            let base = base_weight(i, candidates.len() as int);
            &&& weight == base || weight == 0
            &&& key == letter_text('q') && candidates[i] != letter_text('u') ==> weight == 0
            &&& !(key == sentinel_text() && candidates[i] == cluster_text('n', 'g')) && !(key
                == letter_text('q') && candidates[i] != letter_text('u')) ==> weight == base
        } by {
            if i < n - 1 {
                assert(all[i] == before[i]);
            }
        }
    }
}

/// The entry made for any key of a sound inventory is sound.
pub proof fn lemma_entry_sound(stream: (u128, u128), key: Seq<char>, inventory: InventoryView)
    requires
        inventory_sound(inventory),
    ensures
        entry_sound(entry_for(stream, key, inventory).0, inventory),
        entry_for(stream, key, inventory).0.key == key,
{
    let vowels = inventory.vowels;
    let consonants = inventory.consonants;
    let (vowel_weights, s1) = list_weights(stream, key, vowels, vowels.len());
    let (consonant_weights, s2) = list_weights(s1, key, consonants, consonants.len());
    lemma_list_weights(stream, key, vowels, vowels.len());
    lemma_list_weights(s1, key, consonants, consonants.len());
    assert(sentinel_text()[0] == '\0' && sentinel_text().len() == 1);
    assert(letter_text('q')[0] == 'q' && letter_text('q').len() == 1);
    assert(cluster_text('n', 'g')[0] == 'n');
    if key == sentinel_text() || consonants.contains(key) {
        if key == letter_text('q') {
            let at = choose|i: int| 0 <= i < 5 && #[trigger] vowels[i] == letter_text('u');
            assert(vowel_weights[at] == base_weight(at, vowels.len() as int));
            assert(vowel_weights[at] > 0);
        } else {
            assert(vowel_text(vowels[0]));
            assert(vowel_weights[0] == base_weight(0, vowels.len() as int));
            assert(vowel_weights[0] > 0);
        }
    }
    if key == sentinel_text() || vowels.contains(key) {
        if key == sentinel_text() {
            if consonants[0] == cluster_text('n', 'g') {
                let all = all_phonemes(inventory);
                let first = vowels.len() as int;
                assert(all[first] == consonants[0]);
                assert(all[first + 1] == consonants[1]);
                assert(consonants[1] != cluster_text('n', 'g'));
                assert(consonant_weights[1] == base_weight(1, consonants.len() as int));
                assert(consonant_weights[1] > 0);
            } else {
                assert(consonant_weights[0] == base_weight(0, consonants.len() as int));
                assert(consonant_weights[0] > 0);
            }
        } else {
            let at = choose|i: int| 0 <= i < vowels.len() && vowels[i] == key;
            assert(vowel_text(vowels[at]));
            assert(consonant_weights[0] == base_weight(0, consonants.len() as int));
            assert(consonant_weights[0] > 0);
        }
    }
}

/// The entries made for keys of a sound inventory are sound, one for each
/// key in the keys' order.
pub proof fn lemma_entries_sound(
    stream: (u128, u128),
    keys: Seq<Seq<char>>,
    inventory: InventoryView,
    n: nat,
)
    requires
        inventory_sound(inventory),
        n <= keys.len(),
    ensures
        entries_for(stream, keys, inventory, n).0.len() == n,
        forall|i: int|
            0 <= i < n ==> {
                let entry = #[trigger] entries_for(stream, keys, inventory, n).0[i];
                entry.key == keys[i] && entry_sound(entry, inventory)
            },
    decreases n,
{
    if n > 0 {
        lemma_entries_sound(stream, keys, inventory, (n - 1) as nat);
        let (before, s1) = entries_for(stream, keys, inventory, (n - 1) as nat);
        lemma_entry_sound(s1, keys[n - 1], inventory);
        let all = entries_for(stream, keys, inventory, n).0;
        assert forall|i: int| 0 <= i < n implies {
            let entry = #[trigger] all[i];
            entry.key == keys[i] && entry_sound(entry, inventory)
        } by {
            if i < n - 1 {
                assert(all[i] == before[i]);
            }
        }
    }
}

/// An order that names as many different places as there are holds each
/// place.
pub proof fn lemma_order_covers(order: Seq<usize>, length: usize, place: int)
    requires
        order.len() == length,
        distinct_below(order, length),
        0 <= place < length,
    ensures
        exists|k: int| 0 <= k < order.len() && #[trigger] order[k] == place,
{
    let places = Seq::new(order.len(), |k: int| order[k] as int);
    assert(places.no_duplicates());
    places.unique_seq_to_set();
    lemma_int_range(0, length as int);
    assert forall|x: int| places.to_set().contains(x) implies set_int_range(
        0,
        length as int,
    ).contains(x) by {
        let k = choose|k: int| 0 <= k < places.len() && places[k] == x;
        assert(order[k] < length);
    }
    vstd::seq_lib::seq_to_set_is_finite(places);
    lemma_subset_equality(places.to_set(), set_int_range(0, length as int));
    assert(set_int_range(0, length as int).contains(place));
    assert(places.to_set().contains(place));
    let k = choose|k: int| 0 <= k < places.len() && places[k] == place;
    assert(order[k] == place);
}

/// The table drawn for a sound inventory is sound, whatever the order in
/// which its keys were shuffled.
pub proof fn lemma_table_sound(
    stream: (u128, u128),
    inventory: InventoryView,
    order: Seq<usize>,
)
    requires
        inventory_sound(inventory),
        order.len() == table_keys(inventory).len(),
        distinct_below(order, table_keys(inventory).len() as usize),
    ensures
        table_sound(
            entries_for(
                stream,
                picked(table_keys(inventory), order),
                inventory,
                table_keys(inventory).len(),
            ).0,
            inventory,
        ),
{
    let all = table_keys(inventory);
    let keys = picked(all, order);
    let entries = entries_for(stream, keys, inventory, all.len()).0;
    let vowels = inventory.vowels.len() as int;
    let consonants = inventory.consonants.len() as int;
    lemma_entries_sound(stream, keys, inventory, all.len());
    assert forall|place: int| 0 <= place < all.len() implies lookup(entries, #[trigger] all[place])
        is Some by {
        lemma_order_covers(order, all.len() as usize, place);
        let k = choose|k: int| 0 <= k < order.len() && #[trigger] order[k] == place;
        assert(entries[k].key == keys[k]);
        lemma_lookup_finds(entries, k);
    }
    assert(all[vowels + consonants] == sentinel_text());
    assert forall|i: int| 0 <= i < vowels implies lookup(entries, #[trigger] inventory.vowels[i])
        is Some by {
        assert(all[i] == inventory.vowels[i]);
    }
    assert forall|i: int| 0 <= i < consonants implies lookup(
        entries,
        #[trigger] inventory.consonants[i],
    ) is Some by {
        assert(all[vowels + i] == inventory.consonants[i]);
    }
}

/// Builds the table of an inventory: shuffles the keys, then weighs, for
/// each key in turn, every vowel and then every consonant after it.
pub fn build_table(rng: &mut Pcg64, vowels: &Vec<String>, consonants: &Vec<String>) -> (table:
    TransitionTable)
    requires
        inventory_sound(
            InventoryView { vowels: texts_of(vowels@), consonants: texts_of(consonants@) },
        ),
    ensures
        (table@, stream_of(*final(rng))) == table_draw(
            stream_of(*old(rng)),
            InventoryView { vowels: texts_of(vowels@), consonants: texts_of(consonants@) },
        ),
        table_sound(
            table@,
            InventoryView { vowels: texts_of(vowels@), consonants: texts_of(consonants@) },
        ),
{
    let ghost inventory = InventoryView {
        vowels: texts_of(vowels@),
        consonants: texts_of(consonants@),
    };
    let ghost all = table_keys(inventory);
    let mut keys: Vec<String> = Vec::new();
    let mut i: usize = 0;
    while i < vowels.len()
        invariant
            i <= vowels@.len(),
            keys@.len() == i,
            forall|k: int| 0 <= k < i ==> (#[trigger] keys@[k])@ == vowels@[k]@,
        decreases vowels@.len() - i,
    {
        keys.push(vowels[i].clone());
        i = i + 1;
    }
    let mut j: usize = 0;
    while j < consonants.len()
        invariant
            j <= consonants@.len(),
            consonants@.len() <= 18,
            vowels@.len() <= 10,
            keys@.len() == vowels@.len() + j,
            forall|k: int| 0 <= k < vowels@.len() ==> (#[trigger] keys@[k])@ == vowels@[k]@,
            forall|k: int|
                0 <= k < j ==> (#[trigger] keys@[vowels@.len() + k])@ == consonants@[k]@,
        decreases consonants@.len() - j,
    {
        keys.push(consonants[j].clone());
        j = j + 1;
    }
    keys.push(letter_string('\0'));
    proof {
        assert forall|k: int| 0 <= k < all.len() implies texts_of(keys@)[k] == all[k] by {
            if vowels@.len() <= k < vowels@.len() + consonants@.len() {
                assert(keys@[vowels@.len() + (k - vowels@.len())]@ == consonants@[k
                    - vowels@.len()]@);
            }
        }
        assert(texts_of(keys@) =~= all);
    }
    let ghost s0 = stream_of(*rng);
    let order = draw_shuffle(rng, keys.len());
    let ghost s1 = stream_of(*rng);
    let ghost shuffled = picked(all, order@);
    let mut entries: Vec<TransitionEntry> = Vec::new();
    let mut k: usize = 0;
    while k < order.len()
        invariant
            k <= order@.len(),
            order@.len() == keys@.len(),
            keys@.len() == all.len(),
            texts_of(keys@) == all,
            distinct_below(order@, keys@.len() as usize),
            shuffled == picked(all, order@),
            inventory == (InventoryView {
                vowels: texts_of(vowels@),
                consonants: texts_of(consonants@),
            }),
            entries@.len() == k,
            (Seq::new(entries@.len(), |i: int| entries@[i]@), stream_of(*rng)) == entries_for(
                s1,
                shuffled,
                inventory,
                k as nat,
            ),
        decreases order@.len() - k,
    {
        let ghost before = Seq::new(entries@.len(), |i: int| entries@[i]@);
        let key = keys[order[k]].clone();
        assert(key@ == shuffled[k as int]) by {
            assert(texts_of(keys@)[order@[k as int] as int] == keys@[order@[k as int] as int]@);
        }
        let vowel_weights = candidate_weights(rng, key.as_str(), vowels);
        let consonant_weights = candidate_weights(rng, key.as_str(), consonants);
        let entry = TransitionEntry { key, vowel_weights, consonant_weights };
        entries.push(entry);
        assert(Seq::new(entries@.len(), |i: int| entries@[i]@) =~= before.push(entry@));
        k = k + 1;
    }
    let table = TransitionTable { entries };
    proof {
        assert(table@ =~= Seq::new(entries@.len(), |i: int| entries@[i]@));
        lemma_table_sound(s1, inventory, order@);
    }
    table
}

} // verus!
