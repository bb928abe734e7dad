use rand::SeedableRng;
use rand_pcg::Pcg64;
use synthlang::catalog::{
    base_vowel_list, consonant_cluster_list, consonant_letter_list, shape_weight_list,
    spice_letter_list, SPICE_CONSONANTS,
};
use synthlang::inventory::{
    cluster_string, consonant_candidates, diphthong_candidates, draw_inventory, letter_string,
    pick_texts, random_consonants, random_diphthongs, random_spice, random_vowels, vowel_candidates,
};
use synthlang::word::SyllablePartType;

fn distinct(list: &[String]) -> bool {
    let set: std::collections::BTreeSet<&String> = list.iter().collect();
    set.len() == list.len()
}

fn gcd(a: i32, b: i32) -> i32 {
    if b == 0 {
        a
    } else {
        gcd(b, a % b)
    }
}

#[test]
fn the_catalogs_have_their_sizes() {
    assert_eq!(base_vowel_list(), vec!['a', 'e', 'i', 'o', 'u']);
    assert_eq!(consonant_letter_list().len(), 21);
    assert_eq!(consonant_cluster_list().len(), 5);
    assert_eq!(spice_letter_list().len(), 62);
    assert_eq!(SPICE_CONSONANTS, 21);
    assert_eq!(shape_weight_list().len(), 91);
    assert_eq!(vowel_candidates().len(), 5);
    assert_eq!(consonant_candidates().len(), 26);
    assert_eq!(diphthong_candidates().len(), 27);
}

#[test]
fn the_shape_weights_are_the_triples_without_a_common_divisor() {
    let mut expected = vec![];
    for a in 0..5 {
        for b in 0..5 {
            for c in 0..5 {
                if gcd(gcd(a, b), c) == 1 {
                    expected.push((a, b, c));
                }
            }
        }
    }
    assert_eq!(shape_weight_list(), expected);
    assert_eq!(shape_weight_list()[0], (0, 0, 1));
    assert_eq!(shape_weight_list()[90], (4, 4, 3));
}

#[test]
fn the_candidates_are_spelled_out() {
    assert_eq!(vowel_candidates(), vec!["a", "e", "i", "o", "u"]);
    let consonants = consonant_candidates();
    assert_eq!(consonants[0], "b");
    assert_eq!(consonants[12], "q");
    assert_eq!(consonants[20], "z");
    assert_eq!(&consonants[21..], &["ng", "sh", "th", "ch", "zh"]);
    let diphthongs = diphthong_candidates();
    assert_eq!(diphthongs[0], "\u{e6}");
    assert_eq!(diphthongs[1], "\u{153}");
    assert_eq!(diphthongs[2], "aa");
    assert_eq!(diphthongs[3], "ae");
    assert_eq!(diphthongs[7], "ea");
    assert_eq!(diphthongs[26], "uu");
    assert!(distinct(&consonants));
    assert!(distinct(&diphthongs));
}

#[test]
fn the_rare_letters_are_spelled_out() {
    let letters = spice_letter_list();
    assert_eq!(letters[0], '\u{f1}');
    assert_eq!(letters[20], '\u{439}');
    assert_eq!(letters[21], '\u{e0}');
    assert_eq!(letters[61], '\u{171}');
    let set: std::collections::BTreeSet<char> = letters.iter().cloned().collect();
    assert_eq!(set.len(), 62);
}

#[test]
fn strings_are_made_of_their_letters() {
    assert_eq!(letter_string('a'), "a");
    assert_eq!(letter_string('\0'), "\0");
    assert_eq!(letter_string('\u{1e85}'), "\u{1e85}");
    assert_eq!(cluster_string('n', 'g'), "ng");
    assert_eq!(cluster_string('a', 'a'), "aa");
}

#[test]
fn picked_texts_come_in_the_order_of_the_picks() {
    let candidates: Vec<String> = ["x", "y", "z"].iter().map(|s| s.to_string()).collect();
    assert_eq!(pick_texts(&candidates, &vec![2, 0]), vec!["z", "x"]);
    assert_eq!(pick_texts(&candidates, &vec![1, 1, 1]), vec!["y", "y", "y"]);
    assert_eq!(pick_texts(&candidates, &vec![]), Vec::<String>::new());
}

#[test]
fn all_five_base_vowels_are_drawn() {
    let mut orders = std::collections::BTreeSet::new();
    for seed in 0..40u64 {
        let mut rng = Pcg64::seed_from_u64(seed);
        let vowels = random_vowels(&mut rng);
        assert_eq!(vowels.len(), 5);
        let mut sorted = vowels.clone();
        sorted.sort();
        assert_eq!(sorted, vec!["a", "e", "i", "o", "u"]);
        orders.insert(vowels);
    }
    assert!(orders.len() > 10);
}

#[test]
fn sixteen_different_consonants_are_drawn() {
    let catalog = consonant_candidates();
    let mut results = std::collections::BTreeSet::new();
    for seed in 0..40u64 {
        let mut rng = Pcg64::seed_from_u64(seed);
        let consonants = random_consonants(&mut rng);
        assert_eq!(consonants.len(), 16);
        assert!(distinct(&consonants));
        assert!(consonants.iter().all(|c| catalog.contains(c)));
        results.insert(consonants);
    }
    assert!(results.len() > 30);
}

#[test]
fn three_different_diphthongs_are_drawn() {
    let catalog = diphthong_candidates();
    for seed in 0..40u64 {
        let mut rng = Pcg64::seed_from_u64(seed);
        let diphthongs = random_diphthongs(&mut rng);
        assert_eq!(diphthongs.len(), 3);
        assert!(distinct(&diphthongs));
        assert!(diphthongs.iter().all(|d| catalog.contains(d)));
    }
}

#[test]
fn two_different_rare_letters_are_drawn_with_their_categories() {
    let letters = spice_letter_list();
    let mut consonants = 0;
    let mut vowels = 0;
    for seed in 0..200u64 {
        let mut rng = Pcg64::seed_from_u64(seed);
        let spice = random_spice(&mut rng);
        assert_eq!(spice.len(), 2);
        assert_ne!(spice[0].0, spice[1].0);
        for (text, part_type) in spice.iter() {
            let c = text.chars().next().unwrap();
            assert_eq!(text.chars().count(), 1);
            let at = letters.iter().position(|l| *l == c).unwrap();
            if at < 21 {
                assert_eq!(*part_type, SyllablePartType::Consonant);
                consonants += 1;
            } else {
                assert_eq!(*part_type, SyllablePartType::Vowel);
                vowels += 1;
            }
        }
    }
    assert!(consonants > 0);
    assert!(vowels > 0);
}

#[test]
fn an_inventory_lists_base_vowels_then_diphthongs_then_rare_letters() {
    let base = vowel_candidates();
    let diphthongs = diphthong_candidates();
    let plain = consonant_candidates();
    let letters = spice_letter_list();
    let mut sizes = std::collections::BTreeSet::new();
    for seed in 0..100u64 {
        let mut rng = Pcg64::seed_from_u64(seed);
        let (vowels, consonants) = draw_inventory(&mut rng);
        assert!(vowels.len() >= 8 && vowels.len() <= 10);
        assert!(consonants.len() >= 16 && consonants.len() <= 18);
        assert_eq!(vowels.len() + consonants.len(), 26);
        assert!(vowels[..5].iter().all(|v| base.contains(v)));
        assert!(vowels[..5].contains(&"u".to_string()));
        assert!(vowels[5..8].iter().all(|v| diphthongs.contains(v)));
        assert!(consonants[..16].iter().all(|c| plain.contains(c)));
        for v in vowels[8..].iter() {
            let at = letters.iter().position(|l| l.to_string() == *v).unwrap();
            assert!(at >= 21);
        }
        for c in consonants[16..].iter() {
            let at = letters.iter().position(|l| l.to_string() == *c).unwrap();
            assert!(at < 21);
        }
        assert!(distinct(&vowels));
        assert!(distinct(&consonants));
        assert!(consonants.iter().filter(|c| *c == "ng").count() <= 1);
        sizes.insert(vowels.len());
    }
    assert_eq!(sizes.len(), 3);
}

#[test]
fn an_inventory_takes_vowels_consonants_rare_letters_and_diphthongs_in_this_order() {
    for seed in 0..20u64 {
        let mut whole = Pcg64::seed_from_u64(seed);
        let (vowels, consonants) = draw_inventory(&mut whole);
        let mut parts = Pcg64::seed_from_u64(seed);
        let base = random_vowels(&mut parts);
        let plain = random_consonants(&mut parts);
        let spice = random_spice(&mut parts);
        let diphthongs = random_diphthongs(&mut parts);
        let mut expected_vowels = base;
        expected_vowels.extend(diphthongs);
        let mut expected_consonants = plain;
        for (text, part_type) in spice {
            match part_type {
                SyllablePartType::Vowel => expected_vowels.push(text),
                SyllablePartType::Consonant => expected_consonants.push(text),
            }
        }
        assert_eq!(vowels, expected_vowels);
        assert_eq!(consonants, expected_consonants);
        assert_eq!(random_vowels(&mut whole), random_vowels(&mut parts));
    }
}
