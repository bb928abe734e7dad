use rand::Rng;
use rand::SeedableRng;
use rand_pcg::Pcg64;
use synthlang::catalog::shape_weight_list;
use synthlang::inventory::draw_inventory;
use synthlang::table::build_table;
use synthlang::lang::{draw_rule, random_weights};
use synthlang::word::{CompoundRule, Syllable, SyllablePartType};
use synthlang::{SynthLang, Word};

fn categories(syllable: &Syllable) -> Vec<SyllablePartType> {
    (0..syllable.len()).map(|i| syllable.part(i).part_type()).collect()
}

fn conforms(syllable: &Syllable) -> bool {
    let c = SyllablePartType::Consonant;
    let v = SyllablePartType::Vowel;
    let found = categories(syllable);
    found == vec![c, v] || found == vec![v, c] || found == vec![c, v, c]
}

fn described(word: &Word) -> (Vec<Vec<(SyllablePartType, String)>>, CompoundRule, String) {
    let parts = (0..word.syllable_count())
        .map(|i| {
            let s = word.syllable(i);
            (0..s.len()).map(|k| (s.part(k).part_type(), s.part(k).value().clone())).collect()
        })
        .collect();
    (parts, word.compound_rule(), word.to_string())
}

#[test]
fn it_works() {
    let mut r = SynthLang::new(rand::thread_rng().gen());
    println!("{:?}", r);
    println!();
    println!("The distinguished language of {}", r.word().to_string());
    println!();
    for meaning in ["dress", "child", "shoes", "orange", "note", "cake", "soup", "soldier", "reporter"] {
        println!("{:10}{:10}", r.word().to_string(), meaning);
    }
    println!();
    let green = r.word();
    let red = r.word();
    let mountain = r.word();
    let stream = r.word();
    println!(
        "{:20}{:10}{:10}{:20}",
        r.compound(&green, &mountain).to_string(),
        green.to_string(),
        mountain.to_string(),
        "Green Mountain",
    );
    println!(
        "{:20}{:10}{:10}{:20}",
        r.compound(&green, &stream).to_string(),
        green.to_string(),
        stream.to_string(),
        "Green River",
    );
    println!(
        "{:20}{:10}{:10}{:20}",
        r.compound(&red, &mountain).to_string(),
        red.to_string(),
        mountain.to_string(),
        "Red Mountain",
    );
    println!(
        "{:20}{:10}{:10}{:20}",
        r.compound(&red, &stream).to_string(),
        red.to_string(),
        stream.to_string(),
        "Red River",
    );
    println!();
    assert_eq!(2 + 2, 4);
}

#[test]
fn a_language_has_its_inventory_and_shape_weights() {
    let triples = shape_weight_list();
    for seed in 0..60u64 {
        let lang = SynthLang::new(seed);
        assert!(lang.vowels().len() >= 8 && lang.vowels().len() <= 10);
        assert!(lang.consonants().len() >= 16 && lang.consonants().len() <= 18);
        assert!(lang.vowels()[..5].contains(&"u".to_string()));
        let weights = (lang.cv_weight(), lang.vc_weight(), lang.cvc_weight());
        assert!(triples.contains(&weights));
        assert!(weights.0 + weights.1 + weights.2 > 0);
    }
}

#[test]
fn languages_of_different_seeds_differ() {
    let mut inventories = std::collections::BTreeSet::new();
    let mut weights = std::collections::BTreeSet::new();
    for seed in 0..40u64 {
        let lang = SynthLang::new(seed);
        inventories.insert((lang.vowels().clone(), lang.consonants().clone()));
        weights.insert((lang.cv_weight(), lang.vc_weight(), lang.cvc_weight()));
    }
    assert_eq!(inventories.len(), 40);
    assert!(weights.len() > 10);
}

#[test]
fn shape_weights_are_drawn_from_the_triples() {
    let triples = shape_weight_list();
    let mut seen = std::collections::BTreeSet::new();
    let mut rng = Pcg64::seed_from_u64(17);
    for _ in 0..2000 {
        let weights = random_weights(&mut rng);
        assert!(triples.contains(&weights));
        seen.insert(weights);
    }
    assert!(seen.len() > 80);
}

#[test]
fn rules_are_drawn_one_two_one() {
    let mut rng = Pcg64::seed_from_u64(23);
    let mut left = 0;
    let mut right = 0;
    let mut none = 0;
    for _ in 0..8000 {
        match draw_rule(&mut rng) {
            CompoundRule::DropLeft => left += 1,
            CompoundRule::DropRight => right += 1,
            CompoundRule::DropNone => none += 1,
        }
    }
    assert!((left as f64 / 8000.0 - 0.25).abs() < 0.02);
    assert!((right as f64 / 8000.0 - 0.25).abs() < 0.02);
    assert!((none as f64 / 8000.0 - 0.5).abs() < 0.02);
}

#[test]
fn the_same_seed_gives_the_same_words() {
    for seed in [0u64, 1, 2, 3, 99, 12345, u64::MAX] {
        let mut first = SynthLang::new(seed);
        let mut second = SynthLang::new(seed);
        assert_eq!(first.vowels(), second.vowels());
        assert_eq!(first.consonants(), second.consonants());
        let mut first_words = vec![];
        let mut second_words = vec![];
        for step in 0..40usize {
            if step % 4 == 3 {
                let a = lang_compound(&mut first, &first_words, step);
                let b = lang_compound(&mut second, &second_words, step);
                first_words.push(a);
                second_words.push(b);
            } else {
                first_words.push(first.word());
                second_words.push(second.word());
            }
        }
        for (a, b) in first_words.iter().zip(second_words.iter()) {
            assert_eq!(described(a), described(b));
        }
    }
}

fn lang_compound(lang: &mut SynthLang, words: &[Word], step: usize) -> Word {
    lang.compound(&words[step - 3], &words[step - 1])
}

#[test]
fn different_seeds_give_different_words() {
    let mut texts = std::collections::BTreeSet::new();
    for seed in 0..30u64 {
        let mut lang = SynthLang::new(seed);
        let run: Vec<String> = (0..8).map(|_| lang.word().to_string()).collect();
        texts.insert(run);
    }
    assert_eq!(texts.len(), 30);
}

#[test]
fn every_syllable_has_one_of_the_three_shapes() {
    for seed in 0..40u64 {
        let mut lang = SynthLang::new(seed);
        for _ in 0..50 {
            let syllable = lang.syllable();
            assert!(conforms(&syllable));
        }
        for _ in 0..50 {
            let word = lang.word();
            for i in 0..word.syllable_count() {
                assert!(conforms(word.syllable(i)));
            }
        }
    }
}

#[test]
fn shapes_follow_the_shape_weights() {
    for seed in 0..40u64 {
        let mut lang = SynthLang::new(seed);
        let weights = [lang.cv_weight(), lang.vc_weight(), lang.cvc_weight()];
        let total: i32 = weights.iter().sum();
        let mut seen = [0usize; 3];
        let draws = 3000;
        for _ in 0..draws {
            let syllable = lang.syllable();
            let found = categories(&syllable);
            let at = if found.len() == 3 {
                2
            } else if found[0] == SyllablePartType::Consonant {
                0
            } else {
                1
            };
            seen[at] += 1;
        }
        for at in 0..3 {
            if weights[at] == 0 {
                assert_eq!(seen[at], 0);
            }
            let expected = weights[at] as f64 / total as f64;
            assert!((seen[at] as f64 / draws as f64 - expected).abs() < 0.04);
        }
    }
}

#[test]
fn every_phoneme_comes_from_the_inventory() {
    for seed in 0..40u64 {
        let mut lang = SynthLang::new(seed);
        let vowels = lang.vowels().clone();
        let consonants = lang.consonants().clone();
        for _ in 0..100 {
            let word = lang.word();
            for i in 0..word.syllable_count() {
                let s = word.syllable(i);
                for k in 0..s.len() {
                    match s.part(k).part_type() {
                        SyllablePartType::Vowel => assert!(vowels.contains(s.part(k).value())),
                        SyllablePartType::Consonant => assert!(consonants.contains(s.part(k).value())),
                    }
                }
            }
        }
    }
}

#[test]
fn only_u_follows_q() {
    let mut found = 0;
    for seed in 0..60u64 {
        let mut lang = SynthLang::new(seed);
        if !lang.consonants().contains(&"q".to_string()) {
            continue;
        }
        for _ in 0..30 {
            assert_eq!(lang.next_part("q", SyllablePartType::Vowel), "u");
            found += 1;
        }
        for _ in 0..300 {
            let syllable = lang.syllable();
            for k in 0..syllable.len() - 1 {
                if syllable.part(k).value() == "q" {
                    assert_eq!(syllable.part(k + 1).value(), "u");
                }
            }
        }
    }
    assert!(found > 0);
}

#[test]
fn the_last_fifth_of_a_list_is_never_drawn() {
    for seed in 0..40u64 {
        let mut lang = SynthLang::new(seed);
        let vowels = lang.vowels().clone();
        let consonants = lang.consonants().clone();
        for _ in 0..300 {
            let v = lang.next_part("\0", SyllablePartType::Vowel);
            let at = vowels.iter().position(|x| *x == v).unwrap();
            assert!(5 * at <= 4 * vowels.len());
            let c = lang.next_part(&v, SyllablePartType::Consonant);
            let at = consonants.iter().position(|x| *x == c).unwrap();
            assert!(5 * at <= 4 * consonants.len());
        }
    }
}

#[test]
fn every_phoneme_has_a_positive_weight_after_the_one_before_it() {
    for seed in 0..30u64 {
        let mut rng = Pcg64::seed_from_u64(seed);
        let (vowels, consonants) = draw_inventory(&mut rng);
        let table = build_table(&mut rng, &vowels, &consonants);
        let mut lang = SynthLang::new(seed);
        assert_eq!(lang.vowels(), &vowels);
        assert_eq!(lang.consonants(), &consonants);
        for _ in 0..200 {
            let syllable = lang.syllable();
            let mut before = "\0".to_string();
            for k in 0..syllable.len() {
                let part = syllable.part(k);
                let entry = &table.entries[table.find(&before).unwrap()];
                let weight = match part.part_type() {
                    SyllablePartType::Vowel => {
                        entry.vowel_weights[vowels.iter().position(|v| v == part.value()).unwrap()]
                    }
                    SyllablePartType::Consonant => {
                        entry.consonant_weights
                            [consonants.iter().position(|c| c == part.value()).unwrap()]
                    }
                };
                assert!(weight > 0);
                assert!(!part.value().is_empty());
                before = part.value().clone();
            }
        }
    }
}

#[test]
fn a_language_has_twenty_six_different_phonemes() {
    for seed in 0..60u64 {
        let lang = SynthLang::new(seed);
        let mut all: Vec<String> = lang.vowels().clone();
        all.extend(lang.consonants().iter().cloned());
        assert_eq!(all.len(), 26);
        let set: std::collections::BTreeSet<&String> = all.iter().collect();
        assert_eq!(set.len(), 26);
        assert!(!all.contains(&"\0".to_string()));
        assert!(all.iter().all(|text| !text.is_empty()));
    }
}

#[test]
fn shape_weights_are_four_at_most_and_not_all_nothing() {
    let mut rng = Pcg64::seed_from_u64(29);
    for _ in 0..2000 {
        let (cv, vc, cvc) = random_weights(&mut rng);
        assert!((0..=4).contains(&cv) && (0..=4).contains(&vc) && (0..=4).contains(&cvc));
        assert!(cv + vc + cvc >= 1);
    }
    for seed in 0..60u64 {
        let lang = SynthLang::new(seed);
        for weight in [lang.cv_weight(), lang.vc_weight(), lang.cvc_weight()] {
            assert!((0..=4).contains(&weight));
        }
    }
}

#[test]
fn a_phoneme_can_follow_one_of_its_own_category() {
    for seed in 0..40u64 {
        let mut lang = SynthLang::new(seed);
        let vowels = lang.vowels().clone();
        let consonants = lang.consonants().clone();
        for v in vowels.iter() {
            let next = lang.next_part(v, SyllablePartType::Vowel);
            assert!(vowels.contains(&next));
        }
        for c in consonants.iter().filter(|c| *c != "q") {
            let next = lang.next_part(c, SyllablePartType::Consonant);
            assert!(consonants.contains(&next));
        }
    }
}

#[test]
fn a_word_has_one_or_two_syllables() {
    let mut ones = 0;
    let mut twos = 0;
    for seed in 0..20u64 {
        let mut lang = SynthLang::new(seed);
        for _ in 0..300 {
            let word = lang.word();
            match word.syllable_count() {
                1 => ones += 1,
                2 => twos += 1,
                n => panic!("{} syllables", n),
            }
            assert!(!word.to_string().is_empty());
        }
    }
    let share = twos as f64 / (ones + twos) as f64;
    assert!((share - 2.0 / 3.0).abs() < 0.03, "{}", share);
}

#[test]
fn a_compound_of_drawn_words_is_never_empty() {
    for seed in 0..20u64 {
        let mut lang = SynthLang::new(seed);
        for _ in 0..100 {
            let left = lang.word();
            let right = lang.word();
            let n = left.syllable_count();
            let m = right.syllable_count();
            let compound = lang.compound(&left, &right);
            assert!(compound.syllable_count() >= 1);
            assert!(compound.syllable_count() >= std::cmp::max(1, n - 1) + std::cmp::max(1, m - 1));
            assert!(compound.syllable_count() <= n + m);
            for i in 0..compound.syllable_count() {
                assert!(conforms(compound.syllable(i)));
            }
        }
    }
}

#[test]
fn a_rendered_word_is_its_own_collapse() {
    for seed in 0..20u64 {
        let mut lang = SynthLang::new(seed);
        for _ in 0..100 {
            let text = lang.word().to_string();
            assert_eq!(synthlang::render::remove_repeated_chars(&text), text);
            let chars: Vec<char> = text.chars().collect();
            for i in 2..chars.len() {
                assert!(!(chars[i] == chars[i - 1] && chars[i] == chars[i - 2]));
            }
        }
    }
}

#[test]
fn four_words_and_a_compound_of_seed_three() {
    let run = || {
        let mut lang = SynthLang::new(3);
        let word1 = lang.word();
        let _word2 = lang.word();
        let word3 = lang.word();
        let _word4 = lang.word();
        let compound = lang.compound(&word1, &word3);
        (word1.to_string(), word3.to_string(), compound.to_string())
    };
    let first = run();
    let second = run();
    assert_eq!(first, second);
    assert_eq!(first, ("hiuay".to_string(), "seecqug".to_string(), "hiuayseec".to_string()));
}
