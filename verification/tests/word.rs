use synthlang::word::{CompoundRule, Syllable, SyllablePart, SyllablePartType};
use synthlang::{SynthLang, Word};

fn consonant(text: &str) -> SyllablePart {
    SyllablePart::new(SyllablePartType::Consonant, text.to_string())
}

fn vowel(text: &str) -> SyllablePart {
    SyllablePart::new(SyllablePartType::Vowel, text.to_string())
}

fn cv(c: &str, v: &str) -> Syllable {
    Syllable::new(vec![consonant(c), vowel(v)])
}

fn vc(v: &str, c: &str) -> Syllable {
    Syllable::new(vec![vowel(v), consonant(c)])
}

fn cvc(first: &str, v: &str, last: &str) -> Syllable {
    Syllable::new(vec![consonant(first), vowel(v), consonant(last)])
}

fn spelled(word: &Word) -> Vec<String> {
    (0..word.syllable_count()).map(|i| word.syllable(i).to_string()).collect()
}

#[test]
fn a_phoneme_holds_its_text_and_category() {
    let part = consonant("sh");
    assert_eq!(part.value(), "sh");
    assert_eq!(part.part_type(), SyllablePartType::Consonant);
    let copy = part.clone();
    assert_eq!(copy.value(), "sh");
    assert_eq!(copy.part_type(), SyllablePartType::Consonant);
    assert_eq!(vowel("\u{e6}").part_type(), SyllablePartType::Vowel);
}

#[test]
fn a_syllable_joins_its_phonemes() {
    assert_eq!(cv("b", "a").to_string(), "ba");
    assert_eq!(vc("ou", "ng").to_string(), "oung");
    assert_eq!(cvc("th", "\u{e6}", "zh").to_string(), "th\u{e6}zh");
    let syllable = cvc("k", "i", "t");
    assert_eq!(syllable.len(), 3);
    assert_eq!(syllable.part(0).value(), "k");
    assert_eq!(syllable.part(1).part_type(), SyllablePartType::Vowel);
    assert_eq!(syllable.part(2).value(), "t");
    assert_eq!(syllable.clone().to_string(), "kit");
}

#[test]
fn a_word_joins_its_syllables() {
    let word = Word::new(vec![cv("b", "a"), cvc("n", "a", "n"), vc("a", "s")], CompoundRule::DropNone);
    assert_eq!(word.syllable_count(), 3);
    assert_eq!(word.compound_rule(), CompoundRule::DropNone);
    assert_eq!(word.to_string(), "bananas");
    assert_eq!(word.syllable(1).to_string(), "nan");
    let copy = word.clone();
    assert_eq!(spelled(&copy), vec!["ba", "nan", "as"]);
    assert_eq!(copy.compound_rule(), CompoundRule::DropNone);
}

#[test]
fn a_rendered_word_has_no_run_of_three() {
    let word = Word::new(vec![cv("b", "aa"), vc("a", "ll"), cv("l", "o")], CompoundRule::DropLeft);
    assert_eq!(word.to_string(), "baalloo".replace("oo", "o"));
    let word = Word::new(vec![cvc("z", "ooo", "m"), cv("m", "m")], CompoundRule::DropLeft);
    assert_eq!(word.to_string(), "zoomm");
    let word = Word::new(vec![vc("aa", "h"), vc("aaaa", "h")], CompoundRule::DropLeft);
    assert_eq!(word.to_string(), "aahaah");
}

#[test]
fn a_word_of_one_syllable_keeps_it_under_every_rule() {
    for rule in [CompoundRule::DropLeft, CompoundRule::DropRight, CompoundRule::DropNone] {
        let word = Word::new(vec![cv("k", "o")], rule);
        let kept: Vec<String> = word.kept_syllables().iter().map(|s| s.to_string()).collect();
        assert_eq!(kept, vec!["ko"]);
    }
}

#[test]
fn a_longer_word_drops_the_syllable_its_rule_names() {
    let parts = || vec![cv("k", "o"), vc("a", "l"), cvc("b", "e", "r")];
    let kept = |rule| -> Vec<String> {
        Word::new(parts(), rule).kept_syllables().iter().map(|s| s.to_string()).collect()
    };
    assert_eq!(kept(CompoundRule::DropLeft), vec!["al", "ber"]);
    assert_eq!(kept(CompoundRule::DropRight), vec!["ko", "al"]);
    assert_eq!(kept(CompoundRule::DropNone), vec!["ko", "al", "ber"]);
    let two = |rule| -> Vec<String> {
        Word::new(vec![cv("k", "o"), vc("a", "l")], rule)
            .kept_syllables()
            .iter()
            .map(|s| s.to_string())
            .collect()
    };
    assert_eq!(two(CompoundRule::DropLeft), vec!["al"]);
    assert_eq!(two(CompoundRule::DropRight), vec!["ko"]);
    assert_eq!(two(CompoundRule::DropNone), vec!["ko", "al"]);
}

#[test]
fn a_compound_is_what_the_left_keeps_then_what_the_right_keeps() {
    let mut lang = SynthLang::new(7);
    let left = Word::new(vec![cv("g", "e"), vc("e", "n")], CompoundRule::DropRight);
    let right = Word::new(vec![cv("m", "o"), cvc("t", "a", "n")], CompoundRule::DropLeft);
    let compound = lang.compound(&left, &right);
    assert_eq!(spelled(&compound), vec!["ge", "tan"]);
    assert_eq!(compound.to_string(), "getan");
    let compound = lang.compound(&right, &left);
    assert_eq!(spelled(&compound), vec!["tan", "ge"]);
    assert_eq!(spelled(&left), vec!["ge", "en"]);
    assert_eq!(spelled(&right), vec!["mo", "tan"]);
    assert_eq!(left.compound_rule(), CompoundRule::DropRight);
    assert_eq!(right.compound_rule(), CompoundRule::DropLeft);
}

#[test]
fn a_compound_of_single_syllables_drops_nothing() {
    let mut lang = SynthLang::new(7);
    for left_rule in [CompoundRule::DropLeft, CompoundRule::DropRight, CompoundRule::DropNone] {
        for right_rule in [CompoundRule::DropLeft, CompoundRule::DropRight, CompoundRule::DropNone] {
            let left = Word::new(vec![cv("r", "e")], left_rule);
            let right = Word::new(vec![vc("i", "v")], right_rule);
            let compound = lang.compound(&left, &right);
            assert_eq!(spelled(&compound), vec!["re", "iv"]);
        }
    }
}

#[test]
fn a_compound_has_between_all_but_one_of_each_and_all_of_both() {
    let mut lang = SynthLang::new(11);
    let rules = [CompoundRule::DropLeft, CompoundRule::DropRight, CompoundRule::DropNone];
    for n in 1..5usize {
        for m in 1..5usize {
            for left_rule in rules {
                for right_rule in rules {
                    let left = Word::new((0..n).map(|_| cv("t", "a")).collect(), left_rule);
                    let right = Word::new((0..m).map(|_| vc("o", "s")).collect(), right_rule);
                    let count = lang.compound(&left, &right).syllable_count();
                    let least = std::cmp::max(1, n - 1) + std::cmp::max(1, m - 1);
                    assert!(count >= least);
                    assert!(count <= n + m);
                    assert!(count >= 2);
                    let kept_left = if n >= 2 && left_rule != CompoundRule::DropNone { n - 1 } else { n };
                    let kept_right =
                        if m >= 2 && right_rule != CompoundRule::DropNone { m - 1 } else { m };
                    assert_eq!(count, kept_left + kept_right);
                }
            }
        }
    }
}

#[test]
fn a_compound_can_be_compounded_again() {
    let mut lang = SynthLang::new(5);
    let a = lang.word();
    let b = lang.word();
    let ab = lang.compound(&a, &b);
    let abab = lang.compound(&ab, &ab);
    assert!(abab.syllable_count() >= 2);
    assert!(abab.syllable_count() <= 2 * ab.syllable_count());
    for i in 0..abab.syllable_count() {
        let n = abab.syllable(i).len();
        assert!(n == 2 || n == 3);
    }
}

#[test]
fn the_rule_of_a_compound_is_drawn_anew() {
    let mut lang = SynthLang::new(13);
    let left = Word::new(vec![cv("r", "e")], CompoundRule::DropNone);
    let right = Word::new(vec![vc("i", "v")], CompoundRule::DropNone);
    let mut left_seen = 0;
    let mut right_seen = 0;
    let mut none_seen = 0;
    for _ in 0..4000 {
        match lang.compound(&left, &right).compound_rule() {
            CompoundRule::DropLeft => left_seen += 1,
            CompoundRule::DropRight => right_seen += 1,
            CompoundRule::DropNone => none_seen += 1,
        }
    }
    assert!((left_seen as f64 / 4000.0 - 0.25).abs() < 0.03);
    assert!((right_seen as f64 / 4000.0 - 0.25).abs() < 0.03);
    assert!((none_seen as f64 / 4000.0 - 0.5).abs() < 0.03);
}
