//! Pronunciation lookup and symbol conversion.

use std::sync::Arc;

use burn_speech_training::g2p::types::{ipa_to_arpabet, strip_diacritics};
use burn_speech_training::g2p::{
    arpabet_to_ipa, parse_arpabet_stress, CmuDict, CmuDictError, G2pLookup, Phoneme,
};

/// A dictionary in the text form of CMUdict.
const WORDS: &str = "\
;;; pronunciations
a AH0
a(2) EY1
and AH0 N D
are AA1 R
are(2) ER0
at AE1 T
build B IH1 L D
by B AY1
can't K AE1 N T
cat K AE1 T
computer K AH0 M P Y UW1 T ER0
create K R IY0 EY1 T
dark D AA1 R K
don't D OW1 N T
for F AO1 R
hello HH AH0 L OW1
hello(2) HH EH0 L OW1
he HH IY1
hope HH OW1 P
house HH AW1 S
i AY1
in IH0 N
is IH1 Z
it IH1 T
it's IH1 T S
john JH AA1 N
kind K AY1 N D
known N OW1 N
masters M AE1 S T ER0 Z
mother M AH1 DH ER0
of AH1 V
oft AO1 F T
on AA1 N
python P AY1 TH AA0 N
quiet K W AY1 AH0 T
running R AH1 N IH0 NG
ship SH IH1 P
the DH AH0
the(2) DH AH1
they DH EY1
this DH IH1 S
this(2) DH IH0 S
tidy T AY1 D IY0
times T AY1 M Z
to T UW1
walk W AO1 K
was W AA1 Z
well W EH1 L
with W IH1 DH
world W ER1 L D
";

fn dictionary() -> CmuDict {
    CmuDict::parse(WORDS)
}

#[test]
fn test_parse_stress_primary() {
    let (base, stress) = parse_arpabet_stress("IH1");
    assert_eq!(base, "IH");
    assert_eq!(stress, 1);
}

#[test]
fn test_parse_stress_unstressed() {
    let (base, stress) = parse_arpabet_stress("AH0");
    assert_eq!(base, "AH");
    assert_eq!(stress, 0);
}

#[test]
fn test_parse_stress_secondary() {
    let (base, stress) = parse_arpabet_stress("ER2");
    assert_eq!(base, "ER");
    assert_eq!(stress, 2);
}

#[test]
fn test_parse_stress_consonant() {
    let (base, stress) = parse_arpabet_stress("K");
    assert_eq!(base, "K");
    assert_eq!(stress, 0);
}

#[test]
fn test_parse_stress_empty() {
    let (base, stress) = parse_arpabet_stress("");
    assert_eq!(base, "");
    assert_eq!(stress, 0);
}

#[test]
fn test_arpabet_to_ipa_vowels() {
    assert_eq!(arpabet_to_ipa("AA"), "ɑ");
    assert_eq!(arpabet_to_ipa("AE"), "æ");
    assert_eq!(arpabet_to_ipa("AH"), "ʌ");
    assert_eq!(arpabet_to_ipa("IH"), "ɪ");
    assert_eq!(arpabet_to_ipa("IY"), "i");
    assert_eq!(arpabet_to_ipa("UW"), "u");
}

#[test]
fn test_arpabet_to_ipa_consonants() {
    assert_eq!(arpabet_to_ipa("DH"), "ð");
    assert_eq!(arpabet_to_ipa("TH"), "θ");
    assert_eq!(arpabet_to_ipa("SH"), "ʃ");
    assert_eq!(arpabet_to_ipa("CH"), "tʃ");
    assert_eq!(arpabet_to_ipa("NG"), "ŋ");
}

#[test]
fn test_arpabet_to_ipa_unknown() {
    assert_eq!(arpabet_to_ipa("XX"), "");
    assert_eq!(arpabet_to_ipa("UNKNOWN"), "");
}

#[test]
fn test_common_words() {
    let dict = dictionary();

    // Test a variety of common words
    let test_words = [
        "the", "a", "is", "are", "hello", "world", "computer", "python",
    ];

    for word in test_words {
        assert!(
            dict.lookup(word).is_some(),
            "Expected '{word}' to be in dictionary"
        );
    }
}

#[test]
fn test_get_alias() {
    let dict = dictionary();

    let lookup_result = dict.lookup("hello");
    let get_result = dict.get("hello");

    assert!(lookup_result.is_some());
    assert!(get_result.is_some());
    assert_eq!(lookup_result.as_deref(), get_result);
}

#[test]
fn test_phoneme_format() {
    let dict = dictionary();

    // "cat" should be K AE1 T
    let phonemes = dict.lookup("cat").expect("Expected 'cat' in dictionary");
    let ipa_symbols: Vec<String> = phonemes
        .iter()
        .map(|p| p.ipa_symbol().into_owned())
        .collect();

    assert_eq!(ipa_symbols, vec!["k", "æ", "t"]);
}

#[test]
fn test_special_characters_in_words() {
    let dict = dictionary();

    // CMUdict has contractions and possessives
    // Note: These may or may not be in the dictionary depending on version
    let contractions = ["don't", "can't", "it's"];

    // Just verify we don't panic on these lookups
    for word in contractions {
        let _ = dict.lookup(word);
    }
}

#[test]
fn test_cmudict_lookup_this() {
    let dict = dictionary();
    let phonemes = dict.lookup("this");

    assert!(phonemes.is_some(), "Expected 'this' to be in dictionary");
    let phonemes = phonemes.unwrap();

    // "this" -> DH IH S (ARPAbet) -> ð ɪ s (IPA)
    assert_eq!(phonemes.len(), 3);
    let ipa: Vec<_> = phonemes.iter().map(|p| p.ipa_symbol()).collect();
    assert_eq!(ipa, vec!["ð", "ɪ", "s"]);
}

#[test]
fn test_cmudict_lookup_hello() {
    let dict = dictionary();
    let phonemes = dict.lookup("hello");

    assert!(phonemes.is_some(), "Expected 'hello' to be in dictionary");
    let phonemes = phonemes.unwrap();

    // "hello" -> HH AH L OW (ARPAbet) -> h ʌ l oʊ (IPA)
    assert_eq!(phonemes.len(), 4);
    let ipa: Vec<_> = phonemes.iter().map(|p| p.ipa_symbol()).collect();
    assert_eq!(ipa, vec!["h", "ʌ", "l", "oʊ"]);
}

#[test]
fn test_cmudict_lookup_unknown_word() {
    let dict = dictionary();
    let phonemes = dict.lookup("xyzzyplugh");

    assert!(phonemes.is_none(), "Expected unknown word to return None");
}

#[test]
fn test_cmudict_lookup_running() {
    let dict = dictionary();
    let phonemes = dict.lookup("running");

    assert!(phonemes.is_some(), "Expected 'running' to be in dictionary");
    let phonemes = phonemes.unwrap();

    // "running" -> R AH N IH NG (ARPAbet) -> r ʌ n ɪ ŋ (IPA)
    assert_eq!(phonemes.len(), 5);
    let ipa: Vec<_> = phonemes.iter().map(|p| p.ipa_symbol()).collect();
    assert_eq!(ipa, vec!["r", "ʌ", "n", "ɪ", "ŋ"]);
}

#[test]
fn test_cmudict_case_insensitive() {
    let dict = dictionary();

    let lower = dict.lookup("hello");
    let upper = dict.lookup("HELLO");
    let mixed = dict.lookup("HeLLo");

    assert_eq!(lower, upper);
    assert_eq!(lower, mixed);
}

#[test]
fn test_dictionary_size() {
    // One word for each number below the expected size, and a variant of each
    // tenth, which adds no entry.
    let mut text = String::new();
    for i in 0..126_000 {
        text.push_str(&format!("word{i} W ER1 D\n"));
        if i % 10 == 0 {
            text.push_str(&format!("word{i}(2) W ER0 D\n"));
        }
    }
    let dict = CmuDict::parse(&text);
    let size = dict.dictionary_size();

    assert!(
        size >= 120_000,
        "Expected at least 120,000 entries, got {size}"
    );
    assert_eq!(size, 126_000);
}

#[test]
fn test_language_code() {
    let dict = dictionary();
    assert_eq!(dict.language_code(), "en");
}

#[test]
fn test_phoneme_ipa_symbol() {
    assert_eq!(Phoneme::AH.ipa_symbol(), "ɑ");
    assert_eq!(Phoneme::IY.ipa_symbol(), "i");
}

#[test]
fn test_phoneme_arpabet_symbol() {
    assert_eq!(Phoneme::AH.arpabet_symbol(), "AH");
    assert_eq!(Phoneme::IY.arpabet_symbol(), "IY");
}

#[test]
fn test_phoneme_equality() {
    assert_eq!(Phoneme::AH, Phoneme::AH);
    assert_ne!(Phoneme::AH, Phoneme::IY);
}

#[test]
fn test_ipa_to_arpabet_vowels() {
    // Test IPA vowel symbols convert to ARPABET
    assert_eq!(ipa_to_arpabet("ɔ"), "AO");
    assert_eq!(ipa_to_arpabet("ɛ"), "EH");
    assert_eq!(ipa_to_arpabet("ɪ"), "IH");
    assert_eq!(ipa_to_arpabet("ʊ"), "UH");
    assert_eq!(ipa_to_arpabet("ʌ"), "AH");

    // Rhotic vowels
    assert_eq!(ipa_to_arpabet("ɚ"), "ER");
    assert_eq!(ipa_to_arpabet("ɝ"), "ER");
    assert_eq!(ipa_to_arpabet("ɜr"), "ER");

    // L2-ARCTIC vocabulary plain Latin vowels
    assert_eq!(ipa_to_arpabet("a"), "AA");
    assert_eq!(ipa_to_arpabet("o"), "OW");
    assert_eq!(ipa_to_arpabet("e"), "EH");
}

#[test]
fn test_ipa_to_arpabet_consonants() {
    // Stops
    assert_eq!(ipa_to_arpabet("b"), "B");
    assert_eq!(ipa_to_arpabet("d"), "D");
    assert_eq!(ipa_to_arpabet("k"), "K");
    assert_eq!(ipa_to_arpabet("p"), "P");
    assert_eq!(ipa_to_arpabet("t"), "T");

    // Fricatives
    assert_eq!(ipa_to_arpabet("s"), "S");
    assert_eq!(ipa_to_arpabet("z"), "Z");
    assert_eq!(ipa_to_arpabet("θ"), "TH");
    assert_eq!(ipa_to_arpabet("ð"), "DH");
    assert_eq!(ipa_to_arpabet("ʃ"), "SH");
    assert_eq!(ipa_to_arpabet("ʒ"), "ZH");

    // Nasals
    assert_eq!(ipa_to_arpabet("m"), "M");
    assert_eq!(ipa_to_arpabet("n"), "N");
    assert_eq!(ipa_to_arpabet("ŋ"), "NG");

    // Liquids
    assert_eq!(ipa_to_arpabet("l"), "L");
    assert_eq!(ipa_to_arpabet("ɫ"), "L"); // Dark L
    assert_eq!(ipa_to_arpabet("r"), "R");
    assert_eq!(ipa_to_arpabet("ɹ"), "R"); // Alveolar approximant
}

#[test]
fn test_custom_phoneme_arpabet_conversion() {
    // Wav2vec2 returns IPA, should convert to ARPABET
    let p = Phoneme::Custom("ɚ".to_owned());
    assert_eq!(p.arpabet_symbol(), "ER");

    let p2 = Phoneme::Custom("ɔ".to_owned());
    assert_eq!(p2.arpabet_symbol(), "AO");

    let p3 = Phoneme::Custom("θ".to_owned());
    assert_eq!(p3.arpabet_symbol(), "TH");
}

#[test]
fn test_ipa_to_arpabet_l2_speaker_patterns() {
    // Central vowels (common in reduced syllables)
    assert_eq!(ipa_to_arpabet("ɨ"), "IH");
    assert_eq!(ipa_to_arpabet("ɐ"), "AH");
    assert_eq!(ipa_to_arpabet("ɵ"), "AH");

    // Additional vowel variants
    assert_eq!(ipa_to_arpabet("ɒ"), "AA"); // British "lot"
    assert_eq!(ipa_to_arpabet("ø"), "EH"); // French "peu"
    assert_eq!(ipa_to_arpabet("y"), "IY"); // French "tu"

    // Flaps and taps (American English patterns)
    assert_eq!(ipa_to_arpabet("ɾ"), "D"); // Alveolar flap
    assert_eq!(ipa_to_arpabet("ɽ"), "D"); // Retroflex flap

    // Glottal stop
    assert_eq!(ipa_to_arpabet("ʔ"), "Q");

    // Additional fricatives
    assert_eq!(ipa_to_arpabet("x"), "HH"); // German "Bach"
    assert_eq!(ipa_to_arpabet("ç"), "HH"); // German "ich"
    assert_eq!(ipa_to_arpabet("ɣ"), "G"); // Voiced velar fricative

    // Additional nasals
    assert_eq!(ipa_to_arpabet("ɲ"), "N"); // Palatal nasal (Spanish "ñ")
    assert_eq!(ipa_to_arpabet("ɱ"), "M"); // Labiodental nasal

    // Uvular sounds (common in French/German L1 speakers)
    assert_eq!(ipa_to_arpabet("ʁ"), "R"); // French R
    assert_eq!(ipa_to_arpabet("ʀ"), "R"); // Uvular trill
}

#[test]
fn test_strip_diacritics() {
    // Length markers
    assert_eq!(strip_diacritics("iː"), "i");
    assert_eq!(strip_diacritics("uː"), "u");

    // Stress markers
    assert_eq!(strip_diacritics("ˈhɛloʊ"), "hɛloʊ");
    assert_eq!(strip_diacritics("ˌsɛkəndˈɛri"), "sɛkəndɛri");

    // Aspiration
    assert_eq!(strip_diacritics("pʰ"), "p");
    assert_eq!(strip_diacritics("tʰ"), "t");

    // Combined
    assert_eq!(strip_diacritics("ˈtʰiːm"), "tim");
}

#[test]
fn test_ipa_to_arpabet_diphthongs() {
    // Standard diphthongs
    assert_eq!(ipa_to_arpabet("aɪ"), "AY");
    assert_eq!(ipa_to_arpabet("aʊ"), "AW");
    assert_eq!(ipa_to_arpabet("eɪ"), "EY");
    assert_eq!(ipa_to_arpabet("oʊ"), "OW");
    assert_eq!(ipa_to_arpabet("ɔɪ"), "OY");

    // ASCII-like diphthongs (some models use these)
    assert_eq!(ipa_to_arpabet("ai"), "AY");
    assert_eq!(ipa_to_arpabet("au"), "AW");
    assert_eq!(ipa_to_arpabet("ei"), "EY");
    assert_eq!(ipa_to_arpabet("ou"), "OW");
    assert_eq!(ipa_to_arpabet("oi"), "OY");
}

// ---------------------------------------------------------------------------
// Dictionary text
// ---------------------------------------------------------------------------

fn ipa_of(dict: &CmuDict, word: &str) -> Vec<String> {
    dict.lookup(word)
        .expect("word in dictionary")
        .iter()
        .map(|p| p.ipa_symbol().into_owned())
        .collect()
}

#[test]
fn first_pronunciation_of_a_word_stays() {
    // hello(2) would start with HH EH0.
    assert_eq!(ipa_of(&dictionary(), "hello"), vec!["h", "ʌ", "l", "oʊ"]);
    let dict = CmuDict::parse("a(2) EY1\na AH0\n");
    assert_eq!(dict.dictionary_size(), 1);
    assert_eq!(ipa_of(&dict, "a"), vec!["eɪ"]);
}

#[test]
fn dictionary_text_comments_and_short_lines_are_passed_over() {
    let dict = CmuDict::parse(";;; a comment\n\nlonely\nbad #only a remark\ncat K AE1 T # pet\n");
    assert_eq!(dict.dictionary_size(), 1);
    assert_eq!(ipa_of(&dict, "cat"), vec!["k", "æ", "t"]);
    assert!(dict.lookup("lonely").is_none());
    assert!(dict.lookup("bad").is_none());
}

#[test]
fn dictionary_symbols_without_ipa_are_kept() {
    let dict = CmuDict::parse("odd QQ1 T\n");
    assert_eq!(ipa_of(&dict, "odd"), vec!["QQ", "t"]);
}

#[test]
fn entries_of_a_word_replace_earlier_ones() {
    let dict = CmuDict::from_entries(vec![
        ("ah".to_owned(), vec![Phoneme::AH]),
        ("ee".to_owned(), vec![Phoneme::IY]),
        ("ah".to_owned(), vec![Phoneme::AX]),
    ]);
    assert_eq!(dict.dictionary_size(), 2);
    assert_eq!(dict.get("ah"), Some(&[Phoneme::AX][..]));
    assert_eq!(dict.get("EE"), Some(&[Phoneme::IY][..]));
    assert_eq!(dict.get("oo"), None);
}

#[test]
fn lookup_lowers_letters_outside_ascii() {
    // The word is lowered by the rules of Unicode, not by those of ASCII.
    let dict = CmuDict::from_entries(vec![("école".to_owned(), vec![Phoneme::AE])]);
    assert_eq!(dict.get("ÉCOLE"), Some(&[Phoneme::AE][..]));
}

#[test]
fn lookup_through_a_shared_pointer() {
    let dict = Arc::new(dictionary());
    assert_eq!(dict.language_code(), "en");
    assert_eq!(dict.lookup("cat"), dictionary().lookup("cat"));
    assert_eq!(dict.dictionary_size(), dictionary().dictionary_size());
}

#[test]
fn dictionary_error_is_a_sentence() {
    let error = CmuDictError::ParseError("bad magic".to_owned());
    assert_eq!(error.message(), "CMUdict parse error: bad magic");
}

#[test]
fn phonemes_from_ipa() {
    assert_eq!(Phoneme::from_ipa("ɑ"), Phoneme::AH);
    assert_eq!(Phoneme::from_ipa("æ"), Phoneme::AE);
    assert_eq!(Phoneme::from_ipa("ə"), Phoneme::AX);
    assert_eq!(Phoneme::from_ipa("iː"), Phoneme::IY);
    assert_eq!(Phoneme::from_ipa("u"), Phoneme::UW);
    assert_eq!(Phoneme::from_ipa("ð"), Phoneme::Custom("ð".to_owned()));
    assert_eq!(Phoneme::from_ipa("ð").ipa_symbol(), "ð");
}

#[test]
fn unknown_ipa_is_shown_in_upper_case() {
    assert_eq!(ipa_to_arpabet("ß"), "SS");
    assert_eq!(ipa_to_arpabet("qv"), "QV");
}
