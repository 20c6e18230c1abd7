//! From transcripts to CTC targets.

use burn_speech_training::error::Error;
use burn_speech_training::g2p::{arpabet_to_ipa, CmuDict};
use burn_speech_training::phoneme_map::{
    arpabet_inventory, arpabet_to_idx, dict_lookup_to_indices, digraph_to_arpabet,
    ipa_to_arpabet_idx, resolve_word, rule_based_g2p, single_char_to_arpabet,
    transcript_to_targets, try_chained_affix, try_compound_split, try_hyphen_split,
    try_possessive, try_possessive_g2p, try_suffix_strip, ResolutionMethod, SIL_IDX,
};

/// A dictionary in the text form of CMUdict.
const WORDS: &str = "\
;;; pronunciations
a AH0
a(2) EY1
and AH0 N D
are AA1 R
are(2) ER0
at AE1 T
build B IH1 L D
by B AY1
can't K AE1 N T
cat K AE1 T
computer K AH0 M P Y UW1 T ER0
create K R IY0 EY1 T
dark D AA1 R K
don't D OW1 N T
for F AO1 R
hello HH AH0 L OW1
hello(2) HH EH0 L OW1
he HH IY1
hope HH OW1 P
house HH AW1 S
i AY1
in IH0 N
is IH1 Z
it IH1 T
it's IH1 T S
john JH AA1 N
kind K AY1 N D
known N OW1 N
masters M AE1 S T ER0 Z
mother M AH1 DH ER0
of AH1 V
oft AO1 F T
on AA1 N
python P AY1 TH AA0 N
quiet K W AY1 AH0 T
running R AH1 N IH0 NG
ship SH IH1 P
the DH AH0
the(2) DH AH1
they DH EY1
this DH IH1 S
this(2) DH IH0 S
tidy T AY1 D IY0
times T AY1 M Z
to T UW1
walk W AO1 K
was W AA1 Z
well W EH1 L
with W IH1 DH
world W ER1 L D
";

fn dictionary() -> CmuDict {
    CmuDict::parse(WORDS)
}

#[test]
fn test_arpabet_to_idx_known_phonemes() {
    assert_eq!(arpabet_to_idx("AA"), Some(1));
    assert_eq!(arpabet_to_idx("ZH"), Some(40));
    assert_eq!(arpabet_to_idx("M"), Some(23));
}

#[test]
fn test_arpabet_to_idx_strips_stress() {
    assert_eq!(arpabet_to_idx("AH0"), Some(3));
    assert_eq!(arpabet_to_idx("IH1"), Some(18));
    assert_eq!(arpabet_to_idx("ER2"), Some(13));
}

#[test]
fn test_arpabet_to_idx_unknown() {
    assert_eq!(arpabet_to_idx("XX"), None);
    assert_eq!(arpabet_to_idx(""), None);
}

#[test]
fn test_inventory_covers_all_40_phonemes() {
    assert_eq!(arpabet_inventory().len(), 40);
    for window in arpabet_inventory().windows(2) {
        assert!(
            window[0] < window[1],
            "{} should come before {}",
            window[0],
            window[1]
        );
    }
}

#[test]
fn test_index_range() {
    assert_eq!(SIL_IDX, 41);
    for sym in arpabet_inventory() {
        let idx = arpabet_to_idx(sym).expect("known symbol");
        assert!((1..=40).contains(&idx), "{sym} -> {idx} out of range");
    }
}

// --- Direct dict lookup ---

#[test]
fn test_transcript_simple() {
    let dict = dictionary();
    let (targets, stats) = transcript_to_targets("hello world", &dict).expect("targets");
    assert!(!targets.is_empty());
    assert_eq!(stats.dict_hits, 2);
    assert!(targets.contains(&SIL_IDX));
}

#[test]
fn test_transcript_empty() {
    let dict = dictionary();
    assert!(transcript_to_targets("", &dict).is_err());
}

// --- Possessive decomposition ---

#[test]
fn test_possessive_s() {
    let dict = dictionary();
    // "JOHN'S" — JOHN is in CMUdict, 'S should decompose
    let result = try_possessive("JOHN'S", &dict);
    assert!(result.is_some(), "JOHN'S should resolve via possessive");
    let indices = result.expect("possessive");
    // Last index should be Z
    let z_idx = arpabet_to_idx("Z").expect("Z");
    assert_eq!(*indices.last().expect("non-empty"), z_idx);
}

#[test]
fn test_possessive_ll() {
    let dict = dictionary();
    let result = try_possessive("HE'LL", &dict);
    assert!(result.is_some(), "HE'LL should resolve");
    let indices = result.expect("possessive");
    let l_idx = arpabet_to_idx("L").expect("L");
    assert_eq!(*indices.last().expect("non-empty"), l_idx);
}

#[test]
fn test_possessive_ve() {
    let dict = dictionary();
    let result = try_possessive("I'VE", &dict);
    assert!(result.is_some(), "I'VE should resolve");
    let v_idx = arpabet_to_idx("V").expect("V");
    assert_eq!(
        *result.expect("possessive").last().expect("non-empty"),
        v_idx
    );
}

#[test]
fn test_possessive_d() {
    let dict = dictionary();
    let result = try_possessive("HE'D", &dict);
    assert!(result.is_some(), "HE'D should resolve");
    let d_idx = arpabet_to_idx("D").expect("D");
    assert_eq!(
        *result.expect("possessive").last().expect("non-empty"),
        d_idx
    );
}

#[test]
fn test_possessive_re() {
    let dict = dictionary();
    let result = try_possessive("THEY'RE", &dict);
    assert!(result.is_some(), "THEY'RE should resolve");
    let r_idx = arpabet_to_idx("R").expect("R");
    assert_eq!(
        *result.expect("possessive").last().expect("non-empty"),
        r_idx
    );
}

#[test]
fn test_possessive_unknown_base() {
    let dict = dictionary();
    let result = try_possessive("XYZZY'S", &dict);
    assert!(result.is_none(), "unknown base should not resolve");
}

// --- Hyphen splitting ---

#[test]
fn test_hyphen_split_both_known() {
    let dict = dictionary();
    let result = try_hyphen_split("WELL-KNOWN", &dict);
    assert!(result.is_some(), "WELL-KNOWN should split and resolve");
    let indices = result.expect("hyphen");
    assert!(indices.contains(&SIL_IDX), "should have SIL between parts");
}

#[test]
fn test_hyphen_split_one_unknown() {
    let dict = dictionary();
    let result = try_hyphen_split("WELL-XYZZY", &dict);
    assert!(result.is_none(), "should fail if any part is unknown");
}

#[test]
fn test_no_hyphen() {
    let dict = dictionary();
    assert!(try_hyphen_split("HELLO", &dict).is_none());
}

// --- Suffix stripping ---

#[test]
fn test_suffix_ly() {
    let dict = dictionary();
    // QUIETLY → QUIET (in CMUdict) + LY phonemes
    let result = try_suffix_strip("QUIETLY", &dict);
    assert!(result.is_some(), "QUIETLY should resolve via suffix strip");
}

#[test]
fn test_suffix_ing_with_e_restore() {
    let dict = dictionary();
    // HOPING → HOP (miss) → HOPE (hit via E restore) + ING
    let result = try_suffix_strip("HOPING", &dict);
    assert!(result.is_some(), "HOPING should resolve via HOPE + ING");
}

#[test]
fn test_suffix_ed() {
    let dict = dictionary();
    let result = try_suffix_strip("WALKED", &dict);
    assert!(result.is_some(), "WALKED should resolve via WALK + ED");
}

#[test]
fn test_suffix_ness() {
    let dict = dictionary();
    let result = try_suffix_strip("DARKNESS", &dict);
    assert!(result.is_some(), "DARKNESS should resolve via DARK + NESS");
}

#[test]
fn test_suffix_tion() {
    let dict = dictionary();
    // CREATION → CREA (miss) → CREAT (miss) → CREATE (E restore) + TION
    let result = try_suffix_strip("CREATION", &dict);
    // CREATE may or may not be in CMUdict, but CREATION itself likely is
    // This tests the suffix mechanism regardless of outcome
    let _ = result; // Accept either outcome
}

#[test]
fn test_prefix_un() {
    let dict = dictionary();
    let result = try_suffix_strip("UNKIND", &dict);
    assert!(result.is_some(), "UNKIND should resolve via UN + KIND");
}

#[test]
fn test_prefix_re() {
    let dict = dictionary();
    let result = try_suffix_strip("REBUILD", &dict);
    assert!(result.is_some(), "REBUILD should resolve via RE + BUILD");
}

// --- Compound splitting (no hyphens) ---

#[test]
fn test_compound_shipmasters() {
    let dict = dictionary();
    let result = try_compound_split("SHIPMASTERS", &dict);
    // SHIP + MASTERS — both in CMUdict
    assert!(
        result.is_some(),
        "SHIPMASTERS should split into SHIP+MASTERS"
    );
    let indices = result.expect("compound");
    assert!(
        indices.contains(&SIL_IDX),
        "compound should have SIL between parts"
    );
}

#[test]
fn test_compound_ofttimes() {
    let dict = dictionary();
    let result = try_compound_split("OFTTIMES", &dict);
    // OFT + TIMES
    assert!(result.is_some(), "OFTTIMES should split into OFT+TIMES");
}

#[test]
fn test_compound_too_short() {
    let dict = dictionary();
    assert!(try_compound_split("CAT", &dict).is_none());
}

// --- Chained prefix+suffix ---

#[test]
fn test_chained_unkindness() {
    let dict = dictionary();
    let result = try_chained_affix("UNKINDNESS", &dict);
    assert!(
        result.is_some(),
        "UNKINDNESS should resolve via UN+KIND+NESS"
    );
}

#[test]
fn test_chained_untidiness() {
    let dict = dictionary();
    // UNTIDINESS → UN + TIDI → TIDY (I→Y restore) + NESS
    let result = try_chained_affix("UNTIDINESS", &dict);
    assert!(
        result.is_some(),
        "UNTIDINESS should resolve via UN+TIDY+NESS"
    );
}

#[test]
fn test_suffix_tidiness_iy_restore() {
    let dict = dictionary();
    // TIDINESS → TIDI → TIDY (I→Y restore) + NESS
    let result = try_suffix_strip("TIDINESS", &dict);
    assert!(result.is_some(), "TIDINESS should resolve via TIDY+NESS");
}

// --- Possessive of G2P ---

#[test]
fn test_possessive_g2p_unknown_base() {
    // JELLYBY'S — JELLYBY not in CMUdict, but G2P + Z should work
    let result = try_possessive_g2p("JELLYBY'S");
    assert!(result.is_some(), "JELLYBY'S should resolve via G2P+Z");
    let indices = result.expect("possessive g2p");
    let z_idx = arpabet_to_idx("Z").expect("Z");
    assert_eq!(*indices.last().expect("non-empty"), z_idx);
}

#[test]
fn test_possessive_g2p_no_possessive() {
    assert!(try_possessive_g2p("HELLO").is_none());
}

// --- Rule-based G2P ---

#[test]
fn test_g2p_produces_output() {
    let indices = rule_based_g2p("XYZZY");
    assert!(!indices.is_empty(), "G2P should always produce something");
}

#[test]
fn test_g2p_digraphs() {
    // "THINK" should use TH digraph
    let indices = rule_based_g2p("THINK");
    let th_idx = arpabet_to_idx("TH").expect("TH");
    assert!(indices.contains(&th_idx), "THINK should contain TH");
}

#[test]
fn test_g2p_simple_word() {
    // "CAT" → K AE T
    let indices = rule_based_g2p("CAT");
    assert_eq!(indices.len(), 3, "CAT should produce 3 phonemes");
    assert_eq!(indices[0], arpabet_to_idx("K").expect("K"));
    assert_eq!(indices[1], arpabet_to_idx("AE").expect("AE"));
    assert_eq!(indices[2], arpabet_to_idx("T").expect("T"));
}

// --- Full chain integration ---

#[test]
fn test_full_chain_resolves_possessive() {
    let dict = dictionary();
    // Use a word known to be in CMUdict but whose possessive isn't
    let (targets, stats) = transcript_to_targets("MOTHER'S HOUSE", &dict).expect("targets");
    assert!(!targets.is_empty());
    // MOTHER'S should resolve via possessive (MOTHER + Z) or dict
    assert_eq!(stats.total_words, 2, "should count 2 words");
    // At least the Z phoneme should be present if possessive resolved
    let z_idx = arpabet_to_idx("Z").expect("Z");
    if stats.possessive_hits > 0 {
        assert!(targets.contains(&z_idx), "possessive should append Z");
    }
}

#[test]
fn test_full_chain_resolves_unknown_via_g2p() {
    let dict = dictionary();
    // XYZZYPLUGH is definitely not in any dictionary or fallback
    let (targets, stats) =
        transcript_to_targets("HELLO XYZZYPLUGH WORLD", &dict).expect("targets");
    assert!(!targets.is_empty());
    // The unknown word should be resolved via G2P, not skipped
    assert_eq!(stats.g2p_hits, 1, "XYZZYPLUGH should hit G2P fallback");
    assert_eq!(stats.dict_hits, 2, "HELLO and WORLD should be dict hits");
}

#[test]
fn test_full_chain_all_unknown_still_resolves() {
    let dict = dictionary();
    // With G2P fallback, even all-unknown words should resolve
    let result = transcript_to_targets("XYZZY PLUGH", &dict);
    assert!(
        result.is_ok(),
        "G2P fallback should prevent all-OOV failure"
    );
}

/// Analyze OOV breakdown on representative `LibriSpeech` transcripts.
#[test]
fn test_oov_analysis() {
    let dict = dictionary();

    // Representative LibriSpeech train-clean-100 sentences
    let transcripts = [
        "IT OFTTIMES REQUIRES HEROIC COURAGE TO FACE FRUITLESS EFFORT TO TAKE UP THE BROKEN \
         STRANDS OF A LIFE WORK TO LOOK BRAVELY TOWARD THE FUTURE AND PROCEED UNDAUNTED ON \
         OUR WAY",
        "BUT WHAT TO OUR EYES MAY SEEM HOPELESS FAILURE IS OFTEN BUT THE DAWNING OF A GREATER \
         SUCCESS IT MAY CONTAIN IN ITS DEBRIS THE FOUNDATION MATERIAL OF A MIGHTY PURPOSE OR \
         THE REVELATION OF NEW AND HIGHER POSSIBILITIES",
        "SOME YEARS AGO IT WAS PROPOSED TO SEND LOGS FROM CANADA TO NEW YORK BY A NEW METHOD \
         THE INGENIOUS PLAN OF MISTER JOGGINS WAS TO BIND GREAT LOGS TOGETHER BY CABLES AND \
         IRON GIRDERS",
        "AND THE ANGRY WATERS SCATTERED THE LOGS FAR AND WIDE THE CHIEF OF THE HYDROGRAPHIC \
         DEPARTMENT AT WASHINGTON HEARD OF THE FAILURE OF THE EXPERIMENT AND AT ONCE SENT \
         WORD TO SHIPMASTERS THE WORLD OVER",
        "PRINCE VASILI WHO STILL OCCUPIED HIS FORMER IMPORTANT POSITION FORMED A CONNECTING \
         LINK BETWEEN THESE TWO CIRCLES",
        "ANNA PAVLOVNA SCHERER ON THE CONTRARY WAS CONSUMED BY EXCITEMENT AND ACTIVITY",
        "HAVING COUGHED HE WENT ON TO SAY THAT HE HAD COME TO BORROW MONEY FROM HER FOR \
         DOLOKHOV",
        "IN SPITE OF HIS UNLUCKY GAMBLING AND THE LOOSENESS OF THE LIFE HE LED IN MOSCOW \
         PRINCE ANDREW'S INTIMACY WITH ROSTOV WAS A VERY REAL THING",
        "WELL KNOWN AND GOOD NATURED HE WAS NEVERTHELESS A MAN OF EXTRAORDINARY SELF \
         POSSESSION",
        "THE COUNTESS'S EYES WERE CONSTANTLY FIXED ON NATASHA WHO WAS STANDING NEAR THE \
         DOORWAY",
        "MRS JELLYBY'S HOUSEKEEPING WAS CERTAINLY REMARKABLE FOR ITS UNTIDINESS",
        "MADEMOISELLE BOURIENNE WAS THE FIRST TO RECOVER HERSELF AFTER THIS APPARITION",
    ];

    let mut total_words = 0usize;
    let mut dict_hits = 0usize;
    let mut possessive_hits = 0usize;
    let mut hyphen_hits = 0usize;
    let mut suffix_hits = 0usize;
    let mut g2p_words: Vec<String> = Vec::new();

    for transcript in &transcripts {
        for word in transcript.split_whitespace() {
            let clean: String = word
                .chars()
                .filter(|c| c.is_ascii_alphabetic() || *c == '\'' || *c == '-')
                .collect();
            if clean.is_empty() {
                continue;
            }
            total_words += 1;

            let (_, method) = resolve_word(&clean, &dict);
            match method {
                ResolutionMethod::Dictionary => dict_hits += 1,
                ResolutionMethod::Possessive => possessive_hits += 1,
                ResolutionMethod::HyphenSplit => hyphen_hits += 1,
                ResolutionMethod::SuffixStrip
                | ResolutionMethod::CompoundSplit
                | ResolutionMethod::ChainedAffix => suffix_hits += 1,
                ResolutionMethod::PossessiveG2p | ResolutionMethod::RuleG2p => {
                    g2p_words.push(clean);
                }
            }
        }
    }

    let g2p_count = g2p_words.len();
    println!("\n=== OOV Analysis on LibriSpeech sample ===");
    println!("Total words:      {total_words}");
    println!(
        "Dictionary hits:  {dict_hits} ({:.1}%)",
        dict_hits as f64 / total_words as f64 * 100.0
    );
    println!("Possessive hits:  {possessive_hits}");
    println!("Hyphen hits:      {hyphen_hits}");
    println!("Suffix hits:      {suffix_hits}");
    println!(
        "G2P fallback:     {g2p_count} ({:.1}%)",
        g2p_count as f64 / total_words as f64 * 100.0
    );
    println!("\nG2P fallback words (would benefit from better resolution):");
    for word in &g2p_words {
        println!("  - {word}");
    }
    println!();

    // The test passes regardless — this is for analysis output
    assert!(dict_hits > 0);
}

#[test]
fn test_ipa_to_arpabet_roundtrip() {
    for sym in arpabet_inventory() {
        let ipa = arpabet_to_ipa(sym);
        if !ipa.is_empty() {
            let idx_direct = arpabet_to_idx(sym);
            let idx_via_ipa = ipa_to_arpabet_idx(ipa);
            assert_eq!(
                idx_direct, idx_via_ipa,
                "roundtrip mismatch for {sym} -> {ipa}"
            );
        }
    }
}

// --- Exact results ---

fn indices(symbols: &[&str]) -> Vec<i32> {
    symbols
        .iter()
        .map(|s| if *s == "SIL" { SIL_IDX } else { arpabet_to_idx(s).expect("symbol") })
        .collect()
}

#[test]
fn fallbacks_give_exact_phonemes() {
    let dict = dictionary();
    assert_eq!(
        try_possessive("JOHN'S", &dict),
        Some(indices(&["JH", "AA", "N", "Z"]))
    );
    assert_eq!(
        try_hyphen_split("WELL-KNOWN", &dict),
        Some(indices(&["W", "EH", "L", "SIL", "N", "OW", "N"]))
    );
    assert_eq!(
        try_suffix_strip("TIDINESS", &dict),
        Some(indices(&["T", "AY", "D", "IY", "N", "AH", "S"]))
    );
    assert_eq!(
        try_compound_split("SHIPMASTERS", &dict),
        Some(indices(&["SH", "IH", "P", "SIL", "M", "AE", "S", "T", "ER", "Z"]))
    );
    assert_eq!(
        try_chained_affix("UNKINDNESS", &dict),
        Some(indices(&["AH", "N", "K", "AY", "N", "D", "N", "AH", "S"]))
    );
}

#[test]
fn each_way_of_resolution_is_named() {
    let dict = dictionary();
    let ways = [
        ("HELLO", ResolutionMethod::Dictionary),
        ("JOHN'S", ResolutionMethod::Possessive),
        ("WELL-KNOWN", ResolutionMethod::HyphenSplit),
        ("DARKNESS", ResolutionMethod::SuffixStrip),
        ("SHIPMASTERS", ResolutionMethod::CompoundSplit),
        ("UNKINDNESS", ResolutionMethod::ChainedAffix),
        ("JELLYBY'S", ResolutionMethod::PossessiveG2p),
        ("XYZZY", ResolutionMethod::RuleG2p),
    ];
    for (word, way) in ways {
        assert_eq!(resolve_word(word, &dict).1, way, "{word}");
    }
}

#[test]
fn words_of_a_transcript_are_parted_by_silence() {
    let dict = dictionary();
    let (targets, stats) = transcript_to_targets("Hello, cat!", &dict).expect("targets");
    assert_eq!(
        targets,
        indices(&["HH", "AH", "L", "OW", "SIL", "K", "AE", "T"])
    );
    assert_eq!(stats.total_words, 2);
    assert_eq!(stats.dict_hits, 2);
}

#[test]
fn case_and_other_characters_do_not_matter() {
    let dict = dictionary();
    let plain = transcript_to_targets("hello world", &dict).expect("targets");
    assert_eq!(plain.1.total_words, 2);
    for other in [
        "Hello, 123 WORLD!",
        "HELLO WORLD",
        "he\u{e9}1llo \u{2014} wor4ld",
        "\t42 hello\n world ?",
    ] {
        let same = transcript_to_targets(other, &dict).expect("targets");
        assert_eq!(same.0, plain.0, "{other}");
        assert_eq!(format!("{:?}", same.1), format!("{:?}", plain.1), "{other}");
    }
    let hyphens = transcript_to_targets("well-known", &dict).expect("targets");
    let shouted = transcript_to_targets("Well-KNOWN.", &dict).expect("targets");
    assert_eq!(shouted.0, hyphens.0);
    assert_eq!(shouted.1.hyphen_hits, 1);
    assert!(transcript_to_targets("", &dict).is_err());
    assert!(transcript_to_targets("12 !", &dict).is_err());
}

#[test]
fn transcript_without_letters_is_refused() {
    let dict = dictionary();
    let err = transcript_to_targets("123 ...", &dict).expect_err("nothing to say");
    assert!(matches!(err, Error::Config(_)));
}

#[test]
fn transcripts_never_begin_end_or_double_silence() {
    let dict = dictionary();
    for text in ["WELL-KNOWN SHIPMASTERS", "- hello -- world -", "JOHN'S XYZZY CAT"] {
        let (targets, stats) = transcript_to_targets(text, &dict).expect("targets");
        assert_ne!(targets.first(), Some(&SIL_IDX));
        assert_ne!(targets.last(), Some(&SIL_IDX));
        assert!(targets.windows(2).all(|w| w[0] != SIL_IDX || w[1] != SIL_IDX));
        assert!(targets.iter().all(|i| (1..=41).contains(i)));
        let hits = stats.dict_hits
            + stats.possessive_hits
            + stats.hyphen_hits
            + stats.suffix_hits
            + stats.compound_hits
            + stats.chained_hits
            + stats.g2p_hits;
        assert!(hits <= stats.total_words);
    }
}

#[test]
fn stress_does_not_change_the_index() {
    for sym in arpabet_inventory() {
        for mark in ["0", "1", "2"] {
            assert_eq!(arpabet_to_idx(&format!("{sym}{mark}")), arpabet_to_idx(sym));
        }
    }
}

#[test]
fn letters_and_digraphs() {
    assert_eq!(digraph_to_arpabet("TH"), Some("TH"));
    assert_eq!(digraph_to_arpabet("PH"), Some("F"));
    assert_eq!(digraph_to_arpabet("XX"), None);
    assert_eq!(single_char_to_arpabet('C'), Some("K"));
    assert_eq!(single_char_to_arpabet('-'), None);
    assert_eq!(rule_based_g2p("SHIP"), indices(&["SH", "IH", "P"]));
}

#[test]
fn dictionary_lookup_gives_indices() {
    let dict = dictionary();
    assert_eq!(
        dict_lookup_to_indices("cat", &dict),
        Some(indices(&["K", "AE", "T"]))
    );
    assert_eq!(dict_lookup_to_indices("xyzzy", &dict), None);
    assert_eq!(ipa_to_arpabet_idx("ʃ"), arpabet_to_idx("SH"));
    assert_eq!(ipa_to_arpabet_idx("??"), None);
}
