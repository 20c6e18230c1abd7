//! Transcripts as sequences of class indices.
//!
//! Index layout:
//! - 0: blank
//! - 1 to 40: ARPABET phonemes, in alphabetical order
//! - 41: silence between words
//!
//! A word is looked up in the dictionary. One that the dictionary lacks goes
//! through a chain of fallbacks: possessive, hyphen split, suffix and prefix,
//! compound split, prefix with suffix, possessive by rule, letters by rule.

use vstd::prelude::*;

use crate::error::{Error, ErrorView, Result};
use crate::g2p::types::PhonemeView;
use crate::g2p::{arpabet, cmudict, parse_arpabet_stress, types, CmuDict, G2pLookup, Phoneme};
use crate::text;
use crate::text::{
    char_is_letter, chars_of, ends_with, slice_of, split_runs, split_whitespace, starts_with,
    string_of, to_ascii_upper, Separator,
};

verus! {

/// SIL (silence) index.
pub const SIL_IDX: i32 = 41;

/// What a dictionary maps words to.
pub type Entries = Map<Seq<char>, Seq<PhonemeView>>;

// ---------------------------------------------------------------------------
// Indices
// ---------------------------------------------------------------------------

/// The ARPABET symbols in alphabetical order.
pub open spec fn inventory() -> Seq<Seq<char>> {
    seq![
        "AA"@, "AE"@, "AH"@, "AO"@, "AW"@, "AX"@, "AY"@, "B"@, "CH"@, "D"@, "DH"@, "EH"@,
        "ER"@, "EY"@, "F"@, "G"@, "HH"@, "IH"@, "IY"@, "JH"@, "K"@, "L"@, "M"@, "N"@, "NG"@,
        "OW"@, "OY"@, "P"@, "R"@, "S"@, "SH"@, "T"@, "TH"@, "UH"@, "UW"@, "V"@, "W"@, "Y"@,
        "Z"@, "ZH"@,
    ]
}

/// The characters of each literal of `v`.
pub open spec fn literals(v: Seq<&'static str>) -> Seq<Seq<char>> {
    v.map_values(|s: &'static str| s@)
}

/// The ARPABET symbols in alphabetical order.
pub fn arpabet_inventory() -> (r: [&'static str; 40])
    ensures
        literals(r@) == inventory(),
{
    let r: [&'static str; 40] = [
        "AA", "AE", "AH", "AO", "AW", "AX", "AY", "B", "CH", "D", "DH", "EH", "ER", "EY", "F",
        "G", "HH", "IH", "IY", "JH", "K", "L", "M", "N", "NG", "OW", "OY", "P", "R", "S", "SH",
        "T", "TH", "UH", "UW", "V", "W", "Y", "Z", "ZH",
    ];
    assert(literals(r@) =~= inventory());
    r
}

/// The index of an ARPABET symbol, its stress mark left aside: one more than
/// its place in the inventory.
pub open spec fn symbol_index(symbol: Seq<char>) -> Option<i32> {
    match inventory().index_of_first(arpabet::without_stress(symbol)) {
        Some(place) => Some((place + 1) as i32),
        None => None,
    }
}

/// Map a stress-stripped ARPABET symbol to its CTC index.
///
/// Strips stress markers (0/1/2) before lookup.
/// Returns `None` for unknown symbols.
#[must_use]
pub fn arpabet_to_idx(symbol: &str) -> (r: Option<i32>)
    ensures
        r == symbol_index(symbol@),
{
    let (base, _stress) = parse_arpabet_stress(symbol);
    let all = arpabet_inventory();
    proof {
        inventory().index_of_first_ensures(base@);
    }
    let mut i: usize = 0;
    while i < 40
        invariant
            i <= 40,
            literals(all@) == inventory(),
            base@ == arpabet::without_stress(symbol@),
            forall|k: int| 0 <= k < i ==> inventory()[k] != base@,
        decreases 40 - i,
    {
        assert(inventory()[i as int] == all@[i as int]@);
        if base.eq(all[i]) {
            proof {
                inventory().index_of_first_ensures(base@);
            }
            return Some(i as i32 + 1);
        }
        i = i + 1;
    }
    None
}

/// The indices of those of `symbols` that have one, in order.
pub open spec fn symbol_indices(symbols: Seq<Seq<char>>) -> Seq<i32>
    decreases symbols.len(),
{
    if symbols.len() == 0 {
        seq![]
    } else {
        let before = symbol_indices(symbols.drop_last());
        match symbol_index(symbols.last()) {
            Some(idx) => before.push(idx),
            None => before,
        }
    }
}

/// Appends the indices of `phones` to `indices`.
fn push_phones(indices: &mut Vec<i32>, phones: &Vec<&'static str>)
    ensures
        final(indices)@ == old(indices)@ + symbol_indices(literals(phones@)),
{
    let n: usize = phones.len();
    let mut i: usize = 0;
    assert(literals(phones@).take(0) =~= Seq::<Seq<char>>::empty());
    assert(indices@ =~= old(indices)@ + symbol_indices(literals(phones@).take(0)));
    while i < n
        invariant
            n == phones@.len(),
            i <= n,
            indices@ == old(indices)@ + symbol_indices(literals(phones@).take(i as int)),
        decreases n - i,
    {
        let ghost upto = literals(phones@).take(i + 1);
        assert(upto.drop_last() =~= literals(phones@).take(i as int));
        assert(upto.last() == phones@[i as int]@);
        if let Some(idx) = arpabet_to_idx(phones[i]) {
            let ghost before = symbol_indices(upto.drop_last());
            indices.push(idx);
            assert(indices@ =~= old(indices)@ + before.push(idx));
        }
        i = i + 1;
    }
    assert(literals(phones@).take(n as int) =~= literals(phones@));
}

/// The ARPABET symbol that the dictionary's IPA symbols come from.
pub open spec fn dictionary_symbol(ipa: Seq<char>) -> Option<Seq<char>> {
    if ipa == "ɑ"@ { Some("AA"@) }
    else if ipa == "æ"@ { Some("AE"@) }
    else if ipa == "ʌ"@ { Some("AH"@) }
    else if ipa == "ɔ"@ { Some("AO"@) }
    else if ipa == "aʊ"@ { Some("AW"@) }
    else if ipa == "ə"@ { Some("AX"@) }
    else if ipa == "aɪ"@ { Some("AY"@) }
    else if ipa == "ɛ"@ { Some("EH"@) }
    else if ipa == "ɜr"@ { Some("ER"@) }
    else if ipa == "eɪ"@ { Some("EY"@) }
    else if ipa == "ɪ"@ { Some("IH"@) }
    else if ipa == "i"@ { Some("IY"@) }
    else if ipa == "oʊ"@ { Some("OW"@) }
    else if ipa == "ɔɪ"@ { Some("OY"@) }
    else if ipa == "ʊ"@ { Some("UH"@) }
    else if ipa == "u"@ { Some("UW"@) }
    else if ipa == "b"@ { Some("B"@) }
    else if ipa == "tʃ"@ { Some("CH"@) }
    else if ipa == "d"@ { Some("D"@) }
    else if ipa == "ð"@ { Some("DH"@) }
    else if ipa == "f"@ { Some("F"@) }
    else if ipa == "g"@ { Some("G"@) }
    else if ipa == "h"@ { Some("HH"@) }
    else if ipa == "dʒ"@ { Some("JH"@) }
    else if ipa == "k"@ { Some("K"@) }
    else if ipa == "l"@ { Some("L"@) }
    else if ipa == "m"@ { Some("M"@) }
    else if ipa == "n"@ { Some("N"@) }
    else if ipa == "ŋ"@ { Some("NG"@) }
    else if ipa == "p"@ { Some("P"@) }
    else if ipa == "r"@ { Some("R"@) }
    else if ipa == "s"@ { Some("S"@) }
    else if ipa == "ʃ"@ { Some("SH"@) }
    else if ipa == "t"@ { Some("T"@) }
    else if ipa == "θ"@ { Some("TH"@) }
    else if ipa == "v"@ { Some("V"@) }
    else if ipa == "w"@ { Some("W"@) }
    else if ipa == "j"@ { Some("Y"@) }
    else if ipa == "z"@ { Some("Z"@) }
    else if ipa == "ʒ"@ { Some("ZH"@) }
    else { None }
}

/// The index of an IPA symbol.
pub open spec fn ipa_index(ipa: Seq<char>) -> Option<i32> {
    match dictionary_symbol(ipa) {
        Some(symbol) => symbol_index(symbol),
        None => None,
    }
}

fn find_dictionary_symbol(ipa: &str) -> (r: Option<&'static str>)
    ensures
        r is Some <==> dictionary_symbol(ipa@) is Some,
        r is Some ==> r->0@ == dictionary_symbol(ipa@)->0,
{
    if ipa.eq("ɑ") { Some("AA") }
    else if ipa.eq("æ") { Some("AE") }
    else if ipa.eq("ʌ") { Some("AH") }
    else if ipa.eq("ɔ") { Some("AO") }
    else if ipa.eq("aʊ") { Some("AW") }
    else if ipa.eq("ə") { Some("AX") }
    else if ipa.eq("aɪ") { Some("AY") }
    else if ipa.eq("ɛ") { Some("EH") }
    else if ipa.eq("ɜr") { Some("ER") }
    else if ipa.eq("eɪ") { Some("EY") }
    else if ipa.eq("ɪ") { Some("IH") }
    else if ipa.eq("i") { Some("IY") }
    else if ipa.eq("oʊ") { Some("OW") }
    else if ipa.eq("ɔɪ") { Some("OY") }
    else if ipa.eq("ʊ") { Some("UH") }
    else if ipa.eq("u") { Some("UW") }
    else if ipa.eq("b") { Some("B") }
    else if ipa.eq("tʃ") { Some("CH") }
    else if ipa.eq("d") { Some("D") }
    else if ipa.eq("ð") { Some("DH") }
    else if ipa.eq("f") { Some("F") }
    else if ipa.eq("g") { Some("G") }
    else if ipa.eq("h") { Some("HH") }
    else if ipa.eq("dʒ") { Some("JH") }
    else if ipa.eq("k") { Some("K") }
    else if ipa.eq("l") { Some("L") }
    else if ipa.eq("m") { Some("M") }
    else if ipa.eq("n") { Some("N") }
    else if ipa.eq("ŋ") { Some("NG") }
    else if ipa.eq("p") { Some("P") }
    else if ipa.eq("r") { Some("R") }
    else if ipa.eq("s") { Some("S") }
    else if ipa.eq("ʃ") { Some("SH") }
    else if ipa.eq("t") { Some("T") }
    else if ipa.eq("θ") { Some("TH") }
    else if ipa.eq("v") { Some("V") }
    else if ipa.eq("w") { Some("W") }
    else if ipa.eq("j") { Some("Y") }
    else if ipa.eq("z") { Some("Z") }
    else if ipa.eq("ʒ") { Some("ZH") }
    else { None }
}

/// Map an IPA symbol (from `Phoneme::ipa_symbol()`) back to an ARPABET CTC
/// index.
#[must_use]
pub fn ipa_to_arpabet_idx(ipa: &str) -> (r: Option<i32>)
    ensures
        r == ipa_index(ipa@),
{
    match find_dictionary_symbol(ipa) {
        Some(symbol) => arpabet_to_idx(symbol),
        None => None,
    }
}

/// The indices of those of `phonemes` that have one, in order.
pub open spec fn phoneme_indices(phonemes: Seq<PhonemeView>) -> Seq<i32>
    decreases phonemes.len(),
{
    if phonemes.len() == 0 {
        seq![]
    } else {
        let before = phoneme_indices(phonemes.drop_last());
        match ipa_index(phonemes.last().ipa()) {
            Some(idx) => before.push(idx),
            None => before,
        }
    }
}

/// What the dictionary alone gives for a word: `None` where it lacks the word,
/// or knows none of its phonemes.
pub open spec fn looked_up(word: Seq<char>, dict: Entries) -> Option<Seq<i32>> {
    match cmudict::pronunciation_in(dict, word) {
        Some(phonemes) => if phoneme_indices(phonemes).len() == 0 {
            None
        } else {
            Some(phoneme_indices(phonemes))
        },
        None => None,
    }
}

/// A list of indices, or none, seen as a sequence.
pub open spec fn opt_view(r: Option<Vec<i32>>) -> Option<Seq<i32>> {
    match r {
        Some(v) => Some(v@),
        None => None,
    }
}

/// Look up a word in the dictionary and convert to CTC indices.
pub fn dict_lookup_to_indices(word: &str, dict: &CmuDict) -> (r: Option<Vec<i32>>)
    ensures
        opt_view(r) == looked_up(word@, dict@),
{
    let phonemes: Vec<Phoneme> = match dict.lookup(word) {
        Some(phonemes) => phonemes,
        None => {
            return None;
        },
    };
    let n: usize = phonemes.len();
    let ghost views = types::phoneme_views(phonemes@);
    let mut indices: Vec<i32> = Vec::new();
    let mut i: usize = 0;
    assert(views.take(0) =~= Seq::<PhonemeView>::empty());
    while i < n
        invariant
            n == phonemes@.len(),
            i <= n,
            views == types::phoneme_views(phonemes@),
            indices@ == phoneme_indices(views.take(i as int)),
        decreases n - i,
    {
        let ghost upto = views.take(i + 1);
        assert(upto.drop_last() =~= views.take(i as int));
        assert(upto.last() == phonemes@[i as int]@);
        let symbol = phonemes[i].ipa_symbol();
        let found = match symbol {
            std::borrow::Cow::Borrowed(s) => ipa_to_arpabet_idx(s),
            std::borrow::Cow::Owned(s) => ipa_to_arpabet_idx(s.as_str()),
        };
        if let Some(idx) = found {
            indices.push(idx);
        }
        i = i + 1;
    }
    assert(views.take(n as int) =~= views);
    if indices.len() == 0 {
        None
    } else {
        Some(indices)
    }
}

fn lookup_chars(word: &Vec<char>, dict: &CmuDict) -> (r: Option<Vec<i32>>)
    ensures
        opt_view(r) == looked_up(word@, dict@),
{
    let text = string_of(word.as_slice());
    dict_lookup_to_indices(text.as_str(), dict)
}

// ---------------------------------------------------------------------------
// Resolution metrics
// ---------------------------------------------------------------------------

/// How a word was resolved to phoneme indices.
#[derive(Debug, Clone, Copy, PartialEq, Eq, Structural)]
pub enum ResolutionMethod {
    /// Direct dictionary hit.
    Dictionary,
    /// Possessive decomposition (e.g., `JOHN'S` → `JOHN` + Z).
    Possessive,
    /// Hyphen/compound split (e.g., `WELL-KNOWN` → `WELL` + `KNOWN`).
    HyphenSplit,
    /// Suffix/prefix stripping (e.g., `QUIETLY` → `QUIET` + LY).
    SuffixStrip,
    /// Compound splitting without hyphens (e.g., `SHIPMASTERS` → `SHIP` +
    /// `MASTERS`).
    CompoundSplit,
    /// Chained prefix+suffix (e.g., `UNKINDNESS` → `UN` + `KIND` + `NESS`).
    ChainedAffix,
    /// Possessive of unknown base by rule (e.g., `JELLYBY'S`).
    PossessiveG2p,
    /// Rule-based letter-to-phoneme fallback.
    RuleG2p,
}

/// Aggregate resolution statistics from `transcript_to_targets`.
#[derive(Debug, Clone)]
pub struct ResolutionStats {
    pub total_words: usize,
    pub dict_hits: usize,
    pub possessive_hits: usize,
    pub hyphen_hits: usize,
    pub suffix_hits: usize,
    pub compound_hits: usize,
    pub chained_hits: usize,
    pub g2p_hits: usize,
}

impl ResolutionStats {
    /// Words that gave at least one index, by whatever method.
    pub open spec fn hits(self) -> int {
        self.dict_hits + self.possessive_hits + self.hyphen_hits + self.suffix_hits
            + self.compound_hits + self.chained_hits + self.g2p_hits
    }
}

impl Default for ResolutionStats {
    fn default() -> (r: Self)
        ensures
            r == no_stats(),
    {
        ResolutionStats {
            total_words: 0,
            dict_hits: 0,
            possessive_hits: 0,
            hyphen_hits: 0,
            suffix_hits: 0,
            compound_hits: 0,
            chained_hits: 0,
            g2p_hits: 0,
        }
    }
}

pub open spec fn no_stats() -> ResolutionStats {
    ResolutionStats {
        total_words: 0,
        dict_hits: 0,
        possessive_hits: 0,
        hyphen_hits: 0,
        suffix_hits: 0,
        compound_hits: 0,
        chained_hits: 0,
        g2p_hits: 0,
    }
}

// ---------------------------------------------------------------------------
// Affix rules
// ---------------------------------------------------------------------------

/// A prefix or a suffix and the phonemes that it adds to the base.
pub struct Rule {
    pub affix: &'static str,
    pub phones: Vec<&'static str>,
}

impl Rule {
    pub open spec fn view(&self) -> (Seq<char>, Seq<Seq<char>>) {
        (self.affix@, literals(self.phones@))
    }
}

pub open spec fn rule_views(rules: Seq<Rule>) -> Seq<(Seq<char>, Seq<Seq<char>>)> {
    rules.map_values(|r: Rule| r.view())
}

/// Possessive and contraction suffixes.
pub open spec fn possessive_rules() -> Seq<(Seq<char>, Seq<Seq<char>>)> {
    seq![
        ("'S"@, seq!["Z"@]),
        ("'D"@, seq!["D"@]),
        ("'LL"@, seq!["L"@]),
        ("'VE"@, seq!["V"@]),
        ("'RE"@, seq!["R"@]),
        ("'T"@, seq!["T"@]),
        ("'M"@, seq!["M"@]),
    ]
}

/// Suffixes, longest first.
pub open spec fn suffix_rules() -> Seq<(Seq<char>, Seq<Seq<char>>)> {
    seq![
        ("TION"@, seq!["SH"@, "AH"@, "N"@]),
        ("SION"@, seq!["ZH"@, "AH"@, "N"@]),
        ("NESS"@, seq!["N"@, "AH"@, "S"@]),
        ("MENT"@, seq!["M"@, "AH"@, "N"@, "T"@]),
        ("ABLE"@, seq!["AH"@, "B"@, "AH"@, "L"@]),
        ("IBLE"@, seq!["AH"@, "B"@, "AH"@, "L"@]),
        ("LING"@, seq!["L"@, "IH"@, "NG"@]),
        ("INGS"@, seq!["IH"@, "NG"@, "Z"@]),
        ("ALLY"@, seq!["AH"@, "L"@, "IY"@]),
        ("EOUS"@, seq!["IY"@, "AH"@, "S"@]),
        ("IOUS"@, seq!["IY"@, "AH"@, "S"@]),
        ("ICAL"@, seq!["IH"@, "K"@, "AH"@, "L"@]),
        ("LESS"@, seq!["L"@, "AH"@, "S"@]),
        ("FUL"@, seq!["F"@, "AH"@, "L"@]),
        ("EST"@, seq!["AH"@, "S"@, "T"@]),
        ("ING"@, seq!["IH"@, "NG"@]),
        ("LY"@, seq!["L"@, "IY"@]),
        ("ED"@, seq!["D"@]),
        ("ER"@, seq!["ER"@]),
        ("EN"@, seq!["AH"@, "N"@]),
        ("ES"@, seq!["IH"@, "Z"@]),
    ]
}

/// Prefixes.
pub open spec fn prefix_rules() -> Seq<(Seq<char>, Seq<Seq<char>>)> {
    seq![
        ("OVER"@, seq!["OW"@, "V"@, "ER"@]),
        ("UNDER"@, seq!["AH"@, "N"@, "D"@, "ER"@]),
        ("FORE"@, seq!["F"@, "AO"@, "R"@]),
        ("MIS"@, seq!["M"@, "IH"@, "S"@]),
        ("OUT"@, seq!["AW"@, "T"@]),
        ("PRE"@, seq!["P"@, "R"@, "IY"@]),
        ("UN"@, seq!["AH"@, "N"@]),
        ("RE"@, seq!["R"@, "IY"@]),
    ]
}

fn possessive_rule_list() -> (r: Vec<Rule>)
    ensures
        rule_views(r@) == possessive_rules(),
{
    let r: Vec<Rule> = vec![
        Rule { affix: "'S", phones: vec!["Z"] },
        Rule { affix: "'D", phones: vec!["D"] },
        Rule { affix: "'LL", phones: vec!["L"] },
        Rule { affix: "'VE", phones: vec!["V"] },
        Rule { affix: "'RE", phones: vec!["R"] },
        Rule { affix: "'T", phones: vec!["T"] },
        Rule { affix: "'M", phones: vec!["M"] },
    ];
    assert(rule_views(r@) =~~= possessive_rules());
    r
}

fn suffix_rule_list() -> (r: Vec<Rule>)
    ensures
        rule_views(r@) == suffix_rules(),
{
    let r: Vec<Rule> = vec![
        Rule { affix: "TION", phones: vec!["SH", "AH", "N"] },
        Rule { affix: "SION", phones: vec!["ZH", "AH", "N"] },
        Rule { affix: "NESS", phones: vec!["N", "AH", "S"] },
        Rule { affix: "MENT", phones: vec!["M", "AH", "N", "T"] },
        Rule { affix: "ABLE", phones: vec!["AH", "B", "AH", "L"] },
        Rule { affix: "IBLE", phones: vec!["AH", "B", "AH", "L"] },
        Rule { affix: "LING", phones: vec!["L", "IH", "NG"] },
        Rule { affix: "INGS", phones: vec!["IH", "NG", "Z"] },
        Rule { affix: "ALLY", phones: vec!["AH", "L", "IY"] },
        Rule { affix: "EOUS", phones: vec!["IY", "AH", "S"] },
        Rule { affix: "IOUS", phones: vec!["IY", "AH", "S"] },
        Rule { affix: "ICAL", phones: vec!["IH", "K", "AH", "L"] },
        Rule { affix: "LESS", phones: vec!["L", "AH", "S"] },
        Rule { affix: "FUL", phones: vec!["F", "AH", "L"] },
        Rule { affix: "EST", phones: vec!["AH", "S", "T"] },
        Rule { affix: "ING", phones: vec!["IH", "NG"] },
        Rule { affix: "LY", phones: vec!["L", "IY"] },
        Rule { affix: "ED", phones: vec!["D"] },
        Rule { affix: "ER", phones: vec!["ER"] },
        Rule { affix: "EN", phones: vec!["AH", "N"] },
        Rule { affix: "ES", phones: vec!["IH", "Z"] },
    ];
    assert(rule_views(r@) =~~= suffix_rules());
    r
}

fn prefix_rule_list() -> (r: Vec<Rule>)
    ensures
        rule_views(r@) == prefix_rules(),
{
    let r: Vec<Rule> = vec![
        Rule { affix: "OVER", phones: vec!["OW", "V", "ER"] },
        Rule { affix: "UNDER", phones: vec!["AH", "N", "D", "ER"] },
        Rule { affix: "FORE", phones: vec!["F", "AO", "R"] },
        Rule { affix: "MIS", phones: vec!["M", "IH", "S"] },
        Rule { affix: "OUT", phones: vec!["AW", "T"] },
        Rule { affix: "PRE", phones: vec!["P", "R", "IY"] },
        Rule { affix: "UN", phones: vec!["AH", "N"] },
        Rule { affix: "RE", phones: vec!["R", "IY"] },
    ];
    assert(rule_views(r@) =~~= prefix_rules());
    r
}

/// What the first rule that gives anything gives.
pub open spec fn first_some<A, B>(rules: Seq<A>, gives: spec_fn(A) -> Option<B>) -> Option<B>
    decreases rules.len(),
{
    if rules.len() == 0 {
        None
    } else {
        match gives(rules[0]) {
            Some(b) => Some(b),
            None => first_some(rules.drop_first(), gives),
        }
    }
}

/// `word` without the suffix, where it has it.
pub open spec fn strip_suffix(word: Seq<char>, suffix: Seq<char>) -> Option<Seq<char>> {
    if suffix.is_suffix_of(word) {
        Some(word.take(word.len() - suffix.len()))
    } else {
        None
    }
}

/// `word` without the prefix, where it has it.
pub open spec fn strip_prefix(word: Seq<char>, prefix: Seq<char>) -> Option<Seq<char>> {
    if prefix.is_prefix_of(word) {
        Some(word.skip(prefix.len() as int))
    } else {
        None
    }
}

fn without_suffix(word: &Vec<char>, suffix: &str) -> (r: Option<Vec<char>>)
    ensures
        match r {
            Some(base) => strip_suffix(word@, suffix@) == Some(base@),
            None => strip_suffix(word@, suffix@) is None,
        },
{
    if ends_with(word.as_slice(), suffix) {
        let k: usize = suffix.unicode_len();
        let n: usize = word.len();
        let base = slice_of(word.as_slice(), 0, n - k);
        assert(base@ =~= word@.take(n - k));
        Some(base)
    } else {
        None
    }
}

fn without_prefix(word: &Vec<char>, prefix: &str) -> (r: Option<Vec<char>>)
    ensures
        match r {
            Some(base) => strip_prefix(word@, prefix@) == Some(base@),
            None => strip_prefix(word@, prefix@) is None,
        },
{
    if starts_with(word.as_slice(), prefix) {
        let k: usize = prefix.unicode_len();
        let n: usize = word.len();
        let base = slice_of(word.as_slice(), k, n);
        assert(base@ =~= word@.skip(k as int));
        Some(base)
    } else {
        None
    }
}

// ---------------------------------------------------------------------------
// Possessive decomposition
// ---------------------------------------------------------------------------

/// What one possessive rule gives for a word in upper case.
pub open spec fn possessive_by(
    upper: Seq<char>,
    dict: Entries,
    rule: (Seq<char>, Seq<Seq<char>>),
) -> Option<Seq<i32>> {
    match strip_suffix(upper, rule.0) {
        Some(base) => if base.len() == 0 {
            None
        } else {
            match looked_up(base, dict) {
                Some(indices) => Some(indices + symbol_indices(rule.1)),
                None => None,
            }
        },
        None => None,
    }
}

pub open spec fn possessive(word: Seq<char>, dict: Entries) -> Option<Seq<i32>> {
    first_some(
        possessive_rules(),
        |rule: (Seq<char>, Seq<Seq<char>>)| possessive_by(text::ascii_upper(word), dict, rule),
    )
}

fn try_possessive_rule(upper: &Vec<char>, dict: &CmuDict, rule: &Rule) -> (r: Option<Vec<i32>>)
    ensures
        opt_view(r) == possessive_by(upper@, dict@, rule.view()),
{
    match without_suffix(upper, rule.affix) {
        Some(base) => {
            if base.len() == 0 {
                return None;
            }
            match lookup_chars(&base, dict) {
                Some(indices) => {
                    let mut indices = indices;
                    push_phones(&mut indices, &rule.phones);
                    Some(indices)
                },
                None => None,
            }
        },
        None => None,
    }
}

/// Try decomposing a possessive/contraction: `JOHN'S` → `JOHN` + Z.
pub fn try_possessive(word: &str, dict: &CmuDict) -> (r: Option<Vec<i32>>)
    ensures
        opt_view(r) == possessive(word@, dict@),
{
    let upper = to_ascii_upper(word);
    let rules = possessive_rule_list();
    let n: usize = rules.len();
    let ghost all = rule_views(rules@);
    let ghost gives = |rule: (Seq<char>, Seq<Seq<char>>)| possessive_by(upper@, dict@, rule);
    let mut i: usize = 0;
    assert(all.skip(0) =~= all);
    while i < n
        invariant
            n == rules@.len(),
            i <= n,
            all == rule_views(rules@),
            gives == (|rule: (Seq<char>, Seq<Seq<char>>)| possessive_by(upper@, dict@, rule)),
            first_some(all, gives) == first_some(all.skip(i as int), gives),
            possessive(word@, dict@) == first_some(all, gives),
        decreases n - i,
    {
        assert(all.skip(i as int)[0] == rules@[i as int].view());
        assert(all.skip(i as int).drop_first() =~= all.skip(i + 1));
        let found = try_possessive_rule(&upper, dict, &rules[i]);
        if found.is_some() {
            return found;
        }
        i = i + 1;
    }
    None
}

// ---------------------------------------------------------------------------
// Hyphen split
// ---------------------------------------------------------------------------

/// The indices of the parts with silence in between; `None` where the
/// dictionary does not give one of them.
pub open spec fn joined(parts: Seq<Seq<char>>, dict: Entries) -> Option<Seq<i32>>
    decreases parts.len(),
{
    if parts.len() == 0 {
        Some(seq![])
    } else {
        match (joined(parts.drop_last(), dict), looked_up(parts.last(), dict)) {
            (Some(before), Some(last)) => Some(
                if parts.len() == 1 {
                    last
                } else {
                    before.push(SIL_IDX) + last
                },
            ),
            _ => None,
        }
    }
}

pub open spec fn hyphen_split(word: Seq<char>, dict: Entries) -> Option<Seq<i32>> {
    let parts = text::runs(word, Separator::Mark('-'));
    if parts.len() < 2 {
        None
    } else {
        joined(parts, dict)
    }
}

proof fn lemma_joined_fails_early(parts: Seq<Seq<char>>, dict: Entries, k: int)
    requires
        0 <= k <= parts.len(),
        joined(parts.take(k), dict) is None,
    ensures
        joined(parts, dict) is None,
    decreases parts.len(),
{
    if k == parts.len() {
        assert(parts.take(k) =~= parts);
    } else {
        assert(parts.drop_last().take(k) =~= parts.take(k));
        lemma_joined_fails_early(parts.drop_last(), dict, k);
    }
}

/// Try splitting on hyphens and looking up each part.
pub fn try_hyphen_split(word: &str, dict: &CmuDict) -> (r: Option<Vec<i32>>)
    ensures
        opt_view(r) == hyphen_split(word@, dict@),
{
    let chars = chars_of(word);
    let parts = split_runs(chars.as_slice(), Separator::Mark('-'));
    let ghost all = text::texts(parts@);
    let n: usize = parts.len();
    assert(all.len() == n);
    if n < 2 {
        return None;
    }
    let mut indices: Vec<i32> = Vec::new();
    let mut i: usize = 0;
    assert(all.take(0) =~= Seq::<Seq<char>>::empty());
    assert(joined(all.take(0), dict@) == Some(Seq::<i32>::empty()));
    while i < n
        invariant
            n == parts@.len(),
            i <= n,
            n >= 2,
            all == text::texts(parts@),
            hyphen_split(word@, dict@) == joined(all, dict@),
            joined(all.take(i as int), dict@) == Some(indices@),
        decreases n - i,
    {
        let ghost upto = all.take(i + 1);
        assert(upto.drop_last() =~= all.take(i as int));
        assert(upto.last() == parts@[i as int]@);
        match lookup_chars(&parts[i], dict) {
            Some(part) => {
                let mut part = part;
                if i > 0 {
                    indices.push(SIL_IDX);
                }
                let ghost front = indices@;
                let ghost tail = part@;
                indices.append(&mut part);
                assert(indices@ =~= front + tail);
                if i == 0 {
                    assert(indices@ =~= tail);
                }
            },
            None => {
                proof {
                    lemma_joined_fails_early(all, dict@, i + 1);
                }
                return None;
            },
        }
        i = i + 1;
    }
    assert(all.take(n as int) =~= all);
    Some(indices)
}

// ---------------------------------------------------------------------------
// Suffix and prefix stripping
// ---------------------------------------------------------------------------

/// The number of bytes that `c` takes in UTF-8.
pub open spec fn char_bytes(c: char) -> nat {
    if (c as u32) < 0x80 {
        1
    } else if (c as u32) < 0x800 {
        2
    } else if (c as u32) < 0x10000 {
        3
    } else {
        4
    }
}

/// The number of bytes that `s` takes in UTF-8.
pub open spec fn byte_len(s: Seq<char>) -> nat
    decreases s.len(),
{
    if s.len() == 0 {
        0
    } else {
        byte_len(s.drop_last()) + char_bytes(s.last())
    }
}

/// Whether `v` takes at least `least` bytes.
fn has_bytes(v: &Vec<char>, least: usize) -> (r: bool)
    requires
        least <= 4,
    ensures
        r == (byte_len(v@) >= least),
{
    let n: usize = v.len();
    let mut total: usize = 0;
    let mut i: usize = 0;
    assert(v@.take(0) =~= Seq::<char>::empty());
    while i < n
        invariant
            n == v@.len(),
            i <= n,
            least <= 4,
            total < least || i == 0 && total == 0,
            total == byte_len(v@.take(i as int)),
        decreases n - i,
    {
        let c: u32 = v[i] as u32;
        let ghost upto = v@.take(i + 1);
        assert(upto.drop_last() =~= v@.take(i as int));
        assert(upto.last() == v@[i as int]);
        let width: usize = if c < 0x80 {
            1
        } else if c < 0x800 {
            2
        } else if c < 0x10000 {
            3
        } else {
            4
        };
        total = total + width;
        i = i + 1;
        if total >= least {
            proof {
                lemma_byte_len_grows(v@, i as int);
            }
            return true;
        }
    }
    assert(v@.take(n as int) =~= v@);
    total >= least
}

proof fn lemma_byte_len_grows(s: Seq<char>, k: int)
    requires
        0 <= k <= s.len(),
    ensures
        byte_len(s.take(k)) <= byte_len(s),
    decreases s.len(),
{
    if k == s.len() {
        assert(s.take(k) =~= s);
    } else {
        assert(s.drop_last().take(k) =~= s.take(k));
        lemma_byte_len_grows(s.drop_last(), k);
    }
}

/// The base of an affixed word as the dictionary has it: as it stands, with a
/// final E put back (HOPING → HOPE), or with a final I turned back into Y
/// (TIDINESS → TIDY).
pub open spec fn base_form(base: Seq<char>, dict: Entries) -> Option<Seq<i32>> {
    match looked_up(base, dict) {
        Some(indices) => Some(indices),
        None => match looked_up(base.push('E'), dict) {
            Some(indices) => Some(indices),
            None => if base.len() > 0 && base.last() == 'I' {
                looked_up(base.drop_last().push('Y'), dict)
            } else {
                None
            },
        },
    }
}

fn lookup_base(base: &Vec<char>, dict: &CmuDict) -> (r: Option<Vec<i32>>)
    ensures
        opt_view(r) == base_form(base@, dict@),
{
    let plain = lookup_chars(base, dict);
    if plain.is_some() {
        return plain;
    }
    let n: usize = base.len();
    let mut with_e = slice_of(base.as_slice(), 0, n);
    with_e.push('E');
    assert(with_e@ =~= base@.push('E'));
    let longer = lookup_chars(&with_e, dict);
    if longer.is_some() {
        return longer;
    }
    if n > 0 && base[n - 1] == 'I' {
        let mut with_y = slice_of(base.as_slice(), 0, n - 1);
        with_y.push('Y');
        assert(with_y@ =~= base@.drop_last().push('Y'));
        lookup_chars(&with_y, dict)
    } else {
        None
    }
}

/// What one suffix rule gives for a word in upper case.
pub open spec fn suffix_by(
    upper: Seq<char>,
    dict: Entries,
    rule: (Seq<char>, Seq<Seq<char>>),
) -> Option<Seq<i32>> {
    match strip_suffix(upper, rule.0) {
        Some(base) => if byte_len(base) < 2 {
            None
        } else {
            match base_form(base, dict) {
                Some(indices) => Some(indices + symbol_indices(rule.1)),
                None => None,
            }
        },
        None => None,
    }
}

/// What one prefix rule gives for a word in upper case.
pub open spec fn prefix_by(
    upper: Seq<char>,
    dict: Entries,
    rule: (Seq<char>, Seq<Seq<char>>),
) -> Option<Seq<i32>> {
    match strip_prefix(upper, rule.0) {
        Some(base) => if byte_len(base) < 2 {
            None
        } else {
            match looked_up(base, dict) {
                Some(indices) => Some(symbol_indices(rule.1) + indices),
                None => None,
            }
        },
        None => None,
    }
}

pub open spec fn by_suffixes(upper: Seq<char>, dict: Entries) -> Option<Seq<i32>> {
    first_some(
        suffix_rules(),
        |rule: (Seq<char>, Seq<Seq<char>>)| suffix_by(upper, dict, rule),
    )
}

pub open spec fn by_prefixes(upper: Seq<char>, dict: Entries) -> Option<Seq<i32>> {
    first_some(
        prefix_rules(),
        |rule: (Seq<char>, Seq<Seq<char>>)| prefix_by(upper, dict, rule),
    )
}

pub open spec fn suffix_strip(word: Seq<char>, dict: Entries) -> Option<Seq<i32>> {
    let upper = text::ascii_upper(word);
    match by_suffixes(upper, dict) {
        Some(indices) => Some(indices),
        None => by_prefixes(upper, dict),
    }
}

fn try_suffix_rule(upper: &Vec<char>, dict: &CmuDict, rule: &Rule) -> (r: Option<Vec<i32>>)
    ensures
        opt_view(r) == suffix_by(upper@, dict@, rule.view()),
{
    match without_suffix(upper, rule.affix) {
        Some(base) => {
            if !has_bytes(&base, 2) {
                return None;
            }
            match lookup_base(&base, dict) {
                Some(indices) => {
                    let mut indices = indices;
                    push_phones(&mut indices, &rule.phones);
                    Some(indices)
                },
                None => None,
            }
        },
        None => None,
    }
}

fn try_prefix_rule(upper: &Vec<char>, dict: &CmuDict, rule: &Rule) -> (r: Option<Vec<i32>>)
    ensures
        opt_view(r) == prefix_by(upper@, dict@, rule.view()),
{
    match without_prefix(upper, rule.affix) {
        Some(base) => {
            if !has_bytes(&base, 2) {
                return None;
            }
            match lookup_chars(&base, dict) {
                Some(found) => {
                    let mut found = found;
                    let mut indices: Vec<i32> = Vec::new();
                    push_phones(&mut indices, &rule.phones);
                    let ghost front = indices@;
                    let ghost tail = found@;
                    assert(front =~= symbol_indices(literals(rule.phones@)));
                    indices.append(&mut found);
                    assert(indices@ =~= front + tail);
                    Some(indices)
                },
                None => None,
            }
        },
        None => None,
    }
}

fn try_suffixes(upper: &Vec<char>, dict: &CmuDict) -> (r: Option<Vec<i32>>)
    ensures
        opt_view(r) == by_suffixes(upper@, dict@),
{
    let rules = suffix_rule_list();
    let n: usize = rules.len();
    let ghost all = rule_views(rules@);
    let ghost gives = |rule: (Seq<char>, Seq<Seq<char>>)| suffix_by(upper@, dict@, rule);
    let mut i: usize = 0;
    assert(all.skip(0) =~= all);
    while i < n
        invariant
            n == rules@.len(),
            i <= n,
            all == rule_views(rules@),
            gives == (|rule: (Seq<char>, Seq<Seq<char>>)| suffix_by(upper@, dict@, rule)),
            first_some(all, gives) == first_some(all.skip(i as int), gives),
            by_suffixes(upper@, dict@) == first_some(all, gives),
        decreases n - i,
    {
        assert(all.skip(i as int)[0] == rules@[i as int].view());
        assert(all.skip(i as int).drop_first() =~= all.skip(i + 1));
        let found = try_suffix_rule(upper, dict, &rules[i]);
        if found.is_some() {
            return found;
        }
        i = i + 1;
    }
    None
}

fn try_prefixes(upper: &Vec<char>, dict: &CmuDict) -> (r: Option<Vec<i32>>)
    ensures
        opt_view(r) == by_prefixes(upper@, dict@),
{
    let rules = prefix_rule_list();
    let n: usize = rules.len();
    let ghost all = rule_views(rules@);
    let ghost gives = |rule: (Seq<char>, Seq<Seq<char>>)| prefix_by(upper@, dict@, rule);
    let mut i: usize = 0;
    assert(all.skip(0) =~= all);
    while i < n
        invariant
            n == rules@.len(),
            i <= n,
            all == rule_views(rules@),
            gives == (|rule: (Seq<char>, Seq<Seq<char>>)| prefix_by(upper@, dict@, rule)),
            first_some(all, gives) == first_some(all.skip(i as int), gives),
            by_prefixes(upper@, dict@) == first_some(all, gives),
        decreases n - i,
    {
        assert(all.skip(i as int)[0] == rules@[i as int].view());
        assert(all.skip(i as int).drop_first() =~= all.skip(i + 1));
        let found = try_prefix_rule(upper, dict, &rules[i]);
        if found.is_some() {
            return found;
        }
        i = i + 1;
    }
    None
}

/// Try stripping suffixes/prefixes and looking up the base form.
pub fn try_suffix_strip(word: &str, dict: &CmuDict) -> (r: Option<Vec<i32>>)
    ensures
        opt_view(r) == suffix_strip(word@, dict@),
{
    let upper = to_ascii_upper(word);
    let found = try_suffixes(&upper, dict);
    if found.is_some() {
        return found;
    }
    try_prefixes(&upper, dict)
}

// ---------------------------------------------------------------------------
// Compound split
// ---------------------------------------------------------------------------

/// What the split of `upper` before its character `at` gives.
pub open spec fn split_at(upper: Seq<char>, dict: Entries, at: int) -> Option<Seq<i32>> {
    match (looked_up(upper.take(at), dict), looked_up(upper.skip(at), dict)) {
        (Some(left), Some(right)) => Some(left.push(SIL_IDX) + right),
        _ => None,
    }
}

/// What the first split from `at` on that leaves at least three characters on
/// the right gives.
pub open spec fn first_split(upper: Seq<char>, dict: Entries, at: int) -> Option<Seq<i32>>
    decreases upper.len() - at,
{
    if at > upper.len() - 3 {
        None
    } else {
        match split_at(upper, dict, at) {
            Some(indices) => Some(indices),
            None => first_split(upper, dict, at + 1),
        }
    }
}

pub open spec fn compound_split(word: Seq<char>, dict: Entries) -> Option<Seq<i32>> {
    first_split(text::ascii_upper(word), dict, 3)
}

/// Try splitting a word at every position and check if both halves are in the
/// dictionary. Example: `SHIPMASTERS` → `SHIP` + `MASTERS`.
///
/// Only tries splits where both halves are >= 3 characters to avoid trivial
/// matches like `A` + `BCDE`.
pub fn try_compound_split(word: &str, dict: &CmuDict) -> (r: Option<Vec<i32>>)
    ensures
        opt_view(r) == compound_split(word@, dict@),
{
    let upper = to_ascii_upper(word);
    let n: usize = upper.len();
    if n < 6 {
        return None;
    }
    let mut at: usize = 3;
    while at <= n - 3
        invariant
            n == upper@.len(),
            n >= 6,
            3 <= at <= n - 2,
            upper@ == text::ascii_upper(word@),
            first_split(upper@, dict@, 3) == first_split(upper@, dict@, at as int),
        decreases n - at,
    {
        let left = slice_of(upper.as_slice(), 0, at);
        let right = slice_of(upper.as_slice(), at, n);
        assert(left@ =~= upper@.take(at as int));
        assert(right@ =~= upper@.skip(at as int));
        if let Some(left_indices) = lookup_chars(&left, dict) {
            if let Some(right_indices) = lookup_chars(&right, dict) {
                let mut indices = left_indices;
                let mut right_indices = right_indices;
                indices.push(SIL_IDX);
                let ghost front = indices@;
                let ghost tail = right_indices@;
                indices.append(&mut right_indices);
                assert(indices@ =~= front + tail);
                return Some(indices);
            }
        }
        at = at + 1;
    }
    None
}

// ---------------------------------------------------------------------------
// Prefix with suffix
// ---------------------------------------------------------------------------

/// What one suffix rule gives for a word whose prefix is already off.
pub open spec fn chained_by(
    rest: Seq<char>,
    dict: Entries,
    prefix: Seq<Seq<char>>,
    rule: (Seq<char>, Seq<Seq<char>>),
) -> Option<Seq<i32>> {
    match suffix_by(rest, dict, rule) {
        Some(indices) => Some(symbol_indices(prefix) + indices),
        None => None,
    }
}

/// What one prefix rule, together with the first suffix rule that fits, gives.
pub open spec fn chained_after(
    upper: Seq<char>,
    dict: Entries,
    prefix: (Seq<char>, Seq<Seq<char>>),
) -> Option<Seq<i32>> {
    match strip_prefix(upper, prefix.0) {
        Some(rest) => if byte_len(rest) < 4 {
            None
        } else {
            first_some(
                suffix_rules(),
                |rule: (Seq<char>, Seq<Seq<char>>)| chained_by(rest, dict, prefix.1, rule),
            )
        },
        None => None,
    }
}

pub open spec fn chained_affix(word: Seq<char>, dict: Entries) -> Option<Seq<i32>> {
    first_some(
        prefix_rules(),
        |prefix: (Seq<char>, Seq<Seq<char>>)| chained_after(text::ascii_upper(word), dict, prefix),
    )
}

/// Putting phonemes in front of what the first fitting rule gives is putting
/// them in front of what each rule gives.
proof fn lemma_chain_is_prefixed(
    rules: Seq<(Seq<char>, Seq<Seq<char>>)>,
    rest: Seq<char>,
    dict: Entries,
    prefix: Seq<Seq<char>>,
)
    ensures
        first_some(
            rules,
            |rule: (Seq<char>, Seq<Seq<char>>)| chained_by(rest, dict, prefix, rule),
        ) == match first_some(
            rules,
            |rule: (Seq<char>, Seq<Seq<char>>)| suffix_by(rest, dict, rule),
        ) {
            Some(indices) => Some(symbol_indices(prefix) + indices),
            None => None,
        },
    decreases rules.len(),
{
    if rules.len() > 0 {
        lemma_chain_is_prefixed(rules.drop_first(), rest, dict, prefix);
    }
}

fn try_chained_rule(upper: &Vec<char>, dict: &CmuDict, prefix: &Rule) -> (r: Option<Vec<i32>>)
    ensures
        opt_view(r) == chained_after(upper@, dict@, prefix.view()),
{
    match without_prefix(upper, prefix.affix) {
        Some(rest) => {
            if !has_bytes(&rest, 4) {
                return None;
            }
            proof {
                lemma_chain_is_prefixed(suffix_rules(), rest@, dict@, literals(prefix.phones@));
            }
            match try_suffixes(&rest, dict) {
                Some(found) => {
                    let mut found = found;
                    let mut indices: Vec<i32> = Vec::new();
                    push_phones(&mut indices, &prefix.phones);
                    let ghost front = indices@;
                    let ghost tail = found@;
                    assert(front =~= symbol_indices(literals(prefix.phones@)));
                    indices.append(&mut found);
                    assert(indices@ =~= front + tail);
                    Some(indices)
                },
                None => None,
            }
        },
        None => None,
    }
}

/// Try stripping both a prefix AND a suffix simultaneously.
/// Example: `UNTIDINESS` → `UN` + `TIDY` + `NESS`.
pub fn try_chained_affix(word: &str, dict: &CmuDict) -> (r: Option<Vec<i32>>)
    ensures
        opt_view(r) == chained_affix(word@, dict@),
{
    let upper = to_ascii_upper(word);
    let rules = prefix_rule_list();
    let n: usize = rules.len();
    let ghost all = rule_views(rules@);
    let ghost gives = |rule: (Seq<char>, Seq<Seq<char>>)| chained_after(upper@, dict@, rule);
    let mut i: usize = 0;
    assert(all.skip(0) =~= all);
    while i < n
        invariant
            n == rules@.len(),
            i <= n,
            all == rule_views(rules@),
            gives == (|rule: (Seq<char>, Seq<Seq<char>>)| chained_after(upper@, dict@, rule)),
            first_some(all, gives) == first_some(all.skip(i as int), gives),
            chained_affix(word@, dict@) == first_some(all, gives),
        decreases n - i,
    {
        assert(all.skip(i as int)[0] == rules@[i as int].view());
        assert(all.skip(i as int).drop_first() =~= all.skip(i + 1));
        let found = try_chained_rule(&upper, dict, &rules[i]);
        if found.is_some() {
            return found;
        }
        i = i + 1;
    }
    None
}

// ---------------------------------------------------------------------------
// Letters by rule
// ---------------------------------------------------------------------------

/// The ARPABET symbol of a pair of letters that is read as one.
pub open spec fn digraph_symbol(pair: Seq<char>) -> Option<Seq<char>> {
    if pair == "TH"@ { Some("TH"@) }
    else if pair == "SH"@ { Some("SH"@) }
    else if pair == "CH"@ { Some("CH"@) }
    else if pair == "PH"@ { Some("F"@) }
    else if pair == "WH"@ { Some("W"@) }
    else if pair == "NG"@ { Some("NG"@) }
    else if pair == "CK"@ { Some("K"@) }
    else if pair == "GH"@ { None }
    else if pair == "EE"@ { Some("IY"@) }
    else if pair == "EA"@ { Some("IY"@) }
    else if pair == "OO"@ { Some("UW"@) }
    else if pair == "AI"@ { Some("EY"@) }
    else if pair == "AY"@ { Some("EY"@) }
    else if pair == "OI"@ { Some("OY"@) }
    else if pair == "OY"@ { Some("OY"@) }
    else if pair == "OU"@ { Some("AW"@) }
    else if pair == "OW"@ { Some("OW"@) }
    else if pair == "AU"@ { Some("AO"@) }
    else if pair == "AW"@ { Some("AO"@) }
    else if pair == "EI"@ { Some("EY"@) }
    else if pair == "EY"@ { Some("EY"@) }
    else if pair == "IE"@ { Some("IY"@) }
    else { None }
}

/// Map 2-character digraphs to ARPABET.
pub fn digraph_to_arpabet(digraph: &str) -> (r: Option<&'static str>)
    ensures
        r is Some <==> digraph_symbol(digraph@) is Some,
        r is Some ==> r->0@ == digraph_symbol(digraph@)->0,
{
    if digraph.eq("TH") { Some("TH") }
    else if digraph.eq("SH") { Some("SH") }
    else if digraph.eq("CH") { Some("CH") }
    else if digraph.eq("PH") { Some("F") }
    else if digraph.eq("WH") { Some("W") }
    else if digraph.eq("NG") { Some("NG") }
    else if digraph.eq("CK") { Some("K") }
    else if digraph.eq("GH") { None }
    else if digraph.eq("EE") { Some("IY") }
    else if digraph.eq("EA") { Some("IY") }
    else if digraph.eq("OO") { Some("UW") }
    else if digraph.eq("AI") { Some("EY") }
    else if digraph.eq("AY") { Some("EY") }
    else if digraph.eq("OI") { Some("OY") }
    else if digraph.eq("OY") { Some("OY") }
    else if digraph.eq("OU") { Some("AW") }
    else if digraph.eq("OW") { Some("OW") }
    else if digraph.eq("AU") { Some("AO") }
    else if digraph.eq("AW") { Some("AO") }
    else if digraph.eq("EI") { Some("EY") }
    else if digraph.eq("EY") { Some("EY") }
    else if digraph.eq("IE") { Some("IY") }
    else { None }
}

/// The ARPABET symbol of a single letter. X has none: it is read as two.
pub open spec fn letter_symbol(ch: char) -> Option<Seq<char>> {
    if ch == 'A' { Some("AE"@) }
    else if ch == 'E' { Some("EH"@) }
    else if ch == 'I' { Some("IH"@) }
    else if ch == 'O' { Some("AA"@) }
    else if ch == 'U' { Some("AH"@) }
    else if ch == 'Y' { Some("IY"@) }
    else if ch == 'B' { Some("B"@) }
    else if ch == 'C' { Some("K"@) }
    else if ch == 'D' { Some("D"@) }
    else if ch == 'F' { Some("F"@) }
    else if ch == 'G' { Some("G"@) }
    else if ch == 'H' { Some("HH"@) }
    else if ch == 'J' { Some("JH"@) }
    else if ch == 'K' { Some("K"@) }
    else if ch == 'L' { Some("L"@) }
    else if ch == 'M' { Some("M"@) }
    else if ch == 'N' { Some("N"@) }
    else if ch == 'P' { Some("P"@) }
    else if ch == 'Q' { Some("K"@) }
    else if ch == 'R' { Some("R"@) }
    else if ch == 'S' { Some("S"@) }
    else if ch == 'T' { Some("T"@) }
    else if ch == 'V' { Some("V"@) }
    else if ch == 'W' { Some("W"@) }
    else if ch == 'Z' { Some("Z"@) }
    else { None }
}

/// Map a single character to ARPABET.
pub fn single_char_to_arpabet(ch: char) -> (r: Option<&'static str>)
    ensures
        r is Some <==> letter_symbol(ch) is Some,
        r is Some ==> r->0@ == letter_symbol(ch)->0,
{
    if ch == 'A' { Some("AE") }
    else if ch == 'E' { Some("EH") }
    else if ch == 'I' { Some("IH") }
    else if ch == 'O' { Some("AA") }
    else if ch == 'U' { Some("AH") }
    else if ch == 'Y' { Some("IY") }
    else if ch == 'B' { Some("B") }
    else if ch == 'C' { Some("K") }
    else if ch == 'D' { Some("D") }
    else if ch == 'F' { Some("F") }
    else if ch == 'G' { Some("G") }
    else if ch == 'H' { Some("HH") }
    else if ch == 'J' { Some("JH") }
    else if ch == 'K' { Some("K") }
    else if ch == 'L' { Some("L") }
    else if ch == 'M' { Some("M") }
    else if ch == 'N' { Some("N") }
    else if ch == 'P' { Some("P") }
    else if ch == 'Q' { Some("K") }
    else if ch == 'R' { Some("R") }
    else if ch == 'S' { Some("S") }
    else if ch == 'T' { Some("T") }
    else if ch == 'V' { Some("V") }
    else if ch == 'W' { Some("W") }
    else if ch == 'Z' { Some("Z") }
    else { None }
}

/// The symbols that one letter is read as.
pub open spec fn letter_symbols(ch: char) -> Seq<Seq<char>> {
    if ch == 'X' {
        seq!["K"@, "S"@]
    } else {
        match letter_symbol(ch) {
            Some(symbol) => seq![symbol],
            None => seq![],
        }
    }
}

/// The symbols of the letters, read from left to right: a pair that is read as
/// one first, else a single letter.
pub open spec fn spelled(letters: Seq<char>) -> Seq<Seq<char>>
    decreases letters.len(),
{
    if letters.len() == 0 {
        seq![]
    } else {
        let pair = letters.take(2);
        if letters.len() >= 2 && digraph_symbol(pair) is Some {
            seq![digraph_symbol(pair)->0] + spelled(letters.skip(2))
        } else {
            letter_symbols(letters[0]) + spelled(letters.skip(1))
        }
    }
}

/// The letters of `word`, in upper case.
pub open spec fn letters_of(word: Seq<char>) -> Seq<char> {
    text::ascii_upper(word).filter(|c: char| text::is_letter(c))
}

pub open spec fn by_rule(word: Seq<char>) -> Seq<i32> {
    symbol_indices(spelled(letters_of(word)))
}

proof fn lemma_symbol_indices_add(a: Seq<Seq<char>>, b: Seq<Seq<char>>)
    ensures
        symbol_indices(a + b) == symbol_indices(a) + symbol_indices(b),
    decreases b.len(),
{
    if b.len() == 0 {
        assert(a + b =~= a);
        assert(symbol_indices(a) + symbol_indices(b) =~= symbol_indices(a));
    } else {
        assert((a + b).drop_last() =~= a + b.drop_last());
        lemma_symbol_indices_add(a, b.drop_last());
        match symbol_index(b.last()) {
            Some(idx) => {
                assert((symbol_indices(a) + symbol_indices(b.drop_last())).push(idx)
                    =~= symbol_indices(a) + symbol_indices(b.drop_last()).push(idx));
            },
            None => {},
        }
    }
}

fn letters_in(word: &str) -> (r: Vec<char>)
    ensures
        r@ == letters_of(word@),
{
    let upper = to_ascii_upper(word);
    let ghost keep = |c: char| text::is_letter(c);
    let n: usize = upper.len();
    let mut out: Vec<char> = Vec::new();
    let mut i: usize = 0;
    assert(upper@.take(0).filter(keep) =~= Seq::<char>::empty()) by {
        reveal(Seq::filter);
    }
    while i < n
        invariant
            n == upper@.len(),
            i <= n,
            keep == (|c: char| text::is_letter(c)),
            out@ == upper@.take(i as int).filter(keep),
        decreases n - i,
    {
        proof {
            let upto = upper@.take(i + 1);
            assert(upto.drop_last() =~= upper@.take(i as int));
            reveal(Seq::filter);
        }
        if char_is_letter(upper[i]) {
            out.push(upper[i]);
        }
        i = i + 1;
    }
    assert(upper@.take(n as int) =~= upper@);
    out
}

/// Rule-based letter-to-phoneme conversion for unknown words.
///
/// Produces approximate ARPABET sequences from English spelling.
pub fn rule_based_g2p(word: &str) -> (r: Vec<i32>)
    ensures
        r@ == by_rule(word@),
{
    let letters = letters_in(word);
    let n: usize = letters.len();
    let mut indices: Vec<i32> = Vec::new();
    let mut i: usize = 0;
    assert(letters@.skip(0) =~= letters@);
    assert(indices@ + symbol_indices(spelled(letters@)) =~= symbol_indices(spelled(letters@)));
    while i < n
        invariant
            n == letters@.len(),
            i <= n,
            letters@ == letters_of(word@),
            by_rule(word@) == indices@ + symbol_indices(spelled(letters@.skip(i as int))),
        decreases n - i,
    {
        let ghost rest = letters@.skip(i as int);
        let ghost before = indices@;
        assert(rest[0] == letters@[i as int]);
        assert(rest.skip(1) =~= letters@.skip(i + 1));
        if i + 1 < n {
            let mut digraph = String::new();
            digraph.push(letters[i]);
            digraph.push(letters[i + 1]);
            assert(digraph@ =~= rest.take(2));
            if let Some(symbol) = digraph_to_arpabet(digraph.as_str()) {
                assert(rest.skip(2) =~= letters@.skip(i + 2));
                proof {
                    lemma_symbol_indices_add(seq![symbol@], spelled(rest.skip(2)));
                    assert(seq![symbol@].drop_last() =~= Seq::<Seq<char>>::empty());
                    assert(symbol_indices(seq![symbol@].drop_last()) =~= Seq::<i32>::empty());
                    assert(seq![symbol@].last() == symbol@);
                }
                if let Some(idx) = arpabet_to_idx(symbol) {
                    indices.push(idx);
                }
                assert(indices@ =~= before + symbol_indices(seq![symbol@]));
                i = i + 2;
                assert(before + (symbol_indices(seq![symbol@]) + symbol_indices(
                    spelled(letters@.skip(i as int)),
                )) =~= indices@ + symbol_indices(spelled(letters@.skip(i as int))));
                continue;
            }
        }
        let ch: char = letters[i];
        let mut symbols: Vec<&'static str> = Vec::new();
        if ch == 'X' {
            symbols.push("K");
            symbols.push("S");
        } else if let Some(symbol) = single_char_to_arpabet(ch) {
            symbols.push(symbol);
        }
        assert(literals(symbols@) =~= letter_symbols(ch));
        push_phones(&mut indices, &symbols);
        proof {
            lemma_symbol_indices_add(letter_symbols(ch), spelled(rest.skip(1)));
            assert(before + (symbol_indices(letter_symbols(ch)) + symbol_indices(
                spelled(rest.skip(1)),
            )) =~= indices@ + symbol_indices(spelled(rest.skip(1))));
        }
        i = i + 1;
    }
    assert(letters@.skip(i as int) =~= Seq::<char>::empty());
    assert(symbol_indices(spelled(letters@.skip(i as int))) =~= Seq::<i32>::empty());
    assert(indices@ + Seq::<i32>::empty() =~= indices@);
    indices
}

pub open spec fn possessive_by_rule(word: Seq<char>) -> Option<Seq<i32>> {
    match strip_suffix(text::ascii_upper(word), "'S"@) {
        Some(base) => if byte_len(base) < 2 || by_rule(base).len() == 0 {
            None
        } else {
            Some(by_rule(base) + symbol_indices(seq!["Z"@]))
        },
        None => None,
    }
}

/// If a word ends with `'S` and the base isn't in the dictionary, apply rules
/// to the base and append the possessive phoneme: `JELLYBY'S` → `JELLYBY` + Z.
pub fn try_possessive_g2p(word: &str) -> (r: Option<Vec<i32>>)
    ensures
        opt_view(r) == possessive_by_rule(word@),
{
    let upper = to_ascii_upper(word);
    match without_suffix(&upper, "'S") {
        Some(base) => {
            if !has_bytes(&base, 2) {
                return None;
            }
            let base_text = string_of(base.as_slice());
            let mut indices = rule_based_g2p(base_text.as_str());
            if indices.len() == 0 {
                return None;
            }
            let mut ending: Vec<&'static str> = Vec::new();
            ending.push("Z");
            assert(literals(ending@) =~= seq!["Z"@]);
            push_phones(&mut indices, &ending);
            Some(indices)
        },
        None => None,
    }
}

// ---------------------------------------------------------------------------
// Fallback chain
// ---------------------------------------------------------------------------

/// What a word resolves to, and how: the first stage that gives anything.
pub open spec fn resolved(word: Seq<char>, dict: Entries) -> (Seq<i32>, ResolutionMethod) {
    if looked_up(word, dict) is Some {
        (looked_up(word, dict)->0, ResolutionMethod::Dictionary)
    } else if possessive(word, dict) is Some {
        (possessive(word, dict)->0, ResolutionMethod::Possessive)
    } else if hyphen_split(word, dict) is Some {
        (hyphen_split(word, dict)->0, ResolutionMethod::HyphenSplit)
    } else if suffix_strip(word, dict) is Some {
        (suffix_strip(word, dict)->0, ResolutionMethod::SuffixStrip)
    } else if compound_split(word, dict) is Some {
        (compound_split(word, dict)->0, ResolutionMethod::CompoundSplit)
    } else if chained_affix(word, dict) is Some {
        (chained_affix(word, dict)->0, ResolutionMethod::ChainedAffix)
    } else if possessive_by_rule(word) is Some {
        (possessive_by_rule(word)->0, ResolutionMethod::PossessiveG2p)
    } else {
        (by_rule(word), ResolutionMethod::RuleG2p)
    }
}

/// Try resolving a word through the fallback chain.
/// Always returns at least an approximate result by rule.
pub fn resolve_word(word: &str, dict: &CmuDict) -> (r: (Vec<i32>, ResolutionMethod))
    ensures
        (r.0@, r.1) == resolved(word@, dict@),
{
    if let Some(indices) = dict_lookup_to_indices(word, dict) {
        return (indices, ResolutionMethod::Dictionary);
    }
    if let Some(indices) = try_possessive(word, dict) {
        return (indices, ResolutionMethod::Possessive);
    }
    if let Some(indices) = try_hyphen_split(word, dict) {
        return (indices, ResolutionMethod::HyphenSplit);
    }
    if let Some(indices) = try_suffix_strip(word, dict) {
        return (indices, ResolutionMethod::SuffixStrip);
    }
    if let Some(indices) = try_compound_split(word, dict) {
        return (indices, ResolutionMethod::CompoundSplit);
    }
    if let Some(indices) = try_chained_affix(word, dict) {
        return (indices, ResolutionMethod::ChainedAffix);
    }
    if let Some(indices) = try_possessive_g2p(word) {
        return (indices, ResolutionMethod::PossessiveG2p);
    }
    (rule_based_g2p(word), ResolutionMethod::RuleG2p)
}

// ---------------------------------------------------------------------------
// Transcripts
// ---------------------------------------------------------------------------

/// The characters of a word that count: letters, apostrophes and hyphens.
pub open spec fn is_word_char(c: char) -> bool {
    text::is_letter(c) || c == '\'' || c == '-'
}

pub open spec fn cleaned(word: Seq<char>) -> Seq<char> {
    word.filter(|c: char| is_word_char(c))
}

/// Counts one word that was resolved by `method`.
pub open spec fn count_hit(stats: ResolutionStats, method: ResolutionMethod) -> ResolutionStats {
    match method {
        ResolutionMethod::Dictionary => ResolutionStats {
            dict_hits: (stats.dict_hits + 1) as usize,
            ..stats
        },
        ResolutionMethod::Possessive => ResolutionStats {
            possessive_hits: (stats.possessive_hits + 1) as usize,
            ..stats
        },
        ResolutionMethod::HyphenSplit => ResolutionStats {
            hyphen_hits: (stats.hyphen_hits + 1) as usize,
            ..stats
        },
        ResolutionMethod::SuffixStrip => ResolutionStats {
            suffix_hits: (stats.suffix_hits + 1) as usize,
            ..stats
        },
        ResolutionMethod::CompoundSplit => ResolutionStats {
            compound_hits: (stats.compound_hits + 1) as usize,
            ..stats
        },
        ResolutionMethod::ChainedAffix => ResolutionStats {
            chained_hits: (stats.chained_hits + 1) as usize,
            ..stats
        },
        ResolutionMethod::PossessiveG2p | ResolutionMethod::RuleG2p => ResolutionStats {
            g2p_hits: (stats.g2p_hits + 1) as usize,
            ..stats
        },
    }
}

/// The targets and the statistics after the first words, with one word more: a
/// word with nothing that counts is passed over, one that resolves to nothing
/// is only counted, and silence goes between two words that resolve.
pub open spec fn with_word(
    state: (Seq<i32>, ResolutionStats),
    word: Seq<char>,
    dict: Entries,
) -> (Seq<i32>, ResolutionStats) {
    let (targets, stats) = state;
    let clean = cleaned(word);
    if clean.len() == 0 {
        state
    } else {
        let (indices, method) = resolved(clean, dict);
        let seen = ResolutionStats { total_words: (stats.total_words + 1) as usize, ..stats };
        if indices.len() == 0 {
            (targets, seen)
        } else if targets.len() == 0 {
            (indices, count_hit(seen, method))
        } else {
            (targets.push(SIL_IDX) + indices, count_hit(seen, method))
        }
    }
}

/// The targets and the statistics of the words of a transcript.
pub open spec fn words_targets(words: Seq<Seq<char>>, dict: Entries) -> (
    Seq<i32>,
    ResolutionStats,
)
    decreases words.len(),
{
    if words.len() == 0 {
        (seq![], no_stats())
    } else {
        with_word(words_targets(words.drop_last(), dict), words.last(), dict)
    }
}

fn clean_word(word: &Vec<char>) -> (r: String)
    ensures
        r@ == cleaned(word@),
{
    let ghost keep = |c: char| is_word_char(c);
    let n: usize = word.len();
    let mut out = String::new();
    let mut i: usize = 0;
    assert(word@.take(0).filter(keep) =~= Seq::<char>::empty()) by {
        reveal(Seq::filter);
    }
    while i < n
        invariant
            n == word@.len(),
            i <= n,
            keep == (|c: char| is_word_char(c)),
            out@ == word@.take(i as int).filter(keep),
        decreases n - i,
    {
        proof {
            let upto = word@.take(i + 1);
            assert(upto.drop_last() =~= word@.take(i as int));
            reveal(Seq::filter);
        }
        let c: char = word[i];
        if char_is_letter(c) || c == '\'' || c == '-' {
            out.push(c);
        }
        i = i + 1;
    }
    assert(word@.take(n as int) =~= word@);
    out
}

/// What a transcript resolves to: its targets and statistics, or what is wrong
/// with it.
pub open spec fn transcript_outcome(transcript: Seq<char>, dict: Entries) -> std::result::Result<
    (Seq<i32>, ResolutionStats),
    ErrorView,
> {
    let words = text::runs(transcript, Separator::Whitespace);
    let (targets, stats) = words_targets(words, dict);
    if words.len() == 0 {
        Err(ErrorView::Config("Empty transcript"@))
    } else if targets.len() == 0 {
        Err(ErrorView::Config("No phonemes resolved from transcript"@))
    } else {
        Ok((targets, stats))
    }
}

/// Convert a transcript sentence to CTC target indices, by dictionary and with
/// the fallback chain for the words that it lacks.
///
/// Returns `(targets, stats)` where targets is the phoneme index sequence.
pub fn transcript_to_targets(transcript: &str, dict: &CmuDict) -> (r: Result<
    (Vec<i32>, ResolutionStats),
>)
    ensures
        match r {
            Ok((targets, stats)) => transcript_outcome(transcript@, dict@) == Ok::<
                (Seq<i32>, ResolutionStats),
                ErrorView,
            >((targets@, stats)),
            Err(e) => transcript_outcome(transcript@, dict@) == Err::<
                (Seq<i32>, ResolutionStats),
                ErrorView,
            >(e@),
        },
{
    let words = split_whitespace(transcript);
    let ghost all = text::texts(words@);
    let n: usize = words.len();
    assert(all.len() == n);
    if n == 0 {
        return Err(Error::config("Empty transcript"));
    }
    let mut targets: Vec<i32> = Vec::new();
    let mut stats = ResolutionStats::default();
    let mut i: usize = 0;
    assert(all.take(0) =~= Seq::<Seq<char>>::empty());
    while i < n
        invariant
            n == words@.len(),
            i <= n,
            all == text::texts(words@),
            (targets@, stats) == words_targets(all.take(i as int), dict@),
            stats.hits() <= stats.total_words <= i,
        decreases n - i,
    {
        let ghost upto = all.take(i + 1);
        assert(upto.drop_last() =~= all.take(i as int));
        assert(upto.last() == words@[i as int]@);
        let clean = clean_word(&words[i]);
        i = i + 1;
        if clean.as_str().unicode_len() == 0 {
            continue;
        }
        stats.total_words = stats.total_words + 1;
        let (indices, method) = resolve_word(clean.as_str(), dict);
        if indices.len() == 0 {
            continue;
        }
        let ghost before = targets@;
        if targets.len() > 0 {
            targets.push(SIL_IDX);
        }
        let ghost front = targets@;
        let mut indices = indices;
        let ghost tail = indices@;
        targets.append(&mut indices);
        assert(targets@ =~= front + tail);
        assert(before.len() == 0 ==> targets@ =~= tail);
        match method {
            ResolutionMethod::Dictionary => {
                stats.dict_hits = stats.dict_hits + 1;
            },
            ResolutionMethod::Possessive => {
                stats.possessive_hits = stats.possessive_hits + 1;
            },
            ResolutionMethod::HyphenSplit => {
                stats.hyphen_hits = stats.hyphen_hits + 1;
            },
            ResolutionMethod::SuffixStrip => {
                stats.suffix_hits = stats.suffix_hits + 1;
            },
            ResolutionMethod::CompoundSplit => {
                stats.compound_hits = stats.compound_hits + 1;
            },
            ResolutionMethod::ChainedAffix => {
                stats.chained_hits = stats.chained_hits + 1;
            },
            ResolutionMethod::PossessiveG2p | ResolutionMethod::RuleG2p => {
                stats.g2p_hits = stats.g2p_hits + 1;
            },
        }
    }
    assert(all.take(n as int) =~= all);
    if targets.len() == 0 {
        return Err(Error::config("No phonemes resolved from transcript"));
    }
    Ok((targets, stats))
}

// ---------------------------------------------------------------------------
// Laws
// ---------------------------------------------------------------------------

/// The characters of the ARPABET symbols.
proof fn lemma_symbol_characters()
    ensures
        "AA"@ == seq!['A', 'A'],
        "AE"@ == seq!['A', 'E'],
        "AH"@ == seq!['A', 'H'],
        "AO"@ == seq!['A', 'O'],
        "AW"@ == seq!['A', 'W'],
        "AX"@ == seq!['A', 'X'],
        "AY"@ == seq!['A', 'Y'],
        "B"@ == seq!['B'],
        "CH"@ == seq!['C', 'H'],
        "D"@ == seq!['D'],
        "DH"@ == seq!['D', 'H'],
        "EH"@ == seq!['E', 'H'],
        "ER"@ == seq!['E', 'R'],
        "EY"@ == seq!['E', 'Y'],
        "F"@ == seq!['F'],
        "G"@ == seq!['G'],
        "HH"@ == seq!['H', 'H'],
        "IH"@ == seq!['I', 'H'],
        "IY"@ == seq!['I', 'Y'],
        "JH"@ == seq!['J', 'H'],
        "K"@ == seq!['K'],
        "L"@ == seq!['L'],
        "M"@ == seq!['M'],
        "N"@ == seq!['N'],
        "NG"@ == seq!['N', 'G'],
        "OW"@ == seq!['O', 'W'],
        "OY"@ == seq!['O', 'Y'],
        "P"@ == seq!['P'],
        "R"@ == seq!['R'],
        "S"@ == seq!['S'],
        "SH"@ == seq!['S', 'H'],
        "T"@ == seq!['T'],
        "TH"@ == seq!['T', 'H'],
        "UH"@ == seq!['U', 'H'],
        "UW"@ == seq!['U', 'W'],
        "V"@ == seq!['V'],
        "W"@ == seq!['W'],
        "Y"@ == seq!['Y'],
        "Z"@ == seq!['Z'],
        "ZH"@ == seq!['Z', 'H'],
{
    reveal_strlit("AA"); reveal_strlit("AE"); reveal_strlit("AH"); reveal_strlit("AO");
    reveal_strlit("AW"); reveal_strlit("AX"); reveal_strlit("AY"); reveal_strlit("B");
    reveal_strlit("CH"); reveal_strlit("D"); reveal_strlit("DH"); reveal_strlit("EH");
    reveal_strlit("ER"); reveal_strlit("EY"); reveal_strlit("F"); reveal_strlit("G");
    reveal_strlit("HH"); reveal_strlit("IH"); reveal_strlit("IY"); reveal_strlit("JH");
    reveal_strlit("K"); reveal_strlit("L"); reveal_strlit("M"); reveal_strlit("N");
    reveal_strlit("NG"); reveal_strlit("OW"); reveal_strlit("OY"); reveal_strlit("P");
    reveal_strlit("R"); reveal_strlit("S"); reveal_strlit("SH"); reveal_strlit("T");
    reveal_strlit("TH"); reveal_strlit("UH"); reveal_strlit("UW"); reveal_strlit("V");
    reveal_strlit("W"); reveal_strlit("Y"); reveal_strlit("Z"); reveal_strlit("ZH");
}

/// The characters of the IPA symbols that the dictionary holds.
proof fn lemma_ipa_characters()
    ensures
        "ɑ"@ == seq!['ɑ'],
        "æ"@ == seq!['æ'],
        "ʌ"@ == seq!['ʌ'],
        "ɔ"@ == seq!['ɔ'],
        "aʊ"@ == seq!['a', 'ʊ'],
        "ə"@ == seq!['ə'],
        "aɪ"@ == seq!['a', 'ɪ'],
        "ɛ"@ == seq!['ɛ'],
        "ɜr"@ == seq!['ɜ', 'r'],
        "eɪ"@ == seq!['e', 'ɪ'],
        "ɪ"@ == seq!['ɪ'],
        "i"@ == seq!['i'],
        "oʊ"@ == seq!['o', 'ʊ'],
        "ɔɪ"@ == seq!['ɔ', 'ɪ'],
        "ʊ"@ == seq!['ʊ'],
        "u"@ == seq!['u'],
        "b"@ == seq!['b'],
        "tʃ"@ == seq!['t', 'ʃ'],
        "d"@ == seq!['d'],
        "ð"@ == seq!['ð'],
        "f"@ == seq!['f'],
        "g"@ == seq!['g'],
        "h"@ == seq!['h'],
        "dʒ"@ == seq!['d', 'ʒ'],
        "k"@ == seq!['k'],
        "l"@ == seq!['l'],
        "m"@ == seq!['m'],
        "n"@ == seq!['n'],
        "ŋ"@ == seq!['ŋ'],
        "p"@ == seq!['p'],
        "r"@ == seq!['r'],
        "s"@ == seq!['s'],
        "ʃ"@ == seq!['ʃ'],
        "t"@ == seq!['t'],
        "θ"@ == seq!['θ'],
        "v"@ == seq!['v'],
        "w"@ == seq!['w'],
        "j"@ == seq!['j'],
        "z"@ == seq!['z'],
        "ʒ"@ == seq!['ʒ'],
        "iː"@ == seq!['i', 'ː'],
        "uː"@ == seq!['u', 'ː'],
{
    reveal_strlit("ɑ"); reveal_strlit("æ"); reveal_strlit("ʌ"); reveal_strlit("ɔ");
    reveal_strlit("aʊ"); reveal_strlit("ə"); reveal_strlit("aɪ"); reveal_strlit("ɛ");
    reveal_strlit("ɜr"); reveal_strlit("eɪ"); reveal_strlit("ɪ"); reveal_strlit("i");
    reveal_strlit("oʊ"); reveal_strlit("ɔɪ"); reveal_strlit("ʊ"); reveal_strlit("u");
    reveal_strlit("b"); reveal_strlit("tʃ"); reveal_strlit("d"); reveal_strlit("ð");
    reveal_strlit("f"); reveal_strlit("g"); reveal_strlit("h"); reveal_strlit("dʒ");
    reveal_strlit("k"); reveal_strlit("l"); reveal_strlit("m"); reveal_strlit("n");
    reveal_strlit("ŋ"); reveal_strlit("p"); reveal_strlit("r"); reveal_strlit("s");
    reveal_strlit("ʃ"); reveal_strlit("t"); reveal_strlit("θ"); reveal_strlit("v");
    reveal_strlit("w"); reveal_strlit("j"); reveal_strlit("z"); reveal_strlit("ʒ");
    reveal_strlit("iː"); reveal_strlit("uː");
}

/// A number that tells short texts apart.
#[verifier::opaque]
spec fn code(s: Seq<char>) -> int
    decreases s.len(),
{
    if s.len() == 0 {
        0
    } else {
        code(s.drop_last()) * 0x110000 + s.last() as int + 1
    }
}

proof fn lemma_code_of1(s: Seq<char>)
    requires
        s.len() == 1,
    ensures
        code(s) == s[0] as int + 1,
{
    reveal_with_fuel(code, 2);
}

proof fn lemma_code_of2(s: Seq<char>)
    requires
        s.len() == 2,
    ensures
        code(s) == (s[0] as int + 1) * 0x110000 + s[1] as int + 1,
{
    reveal_with_fuel(code, 3);
    assert(s.drop_last().last() == s[0]);
}

proof fn lemma_arpabet_codes()
    ensures
        code("AA"@) == 73531458,
        code("AE"@) == 73531462,
        code("AH"@) == 73531465,
        code("AO"@) == 73531472,
        code("AW"@) == 73531480,
        code("AX"@) == 73531481,
        code("AY"@) == 73531482,
        code("B"@) == 67,
        code("CH"@) == 75759689,
        code("D"@) == 69,
        code("DH"@) == 76873801,
        code("EH"@) == 77987913,
        code("ER"@) == 77987923,
        code("EY"@) == 77987930,
        code("F"@) == 71,
        code("G"@) == 72,
        code("HH"@) == 81330249,
        code("IH"@) == 82444361,
        code("IY"@) == 82444378,
        code("JH"@) == 83558473,
        code("K"@) == 76,
        code("L"@) == 77,
        code("M"@) == 78,
        code("N"@) == 79,
        code("NG"@) == 88014920,
        code("OW"@) == 89129048,
        code("OY"@) == 89129050,
        code("P"@) == 81,
        code("R"@) == 83,
        code("S"@) == 84,
        code("SH"@) == 93585481,
        code("T"@) == 85,
        code("TH"@) == 94699593,
        code("UH"@) == 95813705,
        code("UW"@) == 95813720,
        code("V"@) == 87,
        code("W"@) == 88,
        code("Y"@) == 90,
        code("Z"@) == 91,
        code("ZH"@) == 101384265,
{
    lemma_symbol_characters();
    lemma_code_of2("AA"@); lemma_code_of2("AE"@); lemma_code_of2("AH"@); lemma_code_of2("AO"@);
    lemma_code_of2("AW"@); lemma_code_of2("AX"@); lemma_code_of2("AY"@); lemma_code_of1("B"@);
    lemma_code_of2("CH"@); lemma_code_of1("D"@); lemma_code_of2("DH"@); lemma_code_of2("EH"@);
    lemma_code_of2("ER"@); lemma_code_of2("EY"@); lemma_code_of1("F"@); lemma_code_of1("G"@);
    lemma_code_of2("HH"@); lemma_code_of2("IH"@); lemma_code_of2("IY"@); lemma_code_of2("JH"@);
    lemma_code_of1("K"@); lemma_code_of1("L"@); lemma_code_of1("M"@); lemma_code_of1("N"@);
    lemma_code_of2("NG"@); lemma_code_of2("OW"@); lemma_code_of2("OY"@); lemma_code_of1("P"@);
    lemma_code_of1("R"@); lemma_code_of1("S"@); lemma_code_of2("SH"@); lemma_code_of1("T"@);
    lemma_code_of2("TH"@); lemma_code_of2("UH"@); lemma_code_of2("UW"@); lemma_code_of1("V"@);
    lemma_code_of1("W"@); lemma_code_of1("Y"@); lemma_code_of1("Z"@); lemma_code_of2("ZH"@);
}

proof fn lemma_ipa_codes()
    ensures
        code("ɑ"@) == 594,
        code("æ"@) == 231,
        code("ʌ"@) == 653,
        code("ɔ"@) == 597,
        code("aʊ"@) == 109183627,
        code("ə"@) == 602,
        code("aɪ"@) == 109183595,
        code("ɛ"@) == 604,
        code("ɜr"@) == 674037875,
        code("eɪ"@) == 113640043,
        code("ɪ"@) == 619,
        code("i"@) == 106,
        code("oʊ"@) == 124781195,
        code("ɔɪ"@) == 665125483,
        code("ʊ"@) == 651,
        code("u"@) == 118,
        code("b"@) == 99,
        code("tʃ"@) == 130351748,
        code("d"@) == 101,
        code("ð"@) == 241,
        code("f"@) == 103,
        code("g"@) == 104,
        code("h"@) == 105,
        code("dʒ"@) == 112525971,
        code("k"@) == 108,
        code("l"@) == 109,
        code("m"@) == 110,
        code("n"@) == 111,
        code("ŋ"@) == 332,
        code("p"@) == 113,
        code("r"@) == 115,
        code("s"@) == 116,
        code("ʃ"@) == 644,
        code("t"@) == 117,
        code("θ"@) == 953,
        code("v"@) == 119,
        code("w"@) == 120,
        code("j"@) == 107,
        code("z"@) == 123,
        code("ʒ"@) == 659,
        code("iː"@) == 118096593,
        code("uː"@) == 131465937,
{
    lemma_ipa_characters();
    lemma_code_of1("ɑ"@); lemma_code_of1("æ"@); lemma_code_of1("ʌ"@); lemma_code_of1("ɔ"@);
    lemma_code_of2("aʊ"@); lemma_code_of1("ə"@); lemma_code_of2("aɪ"@); lemma_code_of1("ɛ"@);
    lemma_code_of2("ɜr"@); lemma_code_of2("eɪ"@); lemma_code_of1("ɪ"@); lemma_code_of1("i"@);
    lemma_code_of2("oʊ"@); lemma_code_of2("ɔɪ"@); lemma_code_of1("ʊ"@); lemma_code_of1("u"@);
    lemma_code_of1("b"@); lemma_code_of2("tʃ"@); lemma_code_of1("d"@); lemma_code_of1("ð"@);
    lemma_code_of1("f"@); lemma_code_of1("g"@); lemma_code_of1("h"@); lemma_code_of2("dʒ"@);
    lemma_code_of1("k"@); lemma_code_of1("l"@); lemma_code_of1("m"@); lemma_code_of1("n"@);
    lemma_code_of1("ŋ"@); lemma_code_of1("p"@); lemma_code_of1("r"@); lemma_code_of1("s"@);
    lemma_code_of1("ʃ"@); lemma_code_of1("t"@); lemma_code_of1("θ"@); lemma_code_of1("v"@);
    lemma_code_of1("w"@); lemma_code_of1("j"@); lemma_code_of1("z"@); lemma_code_of1("ʒ"@);
    lemma_code_of2("iː"@); lemma_code_of2("uː"@);
}

/// No ARPABET symbol ends in a stress mark.
proof fn lemma_inventory_is_stress_free(i: int)
    requires
        0 <= i < 40,
    ensures
        arpabet::without_stress(inventory()[i]) == inventory()[i],
        inventory()[i].len() > 0,
{
    lemma_symbol_characters();
}

proof fn lemma_inventory_step(i: int)
    requires
        0 <= i < 39,
    ensures
        text::before(inventory()[i], inventory()[i + 1]),
{
    lemma_symbol_characters();
    reveal_with_fuel(text::before, 3);
}

/// The inventory is in alphabetical order, and so without repetition.
pub proof fn law_inventory_is_alphabetical(i: int, j: int)
    requires
        0 <= i < j < inventory().len(),
    ensures
        text::before(inventory()[i], inventory()[j]),
        inventory()[i] != inventory()[j],
    decreases j - i,
{
    lemma_inventory_step(j - 1);
    text::lemma_before_is_strict(inventory()[i], inventory()[j - 1], inventory()[j]);
    if i < j - 1 {
        law_inventory_is_alphabetical(i, j - 1);
    }
}

/// There are 40 symbols, and the index of each is one more than its place.
pub proof fn law_symbol_index_is_place(i: int)
    requires
        0 <= i < inventory().len(),
    ensures
        inventory().len() == 40,
        symbol_index(inventory()[i]) == Some((i + 1) as i32),
{
    lemma_inventory_is_stress_free(i);
    let symbol = inventory()[i];
    inventory().index_of_first_ensures(symbol);
    let place = inventory().index_of_first(symbol)->0;
    if place < i {
        law_inventory_is_alphabetical(place, i);
    }
}

/// A stress mark does not change the index of a symbol.
pub proof fn law_stress_does_not_matter(i: int, mark: char)
    requires
        0 <= i < inventory().len(),
        arpabet::is_stress_mark(mark),
    ensures
        symbol_index(inventory()[i].push(mark)) == symbol_index(inventory()[i]),
{
    lemma_inventory_is_stress_free(i);
    assert(inventory()[i].push(mark).drop_last() =~= inventory()[i]);
}

/// An index is never blank and never silence.
pub proof fn law_symbol_index_in_range(symbol: Seq<char>)
    ensures
        symbol_index(symbol) matches Some(idx) ==> 1 <= idx <= 40,
{
    inventory().index_of_first_ensures(arpabet::without_stress(symbol));
}

/// A symbol keeps its index on its way through the dictionary, where it is
/// held as an IPA phoneme.
#[verifier::rlimit(50)]
pub proof fn law_dictionary_keeps_index(i: int)
    requires
        0 <= i < inventory().len(),
    ensures
        ipa_index(cmudict::sound_of(inventory()[i]).ipa()) == symbol_index(inventory()[i]),
{
    lemma_arpabet_codes();
    lemma_ipa_codes();
    lemma_ipa_not_empty(i);
    lemma_inventory_is_stress_free(i);
}

proof fn lemma_ipa_not_empty(i: int)
    requires
        0 <= i < 40,
    ensures
        arpabet::ipa_of(inventory()[i]).len() > 0,
{
    lemma_arpabet_codes();
    lemma_ipa_characters();
}

/// Whether all of `s` are ARPABET indices.
pub open spec fn all_phonemes(s: Seq<i32>) -> bool {
    forall|i: int| 0 <= i < s.len() ==> 1 <= #[trigger] s[i] <= 40
}

/// Phonemes with silence only in between: the ends are phonemes, and no two
/// silences follow each other.
pub open spec fn well_spaced(s: Seq<i32>) -> bool {
    &&& s.len() > 0
    &&& forall|i: int| 0 <= i < s.len() ==> 1 <= #[trigger] s[i] <= SIL_IDX
    &&& s[0] != SIL_IDX
    &&& s.last() != SIL_IDX
    &&& forall|i: int| 0 < i < s.len() ==> !(#[trigger] s[i] == SIL_IDX && s[i - 1] == SIL_IDX)
}

proof fn lemma_symbol_indices_are_phonemes(symbols: Seq<Seq<char>>)
    ensures
        all_phonemes(symbol_indices(symbols)),
    decreases symbols.len(),
{
    if symbols.len() > 0 {
        lemma_symbol_indices_are_phonemes(symbols.drop_last());
        law_symbol_index_in_range(symbols.last());
    }
}

proof fn lemma_phoneme_indices_are_phonemes(phonemes: Seq<PhonemeView>)
    ensures
        all_phonemes(phoneme_indices(phonemes)),
    decreases phonemes.len(),
{
    if phonemes.len() > 0 {
        lemma_phoneme_indices_are_phonemes(phonemes.drop_last());
        match dictionary_symbol(phonemes.last().ipa()) {
            Some(symbol) => law_symbol_index_in_range(symbol),
            None => {},
        }
    }
}

/// What the dictionary gives for a word holds phonemes alone, at least one.
pub proof fn law_lookup_gives_phonemes(word: Seq<char>, dict: Entries)
    ensures
        looked_up(word, dict) matches Some(s) ==> all_phonemes(s) && s.len() > 0,
{
    match cmudict::pronunciation_in(dict, word) {
        Some(phonemes) => lemma_phoneme_indices_are_phonemes(phonemes),
        None => {},
    }
}

proof fn lemma_spaced_by_affix(a: Seq<i32>, b: Seq<i32>)
    requires
        all_phonemes(a),
        all_phonemes(b),
        a.len() > 0 || b.len() > 0,
    ensures
        well_spaced(a + b),
{
    assert forall|i: int| 0 <= i < (a + b).len() implies 1 <= #[trigger] (a + b)[i] <= 40 by {
        if i < a.len() {
            assert((a + b)[i] == a[i]);
        } else {
            assert((a + b)[i] == b[i - a.len()]);
        }
    }
}

proof fn lemma_spaced_by_silence(a: Seq<i32>, b: Seq<i32>)
    requires
        well_spaced(a),
        well_spaced(b),
    ensures
        well_spaced(a.push(SIL_IDX) + b),
{
    let s = a.push(SIL_IDX) + b;
    let k = a.len() as int;
    assert(s.last() == b.last());
    assert(s[0] == a[0]);
    assert forall|i: int| 0 <= i < s.len() implies 1 <= #[trigger] s[i] <= SIL_IDX by {
        if i < k {
            assert(s[i] == a[i]);
        } else if i > k {
            assert(s[i] == b[i - k - 1]);
        }
    }
    assert forall|i: int| 0 < i < s.len() implies !(#[trigger] s[i] == SIL_IDX && s[i - 1]
        == SIL_IDX) by {
        if i < k {
            assert(s[i] == a[i] && s[i - 1] == a[i - 1]);
        } else if i == k {
            assert(s[i - 1] == a.last());
        } else if i == k + 1 {
            assert(s[i] == b[0]);
        } else {
            assert(s[i] == b[i - k - 1] && s[i - 1] == b[i - k - 2]);
        }
    }
}

proof fn lemma_base_form_gives_phonemes(base: Seq<char>, dict: Entries)
    ensures
        base_form(base, dict) matches Some(s) ==> all_phonemes(s) && s.len() > 0,
{
    law_lookup_gives_phonemes(base, dict);
    law_lookup_gives_phonemes(base.push('E'), dict);
    law_lookup_gives_phonemes(base.drop_last().push('Y'), dict);
}

proof fn lemma_phonemes_join(a: Seq<i32>, b: Seq<i32>)
    requires
        all_phonemes(a),
        all_phonemes(b),
    ensures
        all_phonemes(a + b),
{
    assert forall|i: int| 0 <= i < (a + b).len() implies 1 <= #[trigger] (a + b)[i] <= 40 by {
        if i < a.len() {
            assert((a + b)[i] == a[i]);
        } else {
            assert((a + b)[i] == b[i - a.len()]);
        }
    }
}

proof fn lemma_affixes_give_phonemes(
    upper: Seq<char>,
    dict: Entries,
    rule: (Seq<char>, Seq<Seq<char>>),
)
    ensures
        possessive_by(upper, dict, rule) matches Some(s) ==> all_phonemes(s) && s.len() > 0,
        suffix_by(upper, dict, rule) matches Some(s) ==> all_phonemes(s) && s.len() > 0,
        prefix_by(upper, dict, rule) matches Some(s) ==> all_phonemes(s) && s.len() > 0,
{
    lemma_symbol_indices_are_phonemes(rule.1);
    let phones = symbol_indices(rule.1);
    match strip_suffix(upper, rule.0) {
        Some(base) => {
            law_lookup_gives_phonemes(base, dict);
            lemma_base_form_gives_phonemes(base, dict);
            if looked_up(base, dict) is Some {
                lemma_phonemes_join(looked_up(base, dict)->0, phones);
            }
            if base_form(base, dict) is Some {
                lemma_phonemes_join(base_form(base, dict)->0, phones);
            }
        },
        None => {},
    }
    match strip_prefix(upper, rule.0) {
        Some(base) => {
            law_lookup_gives_phonemes(base, dict);
            if looked_up(base, dict) is Some {
                lemma_phonemes_join(phones, looked_up(base, dict)->0);
            }
        },
        None => {},
    }
}

/// What the first fitting rule gives is what some rule gives.
proof fn lemma_first_some_is_some<A, B>(rules: Seq<A>, gives: spec_fn(A) -> Option<B>)
    ensures
        first_some(rules, gives) is Some ==> exists|i: int|
            0 <= i < rules.len() && first_some(rules, gives) == gives(#[trigger] rules[i]),
    decreases rules.len(),
{
    if rules.len() > 0 {
        if gives(rules[0]) is None {
            let rest = rules.drop_first();
            lemma_first_some_is_some(rest, gives);
            if first_some(rules, gives) is Some {
                let i = choose|i: int|
                    0 <= i < rest.len() && first_some(rest, gives) == gives(#[trigger] rest[i]);
                assert(rules[i + 1] == rest[i]);
            }
        }
    }
}

proof fn lemma_phonemes_are_well_spaced(s: Seq<i32>)
    requires
        all_phonemes(s),
        s.len() > 0,
    ensures
        well_spaced(s),
{
}

proof fn lemma_suffixes_give_phonemes(upper: Seq<char>, dict: Entries)
    ensures
        by_suffixes(upper, dict) matches Some(s) ==> all_phonemes(s) && s.len() > 0,
{
    let gives = |rule: (Seq<char>, Seq<Seq<char>>)| suffix_by(upper, dict, rule);
    lemma_first_some_is_some(suffix_rules(), gives);
    if by_suffixes(upper, dict) is Some {
        let i = choose|i: int|
            0 <= i < suffix_rules().len() && first_some(suffix_rules(), gives) == gives(
                #[trigger] suffix_rules()[i],
            );
        lemma_affixes_give_phonemes(upper, dict, suffix_rules()[i]);
    }
}

proof fn lemma_prefixes_give_phonemes(upper: Seq<char>, dict: Entries)
    ensures
        by_prefixes(upper, dict) matches Some(s) ==> all_phonemes(s) && s.len() > 0,
{
    let gives = |rule: (Seq<char>, Seq<Seq<char>>)| prefix_by(upper, dict, rule);
    lemma_first_some_is_some(prefix_rules(), gives);
    if by_prefixes(upper, dict) is Some {
        let i = choose|i: int|
            0 <= i < prefix_rules().len() && first_some(prefix_rules(), gives) == gives(
                #[trigger] prefix_rules()[i],
            );
        lemma_affixes_give_phonemes(upper, dict, prefix_rules()[i]);
    }
}

proof fn lemma_possessive_gives_phonemes(word: Seq<char>, dict: Entries)
    ensures
        possessive(word, dict) matches Some(s) ==> all_phonemes(s) && s.len() > 0,
{
    let upper = text::ascii_upper(word);
    let gives = |rule: (Seq<char>, Seq<Seq<char>>)| possessive_by(upper, dict, rule);
    lemma_first_some_is_some(possessive_rules(), gives);
    if possessive(word, dict) is Some {
        let i = choose|i: int|
            0 <= i < possessive_rules().len() && first_some(possessive_rules(), gives) == gives(
                #[trigger] possessive_rules()[i],
            );
        lemma_affixes_give_phonemes(upper, dict, possessive_rules()[i]);
    }
}

proof fn lemma_chain_gives_phonemes(word: Seq<char>, dict: Entries)
    ensures
        chained_affix(word, dict) matches Some(s) ==> all_phonemes(s) && s.len() > 0,
{
    let upper = text::ascii_upper(word);
    let gives = |rule: (Seq<char>, Seq<Seq<char>>)| chained_after(upper, dict, rule);
    lemma_first_some_is_some(prefix_rules(), gives);
    if chained_affix(word, dict) is Some {
        let i = choose|i: int|
            0 <= i < prefix_rules().len() && first_some(prefix_rules(), gives) == gives(
                #[trigger] prefix_rules()[i],
            );
        let prefix = prefix_rules()[i];
        let rest = strip_prefix(upper, prefix.0)->0;
        lemma_chain_is_prefixed(suffix_rules(), rest, dict, prefix.1);
        lemma_suffixes_give_phonemes(rest, dict);
        lemma_symbol_indices_are_phonemes(prefix.1);
        if by_suffixes(rest, dict) is Some {
            lemma_phonemes_join(symbol_indices(prefix.1), by_suffixes(rest, dict)->0);
        }
    }
}

proof fn lemma_joined_is_well_spaced(parts: Seq<Seq<char>>, dict: Entries)
    requires
        parts.len() > 0,
    ensures
        joined(parts, dict) matches Some(s) ==> well_spaced(s),
    decreases parts.len(),
{
    law_lookup_gives_phonemes(parts.last(), dict);
    if looked_up(parts.last(), dict) is Some {
        lemma_phonemes_are_well_spaced(looked_up(parts.last(), dict)->0);
        if parts.len() > 1 {
            lemma_joined_is_well_spaced(parts.drop_last(), dict);
            if joined(parts.drop_last(), dict) is Some {
                lemma_spaced_by_silence(
                    joined(parts.drop_last(), dict)->0,
                    looked_up(parts.last(), dict)->0,
                );
            }
        }
    }
}

proof fn lemma_split_is_well_spaced(upper: Seq<char>, dict: Entries, at: int)
    ensures
        first_split(upper, dict, at) matches Some(s) ==> well_spaced(s),
    decreases upper.len() - at,
{
    if at <= upper.len() - 3 {
        law_lookup_gives_phonemes(upper.take(at), dict);
        law_lookup_gives_phonemes(upper.skip(at), dict);
        if split_at(upper, dict, at) is Some {
            lemma_phonemes_are_well_spaced(looked_up(upper.take(at), dict)->0);
            lemma_phonemes_are_well_spaced(looked_up(upper.skip(at), dict)->0);
            lemma_spaced_by_silence(
                looked_up(upper.take(at), dict)->0,
                looked_up(upper.skip(at), dict)->0,
            );
        } else {
            lemma_split_is_well_spaced(upper, dict, at + 1);
        }
    }
}

/// A word resolves to nothing, or to phonemes with silence only in between
/// them.
pub proof fn law_resolved_is_well_spaced(word: Seq<char>, dict: Entries)
    ensures
        resolved(word, dict).0.len() > 0 ==> well_spaced(resolved(word, dict).0),
{
    law_lookup_gives_phonemes(word, dict);
    lemma_possessive_gives_phonemes(word, dict);
    if hyphen_split(word, dict) is Some {
        lemma_joined_is_well_spaced(text::runs(word, Separator::Mark('-')), dict);
    }
    lemma_suffixes_give_phonemes(text::ascii_upper(word), dict);
    lemma_prefixes_give_phonemes(text::ascii_upper(word), dict);
    lemma_split_is_well_spaced(text::ascii_upper(word), dict, 3);
    lemma_chain_gives_phonemes(word, dict);
    lemma_symbol_indices_are_phonemes(spelled(letters_of(word)));
    if possessive_by_rule(word) is Some {
        let base = strip_suffix(text::ascii_upper(word), "'S"@)->0;
        lemma_symbol_indices_are_phonemes(spelled(letters_of(base)));
        lemma_symbol_indices_are_phonemes(seq!["Z"@]);
        lemma_spaced_by_affix(by_rule(base), symbol_indices(seq!["Z"@]));
    }
}

/// The targets of a transcript are indices from 1 to 41, start and end with a
/// phoneme, and never hold two silences in a row; none of them is blank.
pub proof fn law_targets_are_well_spaced(words: Seq<Seq<char>>, dict: Entries)
    ensures
        words_targets(words, dict).0.len() > 0 ==> well_spaced(words_targets(words, dict).0),
    decreases words.len(),
{
    if words.len() > 0 {
        law_targets_are_well_spaced(words.drop_last(), dict);
        let clean = cleaned(words.last());
        law_resolved_is_well_spaced(clean, dict);
        let before = words_targets(words.drop_last(), dict).0;
        let indices = resolved(clean, dict).0;
        if before.len() > 0 && indices.len() > 0 {
            lemma_spaced_by_silence(before, indices);
        }
    }
}

/// Each letter, and each pair of letters that is read as one, has a symbol of
/// the inventory.
proof fn lemma_letters_have_symbols(letters: Seq<char>)
    requires
        letters.len() > 0,
        forall|i: int| 0 <= i < letters.len() ==> text::is_upper_letter(#[trigger] letters[i]),
    ensures
        spelled(letters).len() > 0,
        exists|i: int| 0 <= i < 40 && spelled(letters)[0] == #[trigger] inventory()[i],
{
    let pair = letters.take(2);
    assert(text::is_upper_letter(letters[0]));
    let first = if letters.len() >= 2 && digraph_symbol(pair) is Some {
        digraph_symbol(pair)->0
    } else {
        letter_symbols(letters[0])[0]
    };
    if letters.len() >= 2 && digraph_symbol(pair) is Some {
        assert(spelled(letters) =~= seq![first] + spelled(letters.skip(2)));
    } else {
        assert(letter_symbols(letters[0]).len() > 0);
        assert(spelled(letters) =~= letter_symbols(letters[0]) + spelled(letters.skip(1)));
    }
    assert(spelled(letters)[0] == first);
    assert(exists|i: int| 0 <= i < 40 && first == #[trigger] inventory()[i]) by {
        assert(inventory()[0] == "AA"@);
        assert(inventory()[1] == "AE"@);
        assert(inventory()[2] == "AH"@);
        assert(inventory()[3] == "AO"@);
        assert(inventory()[4] == "AW"@);
        assert(inventory()[7] == "B"@);
        assert(inventory()[8] == "CH"@);
        assert(inventory()[9] == "D"@);
        assert(inventory()[11] == "EH"@);
        assert(inventory()[13] == "EY"@);
        assert(inventory()[14] == "F"@);
        assert(inventory()[15] == "G"@);
        assert(inventory()[16] == "HH"@);
        assert(inventory()[17] == "IH"@);
        assert(inventory()[18] == "IY"@);
        assert(inventory()[19] == "JH"@);
        assert(inventory()[20] == "K"@);
        assert(inventory()[21] == "L"@);
        assert(inventory()[22] == "M"@);
        assert(inventory()[23] == "N"@);
        assert(inventory()[24] == "NG"@);
        assert(inventory()[25] == "OW"@);
        assert(inventory()[26] == "OY"@);
        assert(inventory()[27] == "P"@);
        assert(inventory()[28] == "R"@);
        assert(inventory()[29] == "S"@);
        assert(inventory()[30] == "SH"@);
        assert(inventory()[31] == "T"@);
        assert(inventory()[32] == "TH"@);
        assert(inventory()[34] == "UW"@);
        assert(inventory()[35] == "V"@);
        assert(inventory()[36] == "W"@);
        assert(inventory()[38] == "Z"@);
    }
}

proof fn lemma_first_symbol_gives_index(symbols: Seq<Seq<char>>)
    requires
        symbols.len() > 0,
        exists|i: int| 0 <= i < 40 && symbols[0] == #[trigger] inventory()[i],
    ensures
        symbol_indices(symbols).len() > 0,
{
    let i = choose|i: int| 0 <= i < 40 && symbols[0] == #[trigger] inventory()[i];
    law_symbol_index_is_place(i);
    let head = seq![symbols[0]];
    assert(symbols =~= head + symbols.drop_first());
    lemma_symbol_indices_add(head, symbols.drop_first());
    assert(head.last() == symbols[0]);
}

proof fn lemma_letters_of_are_upper(word: Seq<char>)
    ensures
        forall|i: int|
            0 <= i < letters_of(word).len() ==> text::is_upper_letter(
                #[trigger] letters_of(word)[i],
            ),
        (exists|i: int| 0 <= i < word.len() && text::is_letter(#[trigger] word[i]))
            ==> letters_of(word).len() > 0,
{
    let upper = text::ascii_upper(word);
    let keep = |c: char| text::is_letter(c);
    assert forall|i: int| 0 <= i < letters_of(word).len() implies text::is_upper_letter(
        #[trigger] letters_of(word)[i],
    ) by {
        upper.lemma_filter_pred(keep, i);
        lemma_filter_keeps_origin(upper, keep, i);
        let j = choose|j: int| 0 <= j < upper.len() && upper.filter(keep)[i] == #[trigger] upper[j];
        assert(upper[j] == text::upper_char(word[j]));
    }
    if exists|i: int| 0 <= i < word.len() && text::is_letter(#[trigger] word[i]) {
        let i = choose|i: int| 0 <= i < word.len() && text::is_letter(#[trigger] word[i]);
        assert(upper[i] == text::upper_char(word[i]));
        assert(text::is_letter(upper[i]));
        upper.lemma_filter_contains(keep, i);
        assert(upper.filter(keep).contains(upper[i]));
    }
}

proof fn lemma_filter_keeps_origin<A>(s: Seq<A>, keep: spec_fn(A) -> bool, i: int)
    requires
        0 <= i < s.filter(keep).len(),
    ensures
        exists|j: int| 0 <= j < s.len() && s.filter(keep)[i] == #[trigger] s[j],
    decreases s.len(),
{
    reveal(Seq::filter);
    if s.len() > 0 {
        let before = s.drop_last().filter(keep);
        if i < before.len() {
            lemma_filter_keeps_origin(s.drop_last(), keep, i);
            let j = choose|j: int|
                0 <= j < s.drop_last().len() && before[i] == #[trigger] s.drop_last()[j];
            assert(s[j] == s.drop_last()[j]);
        } else {
            assert(s.filter(keep)[i] == s[s.len() - 1]);
        }
    }
}

/// A word with a letter in it always resolves to something.
pub proof fn law_letters_resolve(word: Seq<char>, dict: Entries)
    requires
        exists|i: int| 0 <= i < word.len() && text::is_letter(#[trigger] word[i]),
    ensures
        resolved(word, dict).0.len() > 0,
{
    law_lookup_gives_phonemes(word, dict);
    lemma_possessive_gives_phonemes(word, dict);
    if hyphen_split(word, dict) is Some {
        lemma_joined_is_well_spaced(text::runs(word, Separator::Mark('-')), dict);
    }
    lemma_suffixes_give_phonemes(text::ascii_upper(word), dict);
    lemma_prefixes_give_phonemes(text::ascii_upper(word), dict);
    lemma_split_is_well_spaced(text::ascii_upper(word), dict, 3);
    lemma_chain_gives_phonemes(word, dict);
    lemma_letters_of_are_upper(word);
    lemma_letters_have_symbols(letters_of(word));
    lemma_first_symbol_gives_index(spelled(letters_of(word)));
}

/// A transcript with a letter in any of its words has targets.
pub proof fn law_transcript_with_letter_has_targets(
    words: Seq<Seq<char>>,
    dict: Entries,
    at: int,
    letter: int,
)
    requires
        0 <= at < words.len(),
        0 <= letter < words[at].len(),
        text::is_letter(words[at][letter]),
    ensures
        words_targets(words, dict).0.len() > 0,
    decreases words.len(),
{
    if at == words.len() - 1 {
        let word = words.last();
        let keep = |c: char| is_word_char(c);
        assert(is_word_char(word[letter]));
        word.lemma_filter_contains(keep, letter);
        let clean = cleaned(word);
        assert(clean.contains(word[letter]));
        let j = choose|j: int| 0 <= j < clean.len() && clean[j] == word[letter];
        assert(text::is_letter(clean[j]));
        law_letters_resolve(clean, dict);
    } else {
        law_transcript_with_letter_has_targets(words.drop_last(), dict, at, letter);
    }
}

/// No word is counted as resolved twice, and none that was not seen.
pub proof fn law_hits_do_not_exceed_words(words: Seq<Seq<char>>, dict: Entries)
    requires
        words.len() <= usize::MAX,
    ensures
        words_targets(words, dict).1.hits() <= words_targets(words, dict).1.total_words
            <= words.len(),
    decreases words.len(),
{
    if words.len() > 0 {
        law_hits_do_not_exceed_words(words.drop_last(), dict);
    }
}

} // verus!
