//! ARPABET notation: stress marks and the mapping to IPA.
//!
//! ARPABET writes a phoneme in upper-case ASCII letters. A vowel may carry a
//! stress mark: `0` (none), `1` (primary) or `2` (secondary), as in `AH0`.

use vstd::prelude::*;

use crate::text::chars_of;

verus! {

pub open spec fn is_stress_mark(c: char) -> bool {
    c == '0' || c == '1' || c == '2'
}

/// `symbol` without the stress mark at its end.
pub open spec fn without_stress(symbol: Seq<char>) -> Seq<char> {
    if symbol.len() > 0 && is_stress_mark(symbol.last()) {
        symbol.drop_last()
    } else {
        symbol
    }
}

/// The level that the stress mark at the end of `symbol` stands for; 0 where
/// there is none.
pub open spec fn stress_level(symbol: Seq<char>) -> int {
    if symbol.len() > 0 && is_stress_mark(symbol.last()) {
        symbol.last() as u32 - '0' as u32
    } else {
        0
    }
}

/// Parts `AH0` into `AH` and its stress level 0. A symbol without a stress
/// mark, such as `K`, is its own base and has level 0.
#[must_use]
pub fn parse_arpabet_stress(arpabet: &str) -> (r: (&str, u8))
    ensures
        r.0@ == without_stress(arpabet@),
        r.1 == stress_level(arpabet@),
{
    let chars = chars_of(arpabet);
    let n: usize = chars.len();
    if n == 0 {
        return (arpabet, 0);
    }
    let last: char = chars[n - 1];
    if last == '0' {
        (arpabet.substring_char(0, n - 1), 0)
    } else if last == '1' {
        (arpabet.substring_char(0, n - 1), 1)
    } else if last == '2' {
        (arpabet.substring_char(0, n - 1), 2)
    } else {
        (arpabet, 0)
    }
}

/// The IPA symbol of a stress-free ARPABET symbol; empty for anything that is
/// not ARPABET.
pub open spec fn ipa_of(arpabet: Seq<char>) -> Seq<char> {
    if arpabet == "AA"@ { "ɑ"@ }
    else if arpabet == "AE"@ { "æ"@ }
    else if arpabet == "AH"@ { "ʌ"@ }
    else if arpabet == "AO"@ { "ɔ"@ }
    else if arpabet == "AW"@ { "aʊ"@ }
    else if arpabet == "AX"@ { "ə"@ }
    else if arpabet == "AY"@ { "aɪ"@ }
    else if arpabet == "EH"@ { "ɛ"@ }
    else if arpabet == "ER"@ { "ɜr"@ }
    else if arpabet == "EY"@ { "eɪ"@ }
    else if arpabet == "IH"@ { "ɪ"@ }
    else if arpabet == "IY"@ { "i"@ }
    else if arpabet == "OW"@ { "oʊ"@ }
    else if arpabet == "OY"@ { "ɔɪ"@ }
    else if arpabet == "UH"@ { "ʊ"@ }
    else if arpabet == "UW"@ { "u"@ }
    else if arpabet == "B"@ { "b"@ }
    else if arpabet == "CH"@ { "tʃ"@ }
    else if arpabet == "D"@ { "d"@ }
    else if arpabet == "DH"@ { "ð"@ }
    else if arpabet == "F"@ { "f"@ }
    else if arpabet == "G"@ { "g"@ }
    else if arpabet == "HH"@ { "h"@ }
    else if arpabet == "JH"@ { "dʒ"@ }
    else if arpabet == "K"@ { "k"@ }
    else if arpabet == "L"@ { "l"@ }
    else if arpabet == "M"@ { "m"@ }
    else if arpabet == "N"@ { "n"@ }
    else if arpabet == "NG"@ { "ŋ"@ }
    else if arpabet == "P"@ { "p"@ }
    else if arpabet == "R"@ { "r"@ }
    else if arpabet == "S"@ { "s"@ }
    else if arpabet == "SH"@ { "ʃ"@ }
    else if arpabet == "T"@ { "t"@ }
    else if arpabet == "TH"@ { "θ"@ }
    else if arpabet == "V"@ { "v"@ }
    else if arpabet == "W"@ { "w"@ }
    else if arpabet == "Y"@ { "j"@ }
    else if arpabet == "Z"@ { "z"@ }
    else if arpabet == "ZH"@ { "ʒ"@ }
    else { ""@ }
}

/// Maps a stress-free ARPABET symbol to IPA.
#[must_use]
pub fn arpabet_to_ipa(arpabet: &str) -> (r: &'static str)
    ensures
        r@ == ipa_of(arpabet@),
{
    if arpabet.eq("AA") { "ɑ" }
    else if arpabet.eq("AE") { "æ" }
    else if arpabet.eq("AH") { "ʌ" }
    else if arpabet.eq("AO") { "ɔ" }
    else if arpabet.eq("AW") { "aʊ" }
    else if arpabet.eq("AX") { "ə" }
    else if arpabet.eq("AY") { "aɪ" }
    else if arpabet.eq("EH") { "ɛ" }
    else if arpabet.eq("ER") { "ɜr" }
    else if arpabet.eq("EY") { "eɪ" }
    else if arpabet.eq("IH") { "ɪ" }
    else if arpabet.eq("IY") { "i" }
    else if arpabet.eq("OW") { "oʊ" }
    else if arpabet.eq("OY") { "ɔɪ" }
    else if arpabet.eq("UH") { "ʊ" }
    else if arpabet.eq("UW") { "u" }
    else if arpabet.eq("B") { "b" }
    else if arpabet.eq("CH") { "tʃ" }
    else if arpabet.eq("D") { "d" }
    else if arpabet.eq("DH") { "ð" }
    else if arpabet.eq("F") { "f" }
    else if arpabet.eq("G") { "g" }
    else if arpabet.eq("HH") { "h" }
    else if arpabet.eq("JH") { "dʒ" }
    else if arpabet.eq("K") { "k" }
    else if arpabet.eq("L") { "l" }
    else if arpabet.eq("M") { "m" }
    else if arpabet.eq("N") { "n" }
    else if arpabet.eq("NG") { "ŋ" }
    else if arpabet.eq("P") { "p" }
    else if arpabet.eq("R") { "r" }
    else if arpabet.eq("S") { "s" }
    else if arpabet.eq("SH") { "ʃ" }
    else if arpabet.eq("T") { "t" }
    else if arpabet.eq("TH") { "θ" }
    else if arpabet.eq("V") { "v" }
    else if arpabet.eq("W") { "w" }
    else if arpabet.eq("Y") { "j" }
    else if arpabet.eq("Z") { "z" }
    else if arpabet.eq("ZH") { "ʒ" }
    else { "" }
}

} // verus!
