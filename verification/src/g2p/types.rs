//! Phonemes, in IPA and in ARPABET.

use std::borrow::Cow;

use vstd::prelude::*;

use crate::text::uppercase;

verus! {

/// Phoneme representation.
///
/// The common English vowels have variants of their own; any other symbol is
/// held as it is written.
#[derive(Debug, PartialEq, Eq, Hash)]
#[non_exhaustive]
pub enum Phoneme {
    /// The vowel of "father".
    AH,
    /// The vowel of "cat".
    AE,
    /// The first vowel of "about".
    AX,
    /// The vowel of "see".
    IY,
    /// The vowel of "boot".
    UW,
    /// Any other symbol.
    Custom(String),
}

/// A phoneme with its symbol as a sequence of characters.
pub enum PhonemeView {
    AH,
    AE,
    AX,
    IY,
    UW,
    Custom(Seq<char>),
}

impl View for Phoneme {
    type V = PhonemeView;

    open spec fn view(&self) -> PhonemeView {
        match self {
            Phoneme::AH => PhonemeView::AH,
            Phoneme::AE => PhonemeView::AE,
            Phoneme::AX => PhonemeView::AX,
            Phoneme::IY => PhonemeView::IY,
            Phoneme::UW => PhonemeView::UW,
            Phoneme::Custom(symbol) => PhonemeView::Custom(symbol@),
        }
    }
}

impl PhonemeView {
    /// The phoneme that an IPA symbol stands for.
    pub open spec fn of_ipa(symbol: Seq<char>) -> PhonemeView {
        if symbol == "ɑ"@ {
            PhonemeView::AH
        } else if symbol == "æ"@ {
            PhonemeView::AE
        } else if symbol == "ə"@ {
            PhonemeView::AX
        } else if symbol == "i"@ || symbol == "iː"@ {
            PhonemeView::IY
        } else if symbol == "u"@ || symbol == "uː"@ {
            PhonemeView::UW
        } else {
            PhonemeView::Custom(symbol)
        }
    }

    /// The IPA symbol that is written for the phoneme.
    pub open spec fn ipa(self) -> Seq<char> {
        match self {
            PhonemeView::AH => "ɑ"@,
            PhonemeView::AE => "æ"@,
            PhonemeView::AX => "ə"@,
            PhonemeView::IY => "i"@,
            PhonemeView::UW => "u"@,
            PhonemeView::Custom(symbol) => symbol,
        }
    }

    /// The ARPABET symbol that is written for the phoneme.
    pub open spec fn arpabet(self) -> Seq<char> {
        match self {
            PhonemeView::AH => "AH"@,
            PhonemeView::AE => "AE"@,
            PhonemeView::AX => "AX"@,
            PhonemeView::IY => "IY"@,
            PhonemeView::UW => "UW"@,
            PhonemeView::Custom(symbol) => arpabet_of(symbol),
        }
    }
}

/// Each phoneme of `v`, seen through its view.
pub open spec fn phoneme_views(v: Seq<Phoneme>) -> Seq<PhonemeView> {
    v.map_values(|p: Phoneme| p@)
}

impl Clone for Phoneme {
    fn clone(&self) -> (r: Self)
        ensures
            r@ == self@,
    {
        match self {
            Phoneme::AH => Phoneme::AH,
            Phoneme::AE => Phoneme::AE,
            Phoneme::AX => Phoneme::AX,
            Phoneme::IY => Phoneme::IY,
            Phoneme::UW => Phoneme::UW,
            Phoneme::Custom(symbol) => Phoneme::Custom(symbol.clone()),
        }
    }
}

impl Phoneme {
    /// Create a phoneme from an IPA symbol.
    ///
    /// Known symbols map to the variants above, all others to
    /// [`Phoneme::Custom`].
    #[must_use]
    pub fn from_ipa(symbol: &str) -> (r: Self)
        ensures
            r@ == PhonemeView::of_ipa(symbol@),
    {
        if symbol.eq("ɑ") {
            Phoneme::AH
        } else if symbol.eq("æ") {
            Phoneme::AE
        } else if symbol.eq("ə") {
            Phoneme::AX
        } else if symbol.eq("i") || symbol.eq("iː") {
            Phoneme::IY
        } else if symbol.eq("u") || symbol.eq("uː") {
            Phoneme::UW
        } else {
            Phoneme::Custom(symbol.to_owned())
        }
    }

    /// Get IPA symbol for this phoneme.
    #[must_use]
    pub fn ipa_symbol(&self) -> (r: Cow<'_, str>)
        ensures
            r@ == self@.ipa(),
    {
        match self {
            Phoneme::AH => Cow::Borrowed("ɑ"),
            Phoneme::AE => Cow::Borrowed("æ"),
            Phoneme::AX => Cow::Borrowed("ə"),
            Phoneme::IY => Cow::Borrowed("i"),
            Phoneme::UW => Cow::Borrowed("u"),
            Phoneme::Custom(symbol) => Cow::Owned(symbol.clone()),
        }
    }

    /// Get ARPABET symbol for this phoneme.
    ///
    /// A [`Phoneme::Custom`] symbol is taken as IPA and converted.
    #[must_use]
    pub fn arpabet_symbol(&self) -> (r: Cow<'_, str>)
        ensures
            r@ == self@.arpabet(),
    {
        match self {
            Phoneme::AH => Cow::Borrowed("AH"),
            Phoneme::AE => Cow::Borrowed("AE"),
            Phoneme::AX => Cow::Borrowed("AX"),
            Phoneme::IY => Cow::Borrowed("IY"),
            Phoneme::UW => Cow::Borrowed("UW"),
            Phoneme::Custom(symbol) => Cow::Owned(ipa_to_arpabet(symbol.as_str())),
        }
    }
}

/// The length, nasalisation, voicing, aspiration and stress marks, and the
/// combining marks, that do not change which phoneme a symbol stands for.
pub open spec fn is_diacritic(c: char) -> bool {
    ||| c == 'ː'
    ||| c == '\u{0303}'
    ||| c == '\u{0325}'
    ||| c == 'ʰ'
    ||| c == 'ˈ'
    ||| c == 'ˌ'
    ||| c == '\u{0329}'
    ||| c == '\u{032F}'
    ||| c == '\u{032A}'
    ||| c == '\u{033A}'
    ||| c == '\u{033B}'
}

fn char_is_diacritic(c: char) -> (r: bool)
    ensures
        r == is_diacritic(c),
{
    c == 'ː' || c == '\u{0303}' || c == '\u{0325}' || c == 'ʰ' || c == 'ˈ' || c == 'ˌ' || c
        == '\u{0329}' || c == '\u{032F}' || c == '\u{032A}' || c == '\u{033A}' || c == '\u{033B}'
}

/// `ipa` without its diacritics.
pub open spec fn plain(ipa: Seq<char>) -> Seq<char> {
    ipa.filter(|c: char| !is_diacritic(c))
}

/// Strip combining diacritics and length markers from an IPA symbol.
pub fn strip_diacritics(ipa: &str) -> (r: String)
    ensures
        r@ == plain(ipa@),
{
    let ghost keep = |c: char| !is_diacritic(c);
    let mut out = String::new();
    for c in it: ipa.chars()
        invariant
            keep == (|c: char| !is_diacritic(c)),
            out@ == it.seq().take(it.index() as int).filter(keep),
    {
        proof {
            let upto = it.seq().take(it.index() + 1);
            assert(upto.drop_last() =~= it.seq().take(it.index() as int));
            reveal(Seq::filter);
        }
        if !char_is_diacritic(c) {
            out.push(c);
        }
    }
    assert(ipa@.take(ipa@.len() as int) =~= ipa@);
    out
}

/// The ARPABET code of a symbol without diacritics; `None` where the symbol is
/// not in the table.
pub open spec fn arpabet_code(plain: Seq<char>) -> Option<Seq<char>> {
    if plain == "ɑ"@ || plain == "ɑː"@ { Some("AA"@) }
    else if plain == "æ"@ { Some("AE"@) }
    else if plain == "ʌ"@ { Some("AH"@) }
    else if plain == "ɔ"@ || plain == "ɔː"@ { Some("AO"@) }
    else if plain == "aʊ"@ || plain == "au"@ { Some("AW"@) }
    else if plain == "aɪ"@ || plain == "ai"@ { Some("AY"@) }
    else if plain == "ɛ"@ { Some("EH"@) }
    else if plain == "ɝ"@ || plain == "ɜr"@ || plain == "ɚ"@ || plain == "ɜ"@ || plain == "ɜː"@ { Some("ER"@) }
    else if plain == "eɪ"@ || plain == "ei"@ { Some("EY"@) }
    else if plain == "ɪ"@ { Some("IH"@) }
    else if plain == "i"@ || plain == "iː"@ { Some("IY"@) }
    else if plain == "oʊ"@ || plain == "ou"@ { Some("OW"@) }
    else if plain == "ɔɪ"@ || plain == "oi"@ { Some("OY"@) }
    else if plain == "ʊ"@ { Some("UH"@) }
    else if plain == "u"@ || plain == "uː"@ { Some("UW"@) }
    else if plain == "ə"@ { Some("AX"@) }
    else if plain == "ɑ\u{0303}"@ || plain == "ã"@ { Some("AA"@) }
    else if plain == "ɛ\u{0303}"@ || plain == "ẽ"@ { Some("EH"@) }
    else if plain == "ɔ\u{0303}"@ || plain == "õ"@ { Some("AO"@) }
    else if plain == "œ\u{0303}"@ { Some("AH"@) }
    else if plain == "ɨ"@ { Some("IH"@) }
    else if plain == "ʉ"@ { Some("UW"@) }
    else if plain == "ɵ"@ { Some("AH"@) }
    else if plain == "ɘ"@ { Some("AX"@) }
    else if plain == "ɞ"@ { Some("ER"@) }
    else if plain == "ɐ"@ { Some("AH"@) }
    else if plain == "ɒ"@ { Some("AA"@) }
    else if plain == "ʏ"@ { Some("IH"@) }
    else if plain == "ø"@ { Some("EH"@) }
    else if plain == "œ"@ { Some("AH"@) }
    else if plain == "y"@ { Some("IY"@) }
    else if plain == "a"@ { Some("AA"@) }
    else if plain == "o"@ { Some("OW"@) }
    else if plain == "e"@ { Some("EH"@) }
    else if plain == "b"@ { Some("B"@) }
    else if plain == "d"@ { Some("D"@) }
    else if plain == "g"@ || plain == "ɡ"@ { Some("G"@) }
    else if plain == "k"@ { Some("K"@) }
    else if plain == "p"@ { Some("P"@) }
    else if plain == "t"@ { Some("T"@) }
    else if plain == "tʃ"@ || plain == "ʧ"@ { Some("CH"@) }
    else if plain == "dʒ"@ || plain == "ʤ"@ { Some("JH"@) }
    else if plain == "ts"@ { Some("T"@) }
    else if plain == "dz"@ { Some("D"@) }
    else if plain == "f"@ { Some("F"@) }
    else if plain == "v"@ { Some("V"@) }
    else if plain == "θ"@ { Some("TH"@) }
    else if plain == "ð"@ { Some("DH"@) }
    else if plain == "s"@ { Some("S"@) }
    else if plain == "z"@ { Some("Z"@) }
    else if plain == "ʃ"@ { Some("SH"@) }
    else if plain == "ʒ"@ { Some("ZH"@) }
    else if plain == "h"@ || plain == "ɦ"@ { Some("HH"@) }
    else if plain == "x"@ { Some("HH"@) }
    else if plain == "ç"@ { Some("HH"@) }
    else if plain == "ɣ"@ { Some("G"@) }
    else if plain == "β"@ { Some("V"@) }
    else if plain == "ɸ"@ { Some("F"@) }
    else if plain == "m"@ { Some("M"@) }
    else if plain == "n"@ { Some("N"@) }
    else if plain == "ŋ"@ { Some("NG"@) }
    else if plain == "ɲ"@ { Some("N"@) }
    else if plain == "ɱ"@ { Some("M"@) }
    else if plain == "l"@ || plain == "ɫ"@ { Some("L"@) }
    else if plain == "r"@ || plain == "ɹ"@ || plain == "ɻ"@ { Some("R"@) }
    else if plain == "ʁ"@ { Some("R"@) }
    else if plain == "ʀ"@ { Some("R"@) }
    else if plain == "ɾ"@ { Some("D"@) }
    else if plain == "ɽ"@ { Some("D"@) }
    else if plain == "ʔ"@ { Some("Q"@) }
    else if plain == "w"@ { Some("W"@) }
    else if plain == "j"@ { Some("Y"@) }
    else if plain == "ʍ"@ { Some("W"@) }
    else if plain == "ɥ"@ { Some("Y"@) }
    else { None }
}

/// The ARPABET code of an IPA symbol. A symbol that the table lacks is taken
/// as ARPABET already and put in upper case; what is nothing but diacritics
/// becomes `?`.
pub open spec fn arpabet_of(ipa: Seq<char>) -> Seq<char> {
    match arpabet_code(plain(ipa)) {
        Some(code) => code,
        None => {
            let upper = crate::text::uppered(plain(ipa));
            if upper.len() == 0 {
                "?"@
            } else {
                upper
            }
        },
    }
}

fn find_arpabet_code(plain: &str) -> (r: Option<&'static str>)
    ensures
        r is Some <==> arpabet_code(plain@) is Some,
        r is Some ==> r->0@ == arpabet_code(plain@)->0,
{
    if plain.eq("ɑ") || plain.eq("ɑː") { Some("AA") }
    else if plain.eq("æ") { Some("AE") }
    else if plain.eq("ʌ") { Some("AH") }
    else if plain.eq("ɔ") || plain.eq("ɔː") { Some("AO") }
    else if plain.eq("aʊ") || plain.eq("au") { Some("AW") }
    else if plain.eq("aɪ") || plain.eq("ai") { Some("AY") }
    else if plain.eq("ɛ") { Some("EH") }
    else if plain.eq("ɝ") || plain.eq("ɜr") || plain.eq("ɚ") || plain.eq("ɜ") || plain.eq("ɜː") { Some("ER") }
    else if plain.eq("eɪ") || plain.eq("ei") { Some("EY") }
    else if plain.eq("ɪ") { Some("IH") }
    else if plain.eq("i") || plain.eq("iː") { Some("IY") }
    else if plain.eq("oʊ") || plain.eq("ou") { Some("OW") }
    else if plain.eq("ɔɪ") || plain.eq("oi") { Some("OY") }
    else if plain.eq("ʊ") { Some("UH") }
    else if plain.eq("u") || plain.eq("uː") { Some("UW") }
    else if plain.eq("ə") { Some("AX") }
    else if plain.eq("ɑ\u{0303}") || plain.eq("ã") { Some("AA") }
    else if plain.eq("ɛ\u{0303}") || plain.eq("ẽ") { Some("EH") }
    else if plain.eq("ɔ\u{0303}") || plain.eq("õ") { Some("AO") }
    else if plain.eq("œ\u{0303}") { Some("AH") }
    else if plain.eq("ɨ") { Some("IH") }
    else if plain.eq("ʉ") { Some("UW") }
    else if plain.eq("ɵ") { Some("AH") }
    else if plain.eq("ɘ") { Some("AX") }
    else if plain.eq("ɞ") { Some("ER") }
    else if plain.eq("ɐ") { Some("AH") }
    else if plain.eq("ɒ") { Some("AA") }
    else if plain.eq("ʏ") { Some("IH") }
    else if plain.eq("ø") { Some("EH") }
    else if plain.eq("œ") { Some("AH") }
    else if plain.eq("y") { Some("IY") }
    else if plain.eq("a") { Some("AA") }
    else if plain.eq("o") { Some("OW") }
    else if plain.eq("e") { Some("EH") }
    else if plain.eq("b") { Some("B") }
    else if plain.eq("d") { Some("D") }
    else if plain.eq("g") || plain.eq("ɡ") { Some("G") }
    else if plain.eq("k") { Some("K") }
    else if plain.eq("p") { Some("P") }
    else if plain.eq("t") { Some("T") }
    else if plain.eq("tʃ") || plain.eq("ʧ") { Some("CH") }
    else if plain.eq("dʒ") || plain.eq("ʤ") { Some("JH") }
    else if plain.eq("ts") { Some("T") }
    else if plain.eq("dz") { Some("D") }
    else if plain.eq("f") { Some("F") }
    else if plain.eq("v") { Some("V") }
    else if plain.eq("θ") { Some("TH") }
    else if plain.eq("ð") { Some("DH") }
    else if plain.eq("s") { Some("S") }
    else if plain.eq("z") { Some("Z") }
    else if plain.eq("ʃ") { Some("SH") }
    else if plain.eq("ʒ") { Some("ZH") }
    else if plain.eq("h") || plain.eq("ɦ") { Some("HH") }
    else if plain.eq("x") { Some("HH") }
    else if plain.eq("ç") { Some("HH") }
    else if plain.eq("ɣ") { Some("G") }
    else if plain.eq("β") { Some("V") }
    else if plain.eq("ɸ") { Some("F") }
    else if plain.eq("m") { Some("M") }
    else if plain.eq("n") { Some("N") }
    else if plain.eq("ŋ") { Some("NG") }
    else if plain.eq("ɲ") { Some("N") }
    else if plain.eq("ɱ") { Some("M") }
    else if plain.eq("l") || plain.eq("ɫ") { Some("L") }
    else if plain.eq("r") || plain.eq("ɹ") || plain.eq("ɻ") { Some("R") }
    else if plain.eq("ʁ") { Some("R") }
    else if plain.eq("ʀ") { Some("R") }
    else if plain.eq("ɾ") { Some("D") }
    else if plain.eq("ɽ") { Some("D") }
    else if plain.eq("ʔ") { Some("Q") }
    else if plain.eq("w") { Some("W") }
    else if plain.eq("j") { Some("Y") }
    else if plain.eq("ʍ") { Some("W") }
    else if plain.eq("ɥ") { Some("Y") }
    else { None }
}

/// Convert IPA symbol to ARPABET code.
///
/// Besides the English inventory this covers what a speech model writes for
/// second-language speakers: nasalised and central vowels, flaps, taps and
/// glottal stops.
pub fn ipa_to_arpabet(ipa: &str) -> (r: String)
    ensures
        r@ == arpabet_of(ipa@),
{
    let stripped = strip_diacritics(ipa);
    match find_arpabet_code(stripped.as_str()) {
        Some(code) => code.to_owned(),
        None => {
            let upper = uppercase(stripped.as_str());
            if upper.as_str().unicode_len() == 0 {
                "?".to_owned()
            } else {
                upper
            }
        },
    }
}

} // verus!
