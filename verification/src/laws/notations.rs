//! The two notations of phonemes: what is written in one and read back in the other
//! stays what it was.

use vstd::prelude::*;

use crate::g2p::{arpabet, types};
use crate::phoneme_map;

verus! {

/// The characters of the IPA symbols.
proof fn lemma_ipa_texts()
    ensures
        "ɑ"@.len() == 1,
        "ɑ"@[0] == 'ɑ',
        "ɑː"@.len() == 2,
        "ɑː"@[0] == 'ɑ',
        "ɑː"@[1] == 'ː',
        "æ"@.len() == 1,
        "æ"@[0] == 'æ',
        "ʌ"@.len() == 1,
        "ʌ"@[0] == 'ʌ',
        "ɔ"@.len() == 1,
        "ɔ"@[0] == 'ɔ',
        "ɔː"@.len() == 2,
        "ɔː"@[0] == 'ɔ',
        "ɔː"@[1] == 'ː',
        "aʊ"@.len() == 2,
        "aʊ"@[0] == 'a',
        "aʊ"@[1] == 'ʊ',
        "au"@.len() == 2,
        "au"@[0] == 'a',
        "au"@[1] == 'u',
        "aɪ"@.len() == 2,
        "aɪ"@[0] == 'a',
        "aɪ"@[1] == 'ɪ',
        "ai"@.len() == 2,
        "ai"@[0] == 'a',
        "ai"@[1] == 'i',
        "ɛ"@.len() == 1,
        "ɛ"@[0] == 'ɛ',
        "ɝ"@.len() == 1,
        "ɝ"@[0] == 'ɝ',
        "ɜr"@.len() == 2,
        "ɜr"@[0] == 'ɜ',
        "ɜr"@[1] == 'r',
        "ɚ"@.len() == 1,
        "ɚ"@[0] == 'ɚ',
        "ɜ"@.len() == 1,
        "ɜ"@[0] == 'ɜ',
        "ɜː"@.len() == 2,
        "ɜː"@[0] == 'ɜ',
        "ɜː"@[1] == 'ː',
        "eɪ"@.len() == 2,
        "eɪ"@[0] == 'e',
        "eɪ"@[1] == 'ɪ',
        "ei"@.len() == 2,
        "ei"@[0] == 'e',
        "ei"@[1] == 'i',
        "ɪ"@.len() == 1,
        "ɪ"@[0] == 'ɪ',
        "i"@.len() == 1,
        "i"@[0] == 'i',
        "iː"@.len() == 2,
        "iː"@[0] == 'i',
        "iː"@[1] == 'ː',
        "oʊ"@.len() == 2,
        "oʊ"@[0] == 'o',
        "oʊ"@[1] == 'ʊ',
        "ou"@.len() == 2,
        "ou"@[0] == 'o',
        "ou"@[1] == 'u',
        "ɔɪ"@.len() == 2,
        "ɔɪ"@[0] == 'ɔ',
        "ɔɪ"@[1] == 'ɪ',
        "oi"@.len() == 2,
        "oi"@[0] == 'o',
        "oi"@[1] == 'i',
        "ʊ"@.len() == 1,
        "ʊ"@[0] == 'ʊ',
        "u"@.len() == 1,
        "u"@[0] == 'u',
        "uː"@.len() == 2,
        "uː"@[0] == 'u',
        "uː"@[1] == 'ː',
        "ə"@.len() == 1,
        "ə"@[0] == 'ə',
        "ɑ\u{0303}"@.len() == 2,
        "ɑ\u{0303}"@[0] == 'ɑ',
        "ɑ\u{0303}"@[1] == '\u{0303}',
        "ã"@.len() == 1,
        "ã"@[0] == 'ã',
        "ɛ\u{0303}"@.len() == 2,
        "ɛ\u{0303}"@[0] == 'ɛ',
        "ɛ\u{0303}"@[1] == '\u{0303}',
        "ẽ"@.len() == 1,
        "ẽ"@[0] == 'ẽ',
        "ɔ\u{0303}"@.len() == 2,
        "ɔ\u{0303}"@[0] == 'ɔ',
        "ɔ\u{0303}"@[1] == '\u{0303}',
        "õ"@.len() == 1,
        "õ"@[0] == 'õ',
        "œ\u{0303}"@.len() == 2,
        "œ\u{0303}"@[0] == 'œ',
        "œ\u{0303}"@[1] == '\u{0303}',
        "ɨ"@.len() == 1,
        "ɨ"@[0] == 'ɨ',
        "ʉ"@.len() == 1,
        "ʉ"@[0] == 'ʉ',
        "ɵ"@.len() == 1,
        "ɵ"@[0] == 'ɵ',
        "ɘ"@.len() == 1,
        "ɘ"@[0] == 'ɘ',
        "ɞ"@.len() == 1,
        "ɞ"@[0] == 'ɞ',
        "ɐ"@.len() == 1,
        "ɐ"@[0] == 'ɐ',
        "ɒ"@.len() == 1,
        "ɒ"@[0] == 'ɒ',
        "ʏ"@.len() == 1,
        "ʏ"@[0] == 'ʏ',
        "ø"@.len() == 1,
        "ø"@[0] == 'ø',
        "œ"@.len() == 1,
        "œ"@[0] == 'œ',
        "y"@.len() == 1,
        "y"@[0] == 'y',
        "a"@.len() == 1,
        "a"@[0] == 'a',
        "o"@.len() == 1,
        "o"@[0] == 'o',
        "e"@.len() == 1,
        "e"@[0] == 'e',
        "b"@.len() == 1,
        "b"@[0] == 'b',
        "d"@.len() == 1,
        "d"@[0] == 'd',
        "g"@.len() == 1,
        "g"@[0] == 'g',
        "ɡ"@.len() == 1,
        "ɡ"@[0] == 'ɡ',
        "k"@.len() == 1,
        "k"@[0] == 'k',
        "p"@.len() == 1,
        "p"@[0] == 'p',
        "t"@.len() == 1,
        "t"@[0] == 't',
        "tʃ"@.len() == 2,
        "tʃ"@[0] == 't',
        "tʃ"@[1] == 'ʃ',
        "ʧ"@.len() == 1,
        "ʧ"@[0] == 'ʧ',
        "dʒ"@.len() == 2,
        "dʒ"@[0] == 'd',
        "dʒ"@[1] == 'ʒ',
        "ʤ"@.len() == 1,
        "ʤ"@[0] == 'ʤ',
        "ts"@.len() == 2,
        "ts"@[0] == 't',
        "ts"@[1] == 's',
        "dz"@.len() == 2,
        "dz"@[0] == 'd',
        "dz"@[1] == 'z',
        "f"@.len() == 1,
        "f"@[0] == 'f',
        "v"@.len() == 1,
        "v"@[0] == 'v',
        "θ"@.len() == 1,
        "θ"@[0] == 'θ',
        "ð"@.len() == 1,
        "ð"@[0] == 'ð',
        "s"@.len() == 1,
        "s"@[0] == 's',
        "z"@.len() == 1,
        "z"@[0] == 'z',
        "ʃ"@.len() == 1,
        "ʃ"@[0] == 'ʃ',
        "ʒ"@.len() == 1,
        "ʒ"@[0] == 'ʒ',
        "h"@.len() == 1,
        "h"@[0] == 'h',
        "ɦ"@.len() == 1,
        "ɦ"@[0] == 'ɦ',
        "x"@.len() == 1,
        "x"@[0] == 'x',
        "ç"@.len() == 1,
        "ç"@[0] == 'ç',
        "ɣ"@.len() == 1,
        "ɣ"@[0] == 'ɣ',
        "β"@.len() == 1,
        "β"@[0] == 'β',
        "ɸ"@.len() == 1,
        "ɸ"@[0] == 'ɸ',
        "m"@.len() == 1,
        "m"@[0] == 'm',
        "n"@.len() == 1,
        "n"@[0] == 'n',
        "ŋ"@.len() == 1,
        "ŋ"@[0] == 'ŋ',
        "ɲ"@.len() == 1,
        "ɲ"@[0] == 'ɲ',
        "ɱ"@.len() == 1,
        "ɱ"@[0] == 'ɱ',
        "l"@.len() == 1,
        "l"@[0] == 'l',
        "ɫ"@.len() == 1,
        "ɫ"@[0] == 'ɫ',
        "r"@.len() == 1,
        "r"@[0] == 'r',
        "ɹ"@.len() == 1,
        "ɹ"@[0] == 'ɹ',
        "ɻ"@.len() == 1,
        "ɻ"@[0] == 'ɻ',
        "ʁ"@.len() == 1,
        "ʁ"@[0] == 'ʁ',
        "ʀ"@.len() == 1,
        "ʀ"@[0] == 'ʀ',
        "ɾ"@.len() == 1,
        "ɾ"@[0] == 'ɾ',
        "ɽ"@.len() == 1,
        "ɽ"@[0] == 'ɽ',
        "ʔ"@.len() == 1,
        "ʔ"@[0] == 'ʔ',
        "w"@.len() == 1,
        "w"@[0] == 'w',
        "j"@.len() == 1,
        "j"@[0] == 'j',
        "ʍ"@.len() == 1,
        "ʍ"@[0] == 'ʍ',
        "ɥ"@.len() == 1,
        "ɥ"@[0] == 'ɥ',
{
    reveal_strlit("ɑ");
    reveal_strlit("ɑː");
    reveal_strlit("æ");
    reveal_strlit("ʌ");
    reveal_strlit("ɔ");
    reveal_strlit("ɔː");
    reveal_strlit("aʊ");
    reveal_strlit("au");
    reveal_strlit("aɪ");
    reveal_strlit("ai");
    reveal_strlit("ɛ");
    reveal_strlit("ɝ");
    reveal_strlit("ɜr");
    reveal_strlit("ɚ");
    reveal_strlit("ɜ");
    reveal_strlit("ɜː");
    reveal_strlit("eɪ");
    reveal_strlit("ei");
    reveal_strlit("ɪ");
    reveal_strlit("i");
    reveal_strlit("iː");
    reveal_strlit("oʊ");
    reveal_strlit("ou");
    reveal_strlit("ɔɪ");
    reveal_strlit("oi");
    reveal_strlit("ʊ");
    reveal_strlit("u");
    reveal_strlit("uː");
    reveal_strlit("ə");
    reveal_strlit("ɑ\u{0303}");
    reveal_strlit("ã");
    reveal_strlit("ɛ\u{0303}");
    reveal_strlit("ẽ");
    reveal_strlit("ɔ\u{0303}");
    reveal_strlit("õ");
    reveal_strlit("œ\u{0303}");
    reveal_strlit("ɨ");
    reveal_strlit("ʉ");
    reveal_strlit("ɵ");
    reveal_strlit("ɘ");
    reveal_strlit("ɞ");
    reveal_strlit("ɐ");
    reveal_strlit("ɒ");
    reveal_strlit("ʏ");
    reveal_strlit("ø");
    reveal_strlit("œ");
    reveal_strlit("y");
    reveal_strlit("a");
    reveal_strlit("o");
    reveal_strlit("e");
    reveal_strlit("b");
    reveal_strlit("d");
    reveal_strlit("g");
    reveal_strlit("ɡ");
    reveal_strlit("k");
    reveal_strlit("p");
    reveal_strlit("t");
    reveal_strlit("tʃ");
    reveal_strlit("ʧ");
    reveal_strlit("dʒ");
    reveal_strlit("ʤ");
    reveal_strlit("ts");
    reveal_strlit("dz");
    reveal_strlit("f");
    reveal_strlit("v");
    reveal_strlit("θ");
    reveal_strlit("ð");
    reveal_strlit("s");
    reveal_strlit("z");
    reveal_strlit("ʃ");
    reveal_strlit("ʒ");
    reveal_strlit("h");
    reveal_strlit("ɦ");
    reveal_strlit("x");
    reveal_strlit("ç");
    reveal_strlit("ɣ");
    reveal_strlit("β");
    reveal_strlit("ɸ");
    reveal_strlit("m");
    reveal_strlit("n");
    reveal_strlit("ŋ");
    reveal_strlit("ɲ");
    reveal_strlit("ɱ");
    reveal_strlit("l");
    reveal_strlit("ɫ");
    reveal_strlit("r");
    reveal_strlit("ɹ");
    reveal_strlit("ɻ");
    reveal_strlit("ʁ");
    reveal_strlit("ʀ");
    reveal_strlit("ɾ");
    reveal_strlit("ɽ");
    reveal_strlit("ʔ");
    reveal_strlit("w");
    reveal_strlit("j");
    reveal_strlit("ʍ");
    reveal_strlit("ɥ");
}

/// The characters of the ARPABET symbols.
proof fn lemma_arpabet_texts()
    ensures
        "AA"@.len() == 2,
        "AA"@[0] == 'A',
        "AA"@[1] == 'A',
        "AE"@.len() == 2,
        "AE"@[0] == 'A',
        "AE"@[1] == 'E',
        "AH"@.len() == 2,
        "AH"@[0] == 'A',
        "AH"@[1] == 'H',
        "AO"@.len() == 2,
        "AO"@[0] == 'A',
        "AO"@[1] == 'O',
        "AW"@.len() == 2,
        "AW"@[0] == 'A',
        "AW"@[1] == 'W',
        "AX"@.len() == 2,
        "AX"@[0] == 'A',
        "AX"@[1] == 'X',
        "AY"@.len() == 2,
        "AY"@[0] == 'A',
        "AY"@[1] == 'Y',
        "B"@.len() == 1,
        "B"@[0] == 'B',
        "CH"@.len() == 2,
        "CH"@[0] == 'C',
        "CH"@[1] == 'H',
        "D"@.len() == 1,
        "D"@[0] == 'D',
        "DH"@.len() == 2,
        "DH"@[0] == 'D',
        "DH"@[1] == 'H',
        "EH"@.len() == 2,
        "EH"@[0] == 'E',
        "EH"@[1] == 'H',
        "ER"@.len() == 2,
        "ER"@[0] == 'E',
        "ER"@[1] == 'R',
        "EY"@.len() == 2,
        "EY"@[0] == 'E',
        "EY"@[1] == 'Y',
        "F"@.len() == 1,
        "F"@[0] == 'F',
        "G"@.len() == 1,
        "G"@[0] == 'G',
        "HH"@.len() == 2,
        "HH"@[0] == 'H',
        "HH"@[1] == 'H',
        "IH"@.len() == 2,
        "IH"@[0] == 'I',
        "IH"@[1] == 'H',
        "IY"@.len() == 2,
        "IY"@[0] == 'I',
        "IY"@[1] == 'Y',
        "JH"@.len() == 2,
        "JH"@[0] == 'J',
        "JH"@[1] == 'H',
        "K"@.len() == 1,
        "K"@[0] == 'K',
        "L"@.len() == 1,
        "L"@[0] == 'L',
        "M"@.len() == 1,
        "M"@[0] == 'M',
        "N"@.len() == 1,
        "N"@[0] == 'N',
        "NG"@.len() == 2,
        "NG"@[0] == 'N',
        "NG"@[1] == 'G',
        "OW"@.len() == 2,
        "OW"@[0] == 'O',
        "OW"@[1] == 'W',
        "OY"@.len() == 2,
        "OY"@[0] == 'O',
        "OY"@[1] == 'Y',
        "P"@.len() == 1,
        "P"@[0] == 'P',
        "R"@.len() == 1,
        "R"@[0] == 'R',
        "S"@.len() == 1,
        "S"@[0] == 'S',
        "SH"@.len() == 2,
        "SH"@[0] == 'S',
        "SH"@[1] == 'H',
        "T"@.len() == 1,
        "T"@[0] == 'T',
        "TH"@.len() == 2,
        "TH"@[0] == 'T',
        "TH"@[1] == 'H',
        "UH"@.len() == 2,
        "UH"@[0] == 'U',
        "UH"@[1] == 'H',
        "UW"@.len() == 2,
        "UW"@[0] == 'U',
        "UW"@[1] == 'W',
        "V"@.len() == 1,
        "V"@[0] == 'V',
        "W"@.len() == 1,
        "W"@[0] == 'W',
        "Y"@.len() == 1,
        "Y"@[0] == 'Y',
        "Z"@.len() == 1,
        "Z"@[0] == 'Z',
        "ZH"@.len() == 2,
        "ZH"@[0] == 'Z',
        "ZH"@[1] == 'H',
{
    reveal_strlit("AA");
    reveal_strlit("AE");
    reveal_strlit("AH");
    reveal_strlit("AO");
    reveal_strlit("AW");
    reveal_strlit("AX");
    reveal_strlit("AY");
    reveal_strlit("B");
    reveal_strlit("CH");
    reveal_strlit("D");
    reveal_strlit("DH");
    reveal_strlit("EH");
    reveal_strlit("ER");
    reveal_strlit("EY");
    reveal_strlit("F");
    reveal_strlit("G");
    reveal_strlit("HH");
    reveal_strlit("IH");
    reveal_strlit("IY");
    reveal_strlit("JH");
    reveal_strlit("K");
    reveal_strlit("L");
    reveal_strlit("M");
    reveal_strlit("N");
    reveal_strlit("NG");
    reveal_strlit("OW");
    reveal_strlit("OY");
    reveal_strlit("P");
    reveal_strlit("R");
    reveal_strlit("S");
    reveal_strlit("SH");
    reveal_strlit("T");
    reveal_strlit("TH");
    reveal_strlit("UH");
    reveal_strlit("UW");
    reveal_strlit("V");
    reveal_strlit("W");
    reveal_strlit("Y");
    reveal_strlit("Z");
    reveal_strlit("ZH");
}

proof fn lemma_plain(s: Seq<char>)
    requires
        0 < s.len() <= 2,
        !types::is_diacritic(s[0]),
        s.len() == 2 ==> !types::is_diacritic(s[1]),
    ensures
        types::plain(s) == s,
{
    let keep = |c: char| !types::is_diacritic(c);
    reveal(Seq::filter);
    reveal_with_fuel(Seq::filter, 3);
    if s.len() == 1 {
        assert(s.drop_last().filter(keep) =~= Seq::<char>::empty());
        assert(s.filter(keep) =~= s);
    } else {
        let front = s.drop_last();
        assert(front.drop_last().filter(keep) =~= Seq::<char>::empty());
        assert(front.last() == s[0]);
        assert(front.filter(keep) =~= seq![s[0]]);
        assert(s.filter(keep) =~= s);
    }
}

#[verifier::rlimit(60)]
proof fn lemma_ipa_0()
    ensures
        arpabet::ipa_of("AA"@) == "ɑ"@,
        arpabet::ipa_of("AE"@) == "æ"@,
        arpabet::ipa_of("AH"@) == "ʌ"@,
        arpabet::ipa_of("AO"@) == "ɔ"@,
        arpabet::ipa_of("AW"@) == "aʊ"@,
        arpabet::ipa_of("AX"@) == "ə"@,
        arpabet::ipa_of("AY"@) == "aɪ"@,
        arpabet::ipa_of("B"@) == "b"@,
        arpabet::ipa_of("CH"@) == "tʃ"@,
        arpabet::ipa_of("D"@) == "d"@,
{
    lemma_arpabet_texts();
}

#[verifier::rlimit(60)]
proof fn lemma_codes_0()
    ensures
        types::arpabet_of("ɑ"@) == "AA"@,
        types::arpabet_of("æ"@) == "AE"@,
        types::arpabet_of("ʌ"@) == "AH"@,
        types::arpabet_of("ɔ"@) == "AO"@,
        types::arpabet_of("aʊ"@) == "AW"@,
        types::arpabet_of("ə"@) == "AX"@,
        types::arpabet_of("aɪ"@) == "AY"@,
        types::arpabet_of("b"@) == "B"@,
        types::arpabet_of("tʃ"@) == "CH"@,
        types::arpabet_of("d"@) == "D"@,
{
    lemma_ipa_texts();
    lemma_plain("ɑ"@);
    lemma_plain("æ"@);
    lemma_plain("ʌ"@);
    lemma_plain("ɔ"@);
    lemma_plain("aʊ"@);
    lemma_plain("ə"@);
    lemma_plain("aɪ"@);
    lemma_plain("b"@);
    lemma_plain("tʃ"@);
    lemma_plain("d"@);
}

#[verifier::rlimit(60)]
proof fn lemma_ipa_1()
    ensures
        arpabet::ipa_of("DH"@) == "ð"@,
        arpabet::ipa_of("EH"@) == "ɛ"@,
        arpabet::ipa_of("ER"@) == "ɜr"@,
        arpabet::ipa_of("EY"@) == "eɪ"@,
        arpabet::ipa_of("F"@) == "f"@,
        arpabet::ipa_of("G"@) == "g"@,
        arpabet::ipa_of("HH"@) == "h"@,
        arpabet::ipa_of("IH"@) == "ɪ"@,
        arpabet::ipa_of("IY"@) == "i"@,
        arpabet::ipa_of("JH"@) == "dʒ"@,
{
    lemma_arpabet_texts();
}

#[verifier::rlimit(60)]
proof fn lemma_codes_1()
    ensures
        types::arpabet_of("ð"@) == "DH"@,
        types::arpabet_of("ɛ"@) == "EH"@,
        types::arpabet_of("ɜr"@) == "ER"@,
        types::arpabet_of("eɪ"@) == "EY"@,
        types::arpabet_of("f"@) == "F"@,
        types::arpabet_of("g"@) == "G"@,
        types::arpabet_of("h"@) == "HH"@,
        types::arpabet_of("ɪ"@) == "IH"@,
        types::arpabet_of("i"@) == "IY"@,
        types::arpabet_of("dʒ"@) == "JH"@,
{
    lemma_ipa_texts();
    lemma_plain("ð"@);
    lemma_plain("ɛ"@);
    lemma_plain("ɜr"@);
    lemma_plain("eɪ"@);
    lemma_plain("f"@);
    lemma_plain("g"@);
    lemma_plain("h"@);
    lemma_plain("ɪ"@);
    lemma_plain("i"@);
    lemma_plain("dʒ"@);
}

#[verifier::rlimit(60)]
proof fn lemma_ipa_2()
    ensures
        arpabet::ipa_of("K"@) == "k"@,
        arpabet::ipa_of("L"@) == "l"@,
        arpabet::ipa_of("M"@) == "m"@,
        arpabet::ipa_of("N"@) == "n"@,
        arpabet::ipa_of("NG"@) == "ŋ"@,
        arpabet::ipa_of("OW"@) == "oʊ"@,
        arpabet::ipa_of("OY"@) == "ɔɪ"@,
        arpabet::ipa_of("P"@) == "p"@,
        arpabet::ipa_of("R"@) == "r"@,
        arpabet::ipa_of("S"@) == "s"@,
{
    lemma_arpabet_texts();
}

#[verifier::rlimit(60)]
proof fn lemma_codes_2()
    ensures
        types::arpabet_of("k"@) == "K"@,
        types::arpabet_of("l"@) == "L"@,
        types::arpabet_of("m"@) == "M"@,
        types::arpabet_of("n"@) == "N"@,
        types::arpabet_of("ŋ"@) == "NG"@,
        types::arpabet_of("oʊ"@) == "OW"@,
        types::arpabet_of("ɔɪ"@) == "OY"@,
        types::arpabet_of("p"@) == "P"@,
        types::arpabet_of("r"@) == "R"@,
        types::arpabet_of("s"@) == "S"@,
{
    lemma_ipa_texts();
    lemma_plain("k"@);
    lemma_plain("l"@);
    lemma_plain("m"@);
    lemma_plain("n"@);
    lemma_plain("ŋ"@);
    lemma_plain("oʊ"@);
    lemma_plain("ɔɪ"@);
    lemma_plain("p"@);
    lemma_plain("r"@);
    lemma_plain("s"@);
}

#[verifier::rlimit(60)]
proof fn lemma_ipa_3()
    ensures
        arpabet::ipa_of("SH"@) == "ʃ"@,
        arpabet::ipa_of("T"@) == "t"@,
        arpabet::ipa_of("TH"@) == "θ"@,
        arpabet::ipa_of("UH"@) == "ʊ"@,
        arpabet::ipa_of("UW"@) == "u"@,
        arpabet::ipa_of("V"@) == "v"@,
        arpabet::ipa_of("W"@) == "w"@,
        arpabet::ipa_of("Y"@) == "j"@,
        arpabet::ipa_of("Z"@) == "z"@,
        arpabet::ipa_of("ZH"@) == "ʒ"@,
{
    lemma_arpabet_texts();
}

#[verifier::rlimit(60)]
proof fn lemma_codes_3()
    ensures
        types::arpabet_of("ʃ"@) == "SH"@,
        types::arpabet_of("t"@) == "T"@,
        types::arpabet_of("θ"@) == "TH"@,
        types::arpabet_of("ʊ"@) == "UH"@,
        types::arpabet_of("u"@) == "UW"@,
        types::arpabet_of("v"@) == "V"@,
        types::arpabet_of("w"@) == "W"@,
        types::arpabet_of("j"@) == "Y"@,
        types::arpabet_of("z"@) == "Z"@,
        types::arpabet_of("ʒ"@) == "ZH"@,
{
    lemma_ipa_texts();
    lemma_plain("ʃ"@);
    lemma_plain("t"@);
    lemma_plain("θ"@);
    lemma_plain("ʊ"@);
    lemma_plain("u"@);
    lemma_plain("v"@);
    lemma_plain("w"@);
    lemma_plain("j"@);
    lemma_plain("z"@);
    lemma_plain("ʒ"@);
}

/// A symbol of the model, written as IPA and read back, is what it was.
pub proof fn law_symbols_survive_the_other_notation(i: int)
    requires
        0 <= i < 40,
    ensures
        types::arpabet_of(arpabet::ipa_of(phoneme_map::inventory()[i]))
            == phoneme_map::inventory()[i],
{
    lemma_ipa_0();
    lemma_codes_0();
    lemma_ipa_1();
    lemma_codes_1();
    lemma_ipa_2();
    lemma_codes_2();
    lemma_ipa_3();
    lemma_codes_3();
}

/// No two symbols of the model are written alike as IPA.
pub proof fn law_symbols_are_written_differently(i: int, j: int)
    requires
        0 <= i < j < 40,
    ensures
        arpabet::ipa_of(phoneme_map::inventory()[i]) != arpabet::ipa_of(
            phoneme_map::inventory()[j],
        ),
{
    law_symbols_survive_the_other_notation(i);
    law_symbols_survive_the_other_notation(j);
    phoneme_map::law_symbol_index_is_place(i);
    phoneme_map::law_symbol_index_is_place(j);
}

} // verus!
