//! The dictionary, the sounds of its symbols, and the sounds of letters, endings
//! and beginnings.

use vstd::prelude::*;

use crate::g2p::types::{Phoneme, PhonemeView};
use crate::g2p::{arpabet, cmudict, types};
use crate::phoneme_map::Entries;
use crate::text::Separator;
use crate::{phoneme_map, text};

verus! {

// ---------------------------------------------------------------------------
// Lines
// ---------------------------------------------------------------------------

/// Whether line `i` is the first that has an entry for a word.
pub open spec fn first_entry(lines: Seq<Seq<char>>, i: int, word: Seq<char>) -> bool {
    &&& 0 <= i < lines.len()
    &&& cmudict::line_entry(lines[i]) is Some
    &&& (cmudict::line_entry(lines[i])->0).0 == word
    &&& forall|j: int|
        0 <= j < i ==> (cmudict::line_entry(#[trigger] lines[j]) matches Some((w, _)) ==> w != word)
}

/// A word has the pronunciation of the first line that has an entry for it.
pub proof fn law_first_entry_of_a_word(lines: Seq<Seq<char>>, word: Seq<char>, i: int)
    requires
        first_entry(lines, i, word),
    ensures
        cmudict::dictionary(lines).contains_key(word),
        cmudict::dictionary(lines)[word] == (cmudict::line_entry(lines[i])->0).1,
    decreases lines.len(),
{
    let front = lines.drop_last();
    if i < front.len() {
        assert(front[i] == lines[i]);
        assert forall|j: int| 0 <= j < i implies (cmudict::line_entry(#[trigger] front[j]) matches Some(
            (w, _),
        ) ==> w != word) by {
            assert(front[j] == lines[j]);
        }
        law_first_entry_of_a_word(front, word, i);
    } else {
        assert forall|j: int| 0 <= j < front.len() implies (cmudict::line_entry(
            #[trigger] front[j],
        ) matches Some((w, _)) ==> w != word) by {
            assert(front[j] == lines[j]);
        }
        law_word_without_entry(front, word);
    }
}

/// A word for which no line has an entry is not in the dictionary.
pub proof fn law_word_without_entry(lines: Seq<Seq<char>>, word: Seq<char>)
    requires
        forall|j: int|
            0 <= j < lines.len() ==> (cmudict::line_entry(#[trigger] lines[j]) matches Some((w, _))
                ==> w != word),
    ensures
        !cmudict::dictionary(lines).contains_key(word),
    decreases lines.len(),
{
    if lines.len() > 0 {
        let front = lines.drop_last();
        assert forall|j: int| 0 <= j < front.len() implies (cmudict::line_entry(
            #[trigger] front[j],
        ) matches Some((w, _)) ==> w != word) by {
            assert(front[j] == lines[j]);
        }
        assert(lines[lines.len() - 1] == lines.last());
        law_word_without_entry(front, word);
    }
}

/// A comment has no entry, nor has a line with nothing behind its word; every
/// other line has one under the word that it starts with, in lower case and
/// without the number of a variant.
pub proof fn law_entry_of_a_line(line: Seq<char>, base: Seq<char>, variant: Seq<char>)
    requires
        !base.contains('('),
        variant.len() > 0 ==> variant[0] == '(',
    ensures
        ";;;"@.is_prefix_of(line) ==> cmudict::line_entry(line) is None,
        text::runs(line, Separator::Whitespace).len() < 2 ==> cmudict::line_entry(line) is None,
        ({
            let fields = text::runs(line, Separator::Whitespace);
            !";;;"@.is_prefix_of(line) && fields.len() >= 2 && fields[0] == base + variant
                && !(fields[1].len() > 0 && fields[1][0] == '#') ==> cmudict::line_entry(line)
                == Some((text::lowered(base), cmudict::sounds(fields.skip(1))))
        }),
{
    let fields = text::runs(line, Separator::Whitespace);
    if !";;;"@.is_prefix_of(line) && fields.len() >= 2 && fields[0] == base + variant {
        lemma_run_before_mark(base, variant);
        assert((base + variant).take(base.len() as int) =~= base);
        let rest = fields.skip(1);
        assert(rest[0] == fields[1]);
    }
}

proof fn lemma_run_before_mark(base: Seq<char>, rest: Seq<char>)
    requires
        !base.contains('('),
        rest.len() > 0 ==> rest[0] == '(',
    ensures
        text::run_len(base + rest, Separator::Mark('(')) == base.len(),
    decreases base.len(),
{
    if base.len() > 0 {
        let tail = base.drop_first();
        assert(base.contains(base[0]));
        assert(!tail.contains('(')) by {
            if tail.contains('(') {
                let i = choose|i: int| 0 <= i < tail.len() && tail[i] == '(';
                assert(base[i + 1] == '(');
            }
        }
        lemma_run_before_mark(tail, rest);
        assert((base + rest).drop_first() =~= tail + rest);
        assert((base + rest).skip(1) =~= tail + rest);
    } else {
        assert(base + rest =~= rest);
    }
}

/// The symbols of a line are sounds one by one, up to a comment.
pub proof fn law_sounds_of_symbols(symbols: Seq<Seq<char>>, comment: Seq<Seq<char>>, i: int)
    requires
        forall|k: int|
            0 <= k < symbols.len() ==> !((#[trigger] symbols[k]).len() > 0 && symbols[k][0] == '#'),
        comment.len() > 0 ==> comment[0].len() > 0 && comment[0][0] == '#',
        0 <= i < symbols.len(),
    ensures
        cmudict::sounds(symbols + comment).len() == symbols.len(),
        cmudict::sounds(symbols + comment)[i] == cmudict::sound_of(symbols[i]),
    decreases symbols.len(),
{
    let all = symbols + comment;
    let rest = symbols.drop_first();
    assert(all[0] == symbols[0]);
    assert(all.drop_first() =~= rest + comment);
    assert forall|k: int| 0 <= k < rest.len() implies !((#[trigger] rest[k]).len() > 0 && rest[k][0]
        == '#') by {
        assert(rest[k] == symbols[k + 1]);
    }
    if rest.len() > 0 {
        law_sounds_of_symbols(
            rest,
            comment,
            if i > 0 {
                i - 1
            } else {
                0
            },
        );
    } else {
        assert(rest + comment =~= comment);
        assert(cmudict::sounds(comment) =~= seq![]);
    }
}

/// A word given twice has the pronunciation that was given last.
pub proof fn law_last_given_pronunciation(
    entries: Seq<(String, Vec<Phoneme>)>,
    word: Seq<char>,
    i: int,
)
    requires
        0 <= i < entries.len(),
        entries[i].0@ == word,
        forall|j: int| i < j < entries.len() ==> (#[trigger] entries[j]).0@ != word,
    ensures
        cmudict::entry_map(entries).contains_key(word),
        cmudict::entry_map(entries)[word] == entries[i].1@.map_values(|p: Phoneme| p@),
    decreases entries.len(),
{
    let front = entries.drop_last();
    if i < front.len() {
        assert(entries[entries.len() - 1].0@ != word);
        assert(front[i] == entries[i]);
        assert forall|j: int| i < j < front.len() implies (#[trigger] front[j]).0@ != word by {
            assert(entries[j].0@ != word);
        }
        law_last_given_pronunciation(front, word, i);
    }
}

/// A word that was not given has no pronunciation.
pub proof fn law_word_not_given(entries: Seq<(String, Vec<Phoneme>)>, word: Seq<char>)
    requires
        forall|j: int| 0 <= j < entries.len() ==> (#[trigger] entries[j]).0@ != word,
    ensures
        !cmudict::entry_map(entries).contains_key(word),
    decreases entries.len(),
{
    if entries.len() > 0 {
        let front = entries.drop_last();
        assert(entries[entries.len() - 1].0@ != word);
        assert forall|j: int| 0 <= j < front.len() implies (#[trigger] front[j]).0@ != word by {
            assert(entries[j].0@ != word);
        }
        law_word_not_given(front, word);
    }
}

/// A word is looked up in lower case, and given only where the dictionary has it.
pub proof fn law_words_are_looked_up_in_lower_case(dict: Entries, word: Seq<char>)
    ensures
        dict.contains_key(text::lowered(word)) ==> cmudict::pronunciation_in(dict, word) == Some(
            dict[text::lowered(word)],
        ),
        !dict.contains_key(text::lowered(word)) ==> cmudict::pronunciation_in(dict, word) is None,
{
}

// ---------------------------------------------------------------------------
// Symbols
// ---------------------------------------------------------------------------

/// The mark of stress at the end of a symbol is its level, and the symbol without
/// it has the same sound.
pub proof fn law_marks_of_stress(symbol: Seq<char>, mark: char)
    requires
        symbol.len() > 0 ==> !('0' <= symbol.last() <= '2'),
    ensures
        '0' <= mark <= '2' ==> arpabet::without_stress(symbol.push(mark)) == symbol,
        '0' <= mark <= '2' ==> cmudict::sound_of(symbol.push(mark)) == cmudict::sound_of(symbol),
        arpabet::stress_level(symbol.push('0')) == 0,
        arpabet::stress_level(symbol.push('1')) == 1,
        arpabet::stress_level(symbol.push('2')) == 2,
        arpabet::without_stress(symbol) == symbol,
        arpabet::stress_level(symbol) == 0,
{
    assert(symbol.push(mark).drop_last() =~= symbol);
}

/// A phoneme is written as it was read, but for the two that may be long.
pub proof fn law_phonemes_are_written_as_read(symbol: Seq<char>)
    ensures
        symbol != "iː"@ && symbol != "uː"@ ==> PhonemeView::of_ipa(symbol).ipa() == symbol,
        PhonemeView::of_ipa("iː"@) == PhonemeView::of_ipa("i"@),
        PhonemeView::of_ipa("uː"@) == PhonemeView::of_ipa("u"@),
{
    reveal_strlit("iː");
    reveal_strlit("i");
    reveal_strlit("uː");
    reveal_strlit("u");
    reveal_strlit("ɑ");
    reveal_strlit("æ");
    reveal_strlit("ə");
    assert("u"@[0] != "i"@[0]);
    assert("uː"@[0] != "iː"@[0]);
    assert("uː"@.len() == 2);
    assert("u"@[0] != "ɑ"@[0]);
    assert("u"@[0] != "æ"@[0]);
    assert("u"@[0] != "ə"@[0]);
    assert("u"@.len() == 1 && "i"@.len() == 1 && "iː"@.len() == 2);
}

/// A diacritic, wherever it stands, does not change a symbol.
pub proof fn law_diacritics_do_not_matter(a: Seq<char>, mark: char, b: Seq<char>)
    requires
        types::is_diacritic(mark),
    ensures
        types::plain(a.push(mark) + b) == types::plain(a + b),
        types::arpabet_of(a.push(mark) + b) == types::arpabet_of(a + b),
{
    reveal(Seq::filter);
    let keep = |c: char| !types::is_diacritic(c);
    Seq::filter_distributes_over_add(a.push(mark), b, keep);
    Seq::filter_distributes_over_add(a, b, keep);
    assert(a.push(mark).drop_last() =~= a);
}

/// The indices of phonemes are those of the ones that are known, in order.
pub proof fn law_indices_of_phonemes(phonemes: Seq<PhonemeView>)
    ensures
        phoneme_map::phoneme_indices(phonemes) == phonemes.filter_map(
            |p: PhonemeView| phoneme_map::ipa_index(p.ipa()),
        ),
    decreases phonemes.len(),
{
    let f = |p: PhonemeView| phoneme_map::ipa_index(p.ipa());
    if phonemes.len() > 0 {
        law_indices_of_phonemes(phonemes.drop_last());
    }
    assert(phoneme_map::phoneme_indices(phonemes) =~= phonemes.filter_map(f));
}

// ---------------------------------------------------------------------------
// Sounds by index
// ---------------------------------------------------------------------------

proof fn lemma_indices_of(symbols: Seq<Seq<char>>, indices: Seq<i32>, places: Seq<int>)
    requires
        symbols.len() == indices.len(),
        symbols.len() == places.len(),
        forall|i: int|
            0 <= i < symbols.len() ==> 0 <= #[trigger] places[i] < 40 && symbols[i]
                == phoneme_map::inventory()[places[i]] && indices[i] == places[i] + 1,
    ensures
        symbols.filter_map(|s: Seq<char>| phoneme_map::symbol_index(s)) == indices,
    decreases symbols.len(),
{
    let f = |s: Seq<char>| phoneme_map::symbol_index(s);
    if symbols.len() > 0 {
        let n = symbols.len() - 1;
        assert(0 <= places[n] < 40);
        phoneme_map::law_symbol_index_is_place(places[n]);
        assert forall|i: int| 0 <= i < n implies 0 <= #[trigger] places.drop_last()[i] < 40
            && symbols.drop_last()[i] == phoneme_map::inventory()[places.drop_last()[i]]
            && indices.drop_last()[i] == places.drop_last()[i] + 1 by {
            assert(0 <= places[i] < 40);
        }
        lemma_indices_of(symbols.drop_last(), indices.drop_last(), places.drop_last());
        assert(symbols.filter_map(f) =~= indices);
    } else {
        assert(symbols.filter_map(f) =~= indices);
    }
}

/// The endings that are looked for, in order, with the indices of their sounds.
pub open spec fn endings() -> Seq<(Seq<char>, Seq<i32>)> {
    seq![
        ("TION"@, seq![31i32, 3i32, 24i32]),
        ("SION"@, seq![40i32, 3i32, 24i32]),
        ("NESS"@, seq![24i32, 3i32, 30i32]),
        ("MENT"@, seq![23i32, 3i32, 24i32, 32i32]),
        ("ABLE"@, seq![3i32, 8i32, 3i32, 22i32]),
        ("IBLE"@, seq![3i32, 8i32, 3i32, 22i32]),
        ("LING"@, seq![22i32, 18i32, 25i32]),
        ("INGS"@, seq![18i32, 25i32, 39i32]),
        ("ALLY"@, seq![3i32, 22i32, 19i32]),
        ("EOUS"@, seq![19i32, 3i32, 30i32]),
        ("IOUS"@, seq![19i32, 3i32, 30i32]),
        ("ICAL"@, seq![18i32, 21i32, 3i32, 22i32]),
        ("LESS"@, seq![22i32, 3i32, 30i32]),
        ("FUL"@, seq![15i32, 3i32, 22i32]),
        ("EST"@, seq![3i32, 30i32, 32i32]),
        ("ING"@, seq![18i32, 25i32]),
        ("LY"@, seq![22i32, 19i32]),
        ("ED"@, seq![10i32]),
        ("ER"@, seq![13i32]),
        ("EN"@, seq![3i32, 24i32]),
        ("ES"@, seq![18i32, 39i32]),
    ]
}

/// The beginnings that are looked for, in order, with the indices of their sounds.
pub open spec fn beginnings() -> Seq<(Seq<char>, Seq<i32>)> {
    seq![
        ("OVER"@, seq![26i32, 36i32, 13i32]),
        ("UNDER"@, seq![3i32, 24i32, 10i32, 13i32]),
        ("FORE"@, seq![15i32, 4i32, 29i32]),
        ("MIS"@, seq![23i32, 18i32, 30i32]),
        ("OUT"@, seq![5i32, 32i32]),
        ("PRE"@, seq![28i32, 29i32, 19i32]),
        ("UN"@, seq![3i32, 24i32]),
        ("RE"@, seq![29i32, 19i32]),
    ]
}

spec fn places_in_endings(k: int) -> Seq<int> {
    seq![
        seq![30int, 2int, 23int],
        seq![39int, 2int, 23int],
        seq![23int, 2int, 29int],
        seq![22int, 2int, 23int, 31int],
        seq![2int, 7int, 2int, 21int],
        seq![2int, 7int, 2int, 21int],
        seq![21int, 17int, 24int],
        seq![17int, 24int, 38int],
        seq![2int, 21int, 18int],
        seq![18int, 2int, 29int],
        seq![18int, 2int, 29int],
        seq![17int, 20int, 2int, 21int],
        seq![21int, 2int, 29int],
        seq![14int, 2int, 21int],
        seq![2int, 29int, 31int],
        seq![17int, 24int],
        seq![21int, 18int],
        seq![9int],
        seq![12int],
        seq![2int, 23int],
        seq![17int, 38int],
    ][k]
}

/// An ending has the sounds of the table, and stands at its place in the order.
#[verifier::rlimit(40)]
pub proof fn law_endings(k: int)
    requires
        0 <= k < 21,
    ensures
        phoneme_map::suffix_rules().len() == 21,
        phoneme_map::suffix_rules()[k].0 == endings()[k].0,
        phoneme_map::suffix_rules()[k].1.filter_map(|s: Seq<char>| phoneme_map::symbol_index(s))
            == endings()[k].1,
{
    let sounds = phoneme_map::suffix_rules()[k].1;
    lemma_indices_of(sounds, endings()[k].1, places_in_endings(k));
}

spec fn places_in_beginnings(k: int) -> Seq<int> {
    seq![
        seq![25int, 35int, 12int],
        seq![2int, 23int, 9int, 12int],
        seq![14int, 3int, 28int],
        seq![22int, 17int, 29int],
        seq![4int, 31int],
        seq![27int, 28int, 18int],
        seq![2int, 23int],
        seq![28int, 18int],
    ][k]
}

/// A beginning has the sounds of the table, and stands at its place in the order.
#[verifier::rlimit(40)]
pub proof fn law_beginnings(k: int)
    requires
        0 <= k < 8,
    ensures
        phoneme_map::prefix_rules().len() == 8,
        phoneme_map::prefix_rules()[k].0 == beginnings()[k].0,
        phoneme_map::prefix_rules()[k].1.filter_map(|s: Seq<char>| phoneme_map::symbol_index(s))
            == beginnings()[k].1,
{
    let sounds = phoneme_map::prefix_rules()[k].1;
    lemma_indices_of(sounds, beginnings()[k].1, places_in_beginnings(k));
}

/// The indices of the sounds that a letter stands for by itself.
pub open spec fn letter_sounds(c: char) -> Seq<i32> {
    if c == 'A' {
        seq![2i32]
    } else if c == 'B' {
        seq![8i32]
    } else if c == 'C' {
        seq![21i32]
    } else if c == 'D' {
        seq![10i32]
    } else if c == 'E' {
        seq![12i32]
    } else if c == 'F' {
        seq![15i32]
    } else if c == 'G' {
        seq![16i32]
    } else if c == 'H' {
        seq![17i32]
    } else if c == 'I' {
        seq![18i32]
    } else if c == 'J' {
        seq![20i32]
    } else if c == 'K' {
        seq![21i32]
    } else if c == 'L' {
        seq![22i32]
    } else if c == 'M' {
        seq![23i32]
    } else if c == 'N' {
        seq![24i32]
    } else if c == 'O' {
        seq![1i32]
    } else if c == 'P' {
        seq![28i32]
    } else if c == 'Q' {
        seq![21i32]
    } else if c == 'R' {
        seq![29i32]
    } else if c == 'S' {
        seq![30i32]
    } else if c == 'T' {
        seq![32i32]
    } else if c == 'U' {
        seq![3i32]
    } else if c == 'V' {
        seq![36i32]
    } else if c == 'W' {
        seq![37i32]
    } else if c == 'X' {
        seq![21i32, 30i32]
    } else if c == 'Y' {
        seq![19i32]
    } else if c == 'Z' {
        seq![39i32]
    } else {
        seq![]
    }
}

spec fn letter_places(c: char) -> Seq<int> {
    if c == 'A' {
        seq![1int]
    } else if c == 'B' {
        seq![7int]
    } else if c == 'C' {
        seq![20int]
    } else if c == 'D' {
        seq![9int]
    } else if c == 'E' {
        seq![11int]
    } else if c == 'F' {
        seq![14int]
    } else if c == 'G' {
        seq![15int]
    } else if c == 'H' {
        seq![16int]
    } else if c == 'I' {
        seq![17int]
    } else if c == 'J' {
        seq![19int]
    } else if c == 'K' {
        seq![20int]
    } else if c == 'L' {
        seq![21int]
    } else if c == 'M' {
        seq![22int]
    } else if c == 'N' {
        seq![23int]
    } else if c == 'O' {
        seq![0int]
    } else if c == 'P' {
        seq![27int]
    } else if c == 'Q' {
        seq![20int]
    } else if c == 'R' {
        seq![28int]
    } else if c == 'S' {
        seq![29int]
    } else if c == 'T' {
        seq![31int]
    } else if c == 'U' {
        seq![2int]
    } else if c == 'V' {
        seq![35int]
    } else if c == 'W' {
        seq![36int]
    } else if c == 'X' {
        seq![20int, 29int]
    } else if c == 'Y' {
        seq![18int]
    } else if c == 'Z' {
        seq![38int]
    } else {
        seq![]
    }
}

/// A letter by itself has the sounds of the table; every capital has one, and no
/// other character has any.
#[verifier::rlimit(40)]
pub proof fn law_sounds_of_a_letter(c: char)
    ensures
        phoneme_map::letter_symbols(c).filter_map(|s: Seq<char>| phoneme_map::symbol_index(s))
            == letter_sounds(c),
        letter_sounds(c).len() > 0 <==> 'A' <= c <= 'Z',
{
    lemma_indices_of(phoneme_map::letter_symbols(c), letter_sounds(c), letter_places(c));
}

/// The index of the sound that two letters stand for together.
pub open spec fn pair_sound(a: char, b: char) -> Option<i32> {
    if a == 'T' && b == 'H' {
        Some(33)
    } else if a == 'S' && b == 'H' {
        Some(31)
    } else if a == 'C' && b == 'H' {
        Some(9)
    } else if a == 'P' && b == 'H' {
        Some(15)
    } else if a == 'W' && b == 'H' {
        Some(37)
    } else if a == 'N' && b == 'G' {
        Some(25)
    } else if a == 'C' && b == 'K' {
        Some(21)
    } else if a == 'E' && b == 'E' {
        Some(19)
    } else if a == 'E' && b == 'A' {
        Some(19)
    } else if a == 'O' && b == 'O' {
        Some(35)
    } else if a == 'A' && b == 'I' {
        Some(14)
    } else if a == 'A' && b == 'Y' {
        Some(14)
    } else if a == 'O' && b == 'I' {
        Some(27)
    } else if a == 'O' && b == 'Y' {
        Some(27)
    } else if a == 'O' && b == 'U' {
        Some(5)
    } else if a == 'O' && b == 'W' {
        Some(26)
    } else if a == 'A' && b == 'U' {
        Some(4)
    } else if a == 'A' && b == 'W' {
        Some(4)
    } else if a == 'E' && b == 'I' {
        Some(14)
    } else if a == 'E' && b == 'Y' {
        Some(14)
    } else if a == 'I' && b == 'E' {
        Some(19)
    } else {
        None
    }
}

proof fn lemma_pair_texts()
    ensures
        "TH"@ == seq!['T', 'H'],
        "SH"@ == seq!['S', 'H'],
        "CH"@ == seq!['C', 'H'],
        "PH"@ == seq!['P', 'H'],
        "WH"@ == seq!['W', 'H'],
        "NG"@ == seq!['N', 'G'],
        "CK"@ == seq!['C', 'K'],
        "EE"@ == seq!['E', 'E'],
        "EA"@ == seq!['E', 'A'],
        "OO"@ == seq!['O', 'O'],
        "AI"@ == seq!['A', 'I'],
        "AY"@ == seq!['A', 'Y'],
        "OI"@ == seq!['O', 'I'],
        "OY"@ == seq!['O', 'Y'],
        "OU"@ == seq!['O', 'U'],
        "OW"@ == seq!['O', 'W'],
        "AU"@ == seq!['A', 'U'],
        "AW"@ == seq!['A', 'W'],
        "EI"@ == seq!['E', 'I'],
        "EY"@ == seq!['E', 'Y'],
        "IE"@ == seq!['I', 'E'],
        "GH"@ == seq!['G', 'H'],
{
    reveal_strlit("TH");
    reveal_strlit("SH");
    reveal_strlit("CH");
    reveal_strlit("PH");
    reveal_strlit("WH");
    reveal_strlit("NG");
    reveal_strlit("CK");
    reveal_strlit("EE");
    reveal_strlit("EA");
    reveal_strlit("OO");
    reveal_strlit("AI");
    reveal_strlit("AY");
    reveal_strlit("OI");
    reveal_strlit("OY");
    reveal_strlit("OU");
    reveal_strlit("OW");
    reveal_strlit("AU");
    reveal_strlit("AW");
    reveal_strlit("EI");
    reveal_strlit("EY");
    reveal_strlit("IE");
    reveal_strlit("GH");
    assert("TH"@ =~= seq!['T', 'H']);
    assert("SH"@ =~= seq!['S', 'H']);
    assert("CH"@ =~= seq!['C', 'H']);
    assert("PH"@ =~= seq!['P', 'H']);
    assert("WH"@ =~= seq!['W', 'H']);
    assert("NG"@ =~= seq!['N', 'G']);
    assert("CK"@ =~= seq!['C', 'K']);
    assert("EE"@ =~= seq!['E', 'E']);
    assert("EA"@ =~= seq!['E', 'A']);
    assert("OO"@ =~= seq!['O', 'O']);
    assert("AI"@ =~= seq!['A', 'I']);
    assert("AY"@ =~= seq!['A', 'Y']);
    assert("OI"@ =~= seq!['O', 'I']);
    assert("OY"@ =~= seq!['O', 'Y']);
    assert("OU"@ =~= seq!['O', 'U']);
    assert("OW"@ =~= seq!['O', 'W']);
    assert("AU"@ =~= seq!['A', 'U']);
    assert("AW"@ =~= seq!['A', 'W']);
    assert("EI"@ =~= seq!['E', 'I']);
    assert("EY"@ =~= seq!['E', 'Y']);
    assert("IE"@ =~= seq!['I', 'E']);
    assert("GH"@ =~= seq!['G', 'H']);
}

/// Two letters together have the sound of the table; no other pair has one.
#[verifier::rlimit(60)]
pub proof fn law_sound_of_a_pair(a: char, b: char)
    ensures
        match phoneme_map::digraph_symbol(seq![a, b]) {
            Some(symbol) => pair_sound(a, b) is Some && phoneme_map::symbol_index(symbol)
                == pair_sound(a, b),
            None => pair_sound(a, b) is None,
        },
{
    lemma_pair_texts();
    let s = seq![a, b];
    assert(s[0] == a && s[1] == b);
    assert(s == "TH"@ <==> a == 'T' && b == 'H') by {
        if a == 'T' && b == 'H' {
            assert(s =~= seq!['T', 'H']);
        }
    }
    assert(s == "SH"@ <==> a == 'S' && b == 'H') by {
        if a == 'S' && b == 'H' {
            assert(s =~= seq!['S', 'H']);
        }
    }
    assert(s == "CH"@ <==> a == 'C' && b == 'H') by {
        if a == 'C' && b == 'H' {
            assert(s =~= seq!['C', 'H']);
        }
    }
    assert(s == "PH"@ <==> a == 'P' && b == 'H') by {
        if a == 'P' && b == 'H' {
            assert(s =~= seq!['P', 'H']);
        }
    }
    assert(s == "WH"@ <==> a == 'W' && b == 'H') by {
        if a == 'W' && b == 'H' {
            assert(s =~= seq!['W', 'H']);
        }
    }
    assert(s == "NG"@ <==> a == 'N' && b == 'G') by {
        if a == 'N' && b == 'G' {
            assert(s =~= seq!['N', 'G']);
        }
    }
    assert(s == "CK"@ <==> a == 'C' && b == 'K') by {
        if a == 'C' && b == 'K' {
            assert(s =~= seq!['C', 'K']);
        }
    }
    assert(s == "EE"@ <==> a == 'E' && b == 'E') by {
        if a == 'E' && b == 'E' {
            assert(s =~= seq!['E', 'E']);
        }
    }
    assert(s == "EA"@ <==> a == 'E' && b == 'A') by {
        if a == 'E' && b == 'A' {
            assert(s =~= seq!['E', 'A']);
        }
    }
    assert(s == "OO"@ <==> a == 'O' && b == 'O') by {
        if a == 'O' && b == 'O' {
            assert(s =~= seq!['O', 'O']);
        }
    }
    assert(s == "AI"@ <==> a == 'A' && b == 'I') by {
        if a == 'A' && b == 'I' {
            assert(s =~= seq!['A', 'I']);
        }
    }
    assert(s == "AY"@ <==> a == 'A' && b == 'Y') by {
        if a == 'A' && b == 'Y' {
            assert(s =~= seq!['A', 'Y']);
        }
    }
    assert(s == "OI"@ <==> a == 'O' && b == 'I') by {
        if a == 'O' && b == 'I' {
            assert(s =~= seq!['O', 'I']);
        }
    }
    assert(s == "OY"@ <==> a == 'O' && b == 'Y') by {
        if a == 'O' && b == 'Y' {
            assert(s =~= seq!['O', 'Y']);
        }
    }
    assert(s == "OU"@ <==> a == 'O' && b == 'U') by {
        if a == 'O' && b == 'U' {
            assert(s =~= seq!['O', 'U']);
        }
    }
    assert(s == "OW"@ <==> a == 'O' && b == 'W') by {
        if a == 'O' && b == 'W' {
            assert(s =~= seq!['O', 'W']);
        }
    }
    assert(s == "AU"@ <==> a == 'A' && b == 'U') by {
        if a == 'A' && b == 'U' {
            assert(s =~= seq!['A', 'U']);
        }
    }
    assert(s == "AW"@ <==> a == 'A' && b == 'W') by {
        if a == 'A' && b == 'W' {
            assert(s =~= seq!['A', 'W']);
        }
    }
    assert(s == "EI"@ <==> a == 'E' && b == 'I') by {
        if a == 'E' && b == 'I' {
            assert(s =~= seq!['E', 'I']);
        }
    }
    assert(s == "EY"@ <==> a == 'E' && b == 'Y') by {
        if a == 'E' && b == 'Y' {
            assert(s =~= seq!['E', 'Y']);
        }
    }
    assert(s == "IE"@ <==> a == 'I' && b == 'E') by {
        if a == 'I' && b == 'E' {
            assert(s =~= seq!['I', 'E']);
        }
    }
    assert(s == "GH"@ <==> a == 'G' && b == 'H') by {
        if a == 'G' && b == 'H' {
            assert(s =~= seq!['G', 'H']);
        }
    }
    phoneme_map::law_symbol_index_is_place(3);
    phoneme_map::law_symbol_index_is_place(4);
    phoneme_map::law_symbol_index_is_place(8);
    phoneme_map::law_symbol_index_is_place(13);
    phoneme_map::law_symbol_index_is_place(14);
    phoneme_map::law_symbol_index_is_place(18);
    phoneme_map::law_symbol_index_is_place(20);
    phoneme_map::law_symbol_index_is_place(24);
    phoneme_map::law_symbol_index_is_place(25);
    phoneme_map::law_symbol_index_is_place(26);
    phoneme_map::law_symbol_index_is_place(30);
    phoneme_map::law_symbol_index_is_place(32);
    phoneme_map::law_symbol_index_is_place(34);
    phoneme_map::law_symbol_index_is_place(36);
}
} // verus!
