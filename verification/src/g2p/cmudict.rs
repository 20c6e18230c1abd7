//! The CMU pronouncing dictionary.
//!
//! A line of the dictionary holds a word and its phonemes in ARPABET:
//!
//! ```text
//! hello HH AH0 L OW1
//! world W ER1 L D
//! ```
//!
//! A parenthesised number marks a further pronunciation of the same word, `#`
//! starts a comment after the phonemes, and `;;;` one that fills the line.

use vstd::hash_map::StringHashMap;
use vstd::prelude::*;

use super::arpabet::{arpabet_to_ipa, parse_arpabet_stress};
use super::types::{Phoneme, PhonemeView};
use super::{arpabet, types, G2pLookup};
use crate::text;
use crate::text::{chars_of, lowercase, slice_of, split_lines, split_runs, starts_with, string_of, Separator};

verus! {

/// Pronunciation dictionary for English.
///
/// Seen as a map from words in lower case to their phonemes.
pub struct CmuDict {
    entries: StringHashMap<Vec<Phoneme>>,
}

impl View for CmuDict {
    type V = Map<Seq<char>, Seq<PhonemeView>>;

    closed spec fn view(&self) -> Map<Seq<char>, Seq<PhonemeView>> {
        self.entries@.map_values(|v: Vec<Phoneme>| types::phoneme_views(v@))
    }
}

/// What `dict` says of `word`, whatever the case it is written in.
pub open spec fn pronunciation_in(
    dict: Map<Seq<char>, Seq<PhonemeView>>,
    word: Seq<char>,
) -> Option<Seq<PhonemeView>> {
    if dict.contains_key(text::lowered(word)) {
        Some(dict[text::lowered(word)])
    } else {
        None
    }
}

/// The phoneme that an ARPABET symbol of the dictionary stands for; a symbol
/// that ARPABET lacks is kept as it is.
pub open spec fn sound_of(symbol: Seq<char>) -> PhonemeView {
    let base = arpabet::without_stress(symbol);
    let ipa = arpabet::ipa_of(base);
    if ipa.len() == 0 {
        PhonemeView::Custom(base)
    } else {
        PhonemeView::of_ipa(ipa)
    }
}

/// The phonemes of the symbols before the first that starts with `#`.
pub open spec fn sounds(symbols: Seq<Seq<char>>) -> Seq<PhonemeView>
    decreases symbols.len(),
{
    if symbols.len() == 0 || (symbols[0].len() > 0 && symbols[0][0] == '#') {
        seq![]
    } else {
        seq![sound_of(symbols[0])] + sounds(symbols.drop_first())
    }
}

/// The word at the head of a line, without the number of a further
/// pronunciation.
pub open spec fn head_word(field: Seq<char>) -> Seq<char> {
    text::lowered(field.take(text::run_len(field, Separator::Mark('(')) as int))
}

/// The word and the phonemes on a line; `None` for a comment and for a line
/// that lacks either.
pub open spec fn line_entry(line: Seq<char>) -> Option<(Seq<char>, Seq<PhonemeView>)> {
    let fields = text::runs(line, Separator::Whitespace);
    if ";;;"@.is_prefix_of(line) || fields.len() < 2 {
        None
    } else {
        let phonemes = sounds(fields.skip(1));
        if phonemes.len() == 0 {
            None
        } else {
            Some((head_word(fields[0]), phonemes))
        }
    }
}

/// The dictionary that the lines of a text make: the first pronunciation of a
/// word stays.
pub open spec fn dictionary(lines: Seq<Seq<char>>) -> Map<Seq<char>, Seq<PhonemeView>>
    decreases lines.len(),
{
    if lines.len() == 0 {
        Map::empty()
    } else {
        let before = dictionary(lines.drop_last());
        match line_entry(lines.last()) {
            Some((word, phonemes)) => if before.contains_key(word) {
                before
            } else {
                before.insert(word, phonemes)
            },
            None => before,
        }
    }
}

/// The map that a list of entries makes: a later entry of a word replaces an
/// earlier one.
pub open spec fn entry_map(entries: Seq<(String, Vec<Phoneme>)>) -> Map<
    Seq<char>,
    Seq<PhonemeView>,
>
    decreases entries.len(),
{
    if entries.len() == 0 {
        Map::empty()
    } else {
        entry_map(entries.drop_last()).insert(
            entries.last().0@,
            types::phoneme_views(entries.last().1@),
        )
    }
}

fn parse_sound(symbol: &[char]) -> (r: Phoneme)
    ensures
        r@ == sound_of(symbol@),
{
    let text = string_of(symbol);
    let (base, _stress) = parse_arpabet_stress(text.as_str());
    let ipa = arpabet_to_ipa(base);
    if ipa.unicode_len() == 0 {
        Phoneme::Custom(base.to_owned())
    } else {
        Phoneme::from_ipa(ipa)
    }
}

fn parse_sounds(fields: &Vec<Vec<char>>) -> (r: Vec<Phoneme>)
    requires
        fields@.len() > 0,
    ensures
        types::phoneme_views(r@) == sounds(text::texts(fields@).skip(1)),
{
    let n: usize = fields.len();
    let mut out: Vec<Phoneme> = Vec::new();
    let mut i: usize = 1;
    let ghost symbols = text::texts(fields@);
    assert(types::phoneme_views(out@) + sounds(symbols.skip(1)) =~= sounds(symbols.skip(1)));
    while i < n
        invariant
            n == fields@.len(),
            1 <= i <= n,
            symbols == text::texts(fields@),
            sounds(symbols.skip(1)) == types::phoneme_views(out@) + sounds(symbols.skip(i as int)),
        decreases n - i,
    {
        let ghost rest = symbols.skip(i as int);
        let ghost before = types::phoneme_views(out@);
        assert(rest[0] == fields@[i as int]@);
        assert(rest.drop_first() =~= symbols.skip(i + 1));
        if fields[i].len() > 0 && fields[i][0] == '#' {
            assert(sounds(rest) =~= Seq::<PhonemeView>::empty());
            assert(before + sounds(rest) =~= before);
            return out;
        }
        let sound = parse_sound(fields[i].as_slice());
        out.push(sound);
        assert(types::phoneme_views(out@) =~= before.push(sound@));
        assert(before + (seq![sound@] + sounds(symbols.skip(i + 1))) =~= types::phoneme_views(out@)
            + sounds(symbols.skip(i + 1)));
        i = i + 1;
    }
    assert(symbols.skip(n as int) =~= Seq::<Seq<char>>::empty());
    assert(types::phoneme_views(out@) + Seq::<PhonemeView>::empty() =~= types::phoneme_views(out@));
    out
}

fn parse_head(field: &Vec<char>) -> (r: String)
    ensures
        r@ == head_word(field@),
{
    let n: usize = field.len();
    let mut k: usize = 0;
    assert(field@.skip(0) =~= field@);
    while k < n && field[k] != '('
        invariant
            n == field@.len(),
            k <= n,
            text::run_len(field@, Separator::Mark('(')) == k + text::run_len(
                field@.skip(k as int),
                Separator::Mark('('),
            ),
        decreases n - k,
    {
        assert(field@.skip(k as int).drop_first() =~= field@.skip(k + 1));
        k = k + 1;
    }
    let word = slice_of(field.as_slice(), 0, k);
    assert(word@ =~= field@.take(k as int));
    let text = string_of(word.as_slice());
    lowercase(text.as_str())
}

fn parse_line(line: &Vec<char>) -> (r: Option<(String, Vec<Phoneme>)>)
    ensures
        match r {
            Some((word, phonemes)) => line_entry(line@) == Some(
                (word@, types::phoneme_views(phonemes@)),
            ),
            None => line_entry(line@) is None,
        },
{
    if starts_with(line.as_slice(), ";;;") {
        return None;
    }
    let fields = split_runs(line.as_slice(), Separator::Whitespace);
    if fields.len() < 2 {
        assert(text::texts(fields@).len() < 2);
        return None;
    }
    assert(text::texts(fields@)[0] == fields@[0]@);
    let phonemes = parse_sounds(&fields);
    assert(types::phoneme_views(phonemes@).len() == phonemes@.len());
    if phonemes.len() == 0 {
        return None;
    }
    let word = parse_head(&fields[0]);
    Some((word, phonemes))
}

impl CmuDict {
    /// Reads the dictionary from its text form.
    pub fn parse(text: &str) -> (r: CmuDict)
        ensures
            r@ == dictionary(text::lines(text@)),
    {
        let all = split_lines(text);
        let n: usize = all.len();
        let mut dict = CmuDict { entries: StringHashMap::new() };
        let mut i: usize = 0;
        assert(dict@ =~= Map::empty());
        while i < n
            invariant
                n == all@.len(),
                i <= n,
                dict@ == dictionary(text::texts(all@).take(i as int)),
            decreases n - i,
        {
            let ghost upto = text::texts(all@).take(i + 1);
            assert(upto.drop_last() =~= text::texts(all@).take(i as int));
            assert(upto.last() == all@[i as int]@);
            if let Some((word, phonemes)) = parse_line(&all[i]) {
                if !dict.entries.contains_key(word.as_str()) {
                    let ghost before = dict@;
                    dict.entries.insert(word, phonemes);
                    assert(dict@ =~= before.insert(word@, types::phoneme_views(phonemes@)));
                }
            }
            i = i + 1;
        }
        assert(text::texts(all@).take(n as int) =~= text::texts(all@));
        dict
    }

    /// Builds the dictionary from its entries, each a word in lower case and
    /// its phonemes.
    pub fn from_entries(entries: Vec<(String, Vec<Phoneme>)>) -> (r: CmuDict)
        ensures
            r@ == entry_map(entries@),
    {
        let n: usize = entries.len();
        let mut dict = CmuDict { entries: StringHashMap::with_capacity(n) };
        let mut i: usize = 0;
        assert(dict@ =~= Map::empty());
        while i < n
            invariant
                n == entries@.len(),
                i <= n,
                dict@ == entry_map(entries@.take(i as int)),
            decreases n - i,
        {
            let ghost upto = entries@.take(i + 1);
            assert(upto.drop_last() =~= entries@.take(i as int));
            assert(upto.last() == entries@[i as int]);
            let word = entries[i].0.clone();
            let phonemes = clone_phonemes(&entries[i].1);
            let ghost before = dict@;
            dict.entries.insert(word, phonemes);
            assert(dict@ =~= before.insert(word@, types::phoneme_views(phonemes@)));
            i = i + 1;
        }
        assert(entries@.take(n as int) =~= entries@);
        dict
    }

    /// Get the phoneme sequence for a word.
    ///
    /// Alias for `lookup()` that borrows from the dictionary.
    #[must_use]
    pub fn get(&self, word: &str) -> (r: Option<&[Phoneme]>)
        ensures
            match r {
                Some(phonemes) => pronunciation_in(self@, word@) == Some(
                    types::phoneme_views(phonemes@),
                ),
                None => pronunciation_in(self@, word@) is None,
            },
    {
        let key = lowercase(word);
        match self.entries.get(key.as_str()) {
            Some(phonemes) => Some(phonemes.as_slice()),
            None => None,
        }
    }
}

/// A copy of `v`.
fn clone_phonemes(v: &Vec<Phoneme>) -> (r: Vec<Phoneme>)
    ensures
        types::phoneme_views(r@) == types::phoneme_views(v@),
{
    let mut out: Vec<Phoneme> = Vec::new();
    let n: usize = v.len();
    let mut i: usize = 0;
    while i < n
        invariant
            n == v@.len(),
            i <= n,
            types::phoneme_views(out@) == types::phoneme_views(v@.take(i as int)),
        decreases n - i,
    {
        let copy = v[i].clone();
        let ghost before = types::phoneme_views(out@);
        out.push(copy);
        assert(types::phoneme_views(out@) =~= before.push(copy@));
        assert(types::phoneme_views(v@.take(i + 1)) =~= before.push(copy@));
        i = i + 1;
    }
    assert(v@.take(n as int) =~= v@);
    out
}

impl G2pLookup for CmuDict {
    open spec fn language(&self) -> Seq<char> {
        "en"@
    }

    open spec fn pronunciation(&self, word: Seq<char>) -> Option<Seq<PhonemeView>> {
        pronunciation_in(self@, word)
    }

    open spec fn size(&self) -> nat {
        self@.len()
    }

    proof fn ignores_case(&self, a: Seq<char>, b: Seq<char>) {
    }

    fn language_code(&self) -> &'static str {
        "en"
    }

    fn lookup(&self, word: &str) -> Option<Vec<Phoneme>> {
        let key = lowercase(word);
        match self.entries.get(key.as_str()) {
            Some(phonemes) => Some(clone_phonemes(phonemes)),
            None => None,
        }
    }

    fn dictionary_size(&self) -> usize {
        assert(self@.dom() =~= self.entries@.dom());
        self.entries.len()
    }
}

/// Errors from dictionary operations.
#[derive(Debug, Clone, PartialEq, Eq)]
pub enum CmuDictError {
    /// Dictionary parsing failed
    ParseError(String),
}

impl CmuDictError {
    /// The error as a sentence.
    pub fn message(&self) -> (r: String)
        ensures
            match self {
                CmuDictError::ParseError(msg) => r@ == "CMUdict parse error: "@ + msg@,
            },
    {
        match self {
            CmuDictError::ParseError(msg) => {
                let mut out = "CMUdict parse error: ".to_owned();
                out.append(msg.as_str());
                out
            },
        }
    }
}

/// Words that differ only in the case of ASCII letters have one pronunciation.
pub proof fn law_lookup_ignores_ascii_case(
    dict: Map<Seq<char>, Seq<PhonemeView>>,
    a: Seq<char>,
    b: Seq<char>,
)
    requires
        text::all_ascii(a),
        text::ascii_lower(a) == text::ascii_lower(b),
    ensures
        pronunciation_in(dict, a) == pronunciation_in(dict, b),
{
    assert(text::all_ascii(b)) by {
        assert(a.len() == text::ascii_lower(a).len() && b.len() == text::ascii_lower(b).len());
        assert forall|i: int| 0 <= i < b.len() implies (#[trigger] b[i] as u32) < 128 by {
            assert((a[i] as u32) < 128);
            assert(text::ascii_lower(a)[i] == text::lower_char(a[i]));
            assert(text::ascii_lower(b)[i] == text::lower_char(b[i]));
            assert((text::lower_char(a[i]) as u32) < 128);
        }
    }
}

/// The first line that names a word decides its pronunciation.
pub proof fn law_first_pronunciation_stays(earlier: Seq<Seq<char>>, later: Seq<Seq<char>>, word: Seq<char>)
    requires
        dictionary(earlier).contains_key(word),
    ensures
        dictionary(earlier + later).contains_key(word),
        dictionary(earlier + later)[word] == dictionary(earlier)[word],
    decreases later.len(),
{
    if later.len() == 0 {
        assert(earlier + later =~= earlier);
    } else {
        law_first_pronunciation_stays(earlier, later.drop_last(), word);
        assert((earlier + later).drop_last() =~= earlier + later.drop_last());
        assert((earlier + later).last() == later.last());
    }
}

/// No word of the dictionary has an empty pronunciation.
pub proof fn law_pronunciations_are_not_empty(lines: Seq<Seq<char>>, word: Seq<char>)
    requires
        dictionary(lines).contains_key(word),
    ensures
        dictionary(lines)[word].len() > 0,
    decreases lines.len(),
{
    if lines.len() > 0 {
        let before = dictionary(lines.drop_last());
        if before.contains_key(word) {
            law_pronunciations_are_not_empty(lines.drop_last(), word);
        }
    }
}

} // verus!
