//! Resolution of words and transcripts: which way comes first, what each way
//! gives, and how words are put together.

use vstd::prelude::*;

use super::texts;
use crate::g2p::types::PhonemeView;
use crate::phoneme_map;
use crate::phoneme_map::{Entries, ResolutionMethod, SIL_IDX};
use crate::text;
use crate::text::Separator;

verus! {

// ---------------------------------------------------------------------------
// The dictionary
// ---------------------------------------------------------------------------

proof fn lemma_phoneme_indices(phonemes: Seq<PhonemeView>)
    ensures
        phoneme_map::phoneme_indices(phonemes) == phonemes.filter_map(
            |p: PhonemeView| phoneme_map::ipa_index(p.ipa()),
        ),
    decreases phonemes.len(),
{
    let f = |p: PhonemeView| phoneme_map::ipa_index(p.ipa());
    if phonemes.len() > 0 {
        lemma_phoneme_indices(phonemes.drop_last());
        assert(phoneme_map::phoneme_indices(phonemes) =~= phonemes.filter_map(f));
    } else {
        assert(phoneme_map::phoneme_indices(phonemes) =~= phonemes.filter_map(f));
    }
}

proof fn lemma_symbol_indices(symbols: Seq<Seq<char>>)
    ensures
        phoneme_map::symbol_indices(symbols) == symbols.filter_map(
            |s: Seq<char>| phoneme_map::symbol_index(s),
        ),
    decreases symbols.len(),
{
    let f = |s: Seq<char>| phoneme_map::symbol_index(s);
    if symbols.len() > 0 {
        lemma_symbol_indices(symbols.drop_last());
        assert(phoneme_map::symbol_indices(symbols) =~= symbols.filter_map(f));
    } else {
        assert(phoneme_map::symbol_indices(symbols) =~= symbols.filter_map(f));
    }
}

/// A word that the dictionary has, with at least one phoneme that is known,
/// resolves to exactly the indices of its pronunciation, in order, and by the
/// dictionary: no fallback is used for it.
pub proof fn law_dictionary_comes_first(word: Seq<char>, dict: Entries)
    requires
        dict.contains_key(text::lowered(word)),
        dict[text::lowered(word)].filter_map(
            |p: PhonemeView| phoneme_map::ipa_index(p.ipa()),
        ).len() > 0,
    ensures
        phoneme_map::resolved(word, dict).0 == dict[text::lowered(word)].filter_map(
            |p: PhonemeView| phoneme_map::ipa_index(p.ipa()),
        ),
        phoneme_map::resolved(word, dict).1 == ResolutionMethod::Dictionary,
{
    lemma_phoneme_indices(dict[text::lowered(word)]);
}

/// A word that the dictionary lacks, or of which it knows no phoneme, is not
/// resolved by the dictionary.
pub proof fn law_dictionary_gives_only_what_it_has(word: Seq<char>, dict: Entries)
    ensures
        phoneme_map::looked_up(word, dict) is Some <==> dict.contains_key(text::lowered(word))
            && dict[text::lowered(word)].filter_map(
            |p: PhonemeView| phoneme_map::ipa_index(p.ipa()),
        ).len() > 0,
        phoneme_map::looked_up(word, dict) matches Some(indices) ==> indices
            == dict[text::lowered(word)].filter_map(
            |p: PhonemeView| phoneme_map::ipa_index(p.ipa()),
        ),
        phoneme_map::resolved(word, dict).1 == ResolutionMethod::Dictionary
            ==> phoneme_map::looked_up(word, dict) is Some,
{
    lemma_phoneme_indices(dict[text::lowered(word)]);
}

/// The ways of resolution are tried in a fixed order, and the first that gives
/// anything decides: dictionary, possessive, hyphens, one affix, compound, two
/// affixes, possessive by rule, letters by rule.
pub proof fn law_ways_are_tried_in_order(word: Seq<char>, dict: Entries)
    ensures
        ({
            let r = phoneme_map::resolved(word, dict);
            let ways = seq![
                (phoneme_map::looked_up(word, dict), ResolutionMethod::Dictionary),
                (phoneme_map::possessive(word, dict), ResolutionMethod::Possessive),
                (phoneme_map::hyphen_split(word, dict), ResolutionMethod::HyphenSplit),
                (phoneme_map::suffix_strip(word, dict), ResolutionMethod::SuffixStrip),
                (phoneme_map::compound_split(word, dict), ResolutionMethod::CompoundSplit),
                (phoneme_map::chained_affix(word, dict), ResolutionMethod::ChainedAffix),
                (phoneme_map::possessive_by_rule(word), ResolutionMethod::PossessiveG2p),
                (Some(phoneme_map::by_rule(word)), ResolutionMethod::RuleG2p),
            ];
            forall|i: int|
                0 <= i < 8 && (#[trigger] ways[i]).0 is Some && (forall|j: int|
                    0 <= j < i ==> (#[trigger] ways[j]).0 is None) ==> r == (ways[i].0->0, ways[i].1)
        }),
{
    let r = phoneme_map::resolved(word, dict);
    let ways = seq![
        (phoneme_map::looked_up(word, dict), ResolutionMethod::Dictionary),
        (phoneme_map::possessive(word, dict), ResolutionMethod::Possessive),
        (phoneme_map::hyphen_split(word, dict), ResolutionMethod::HyphenSplit),
        (phoneme_map::suffix_strip(word, dict), ResolutionMethod::SuffixStrip),
        (phoneme_map::compound_split(word, dict), ResolutionMethod::CompoundSplit),
        (phoneme_map::chained_affix(word, dict), ResolutionMethod::ChainedAffix),
        (phoneme_map::possessive_by_rule(word), ResolutionMethod::PossessiveG2p),
        (Some(phoneme_map::by_rule(word)), ResolutionMethod::RuleG2p),
    ];
    assert forall|i: int|
        0 <= i < 8 && (#[trigger] ways[i]).0 is Some && (forall|j: int|
            0 <= j < i ==> (#[trigger] ways[j]).0 is None) implies r == (ways[i].0->0, ways[i].1) by {
        assert(0 < i ==> ways[0].0 is None);
        assert(1 < i ==> ways[1].0 is None);
        assert(2 < i ==> ways[2].0 is None);
        assert(3 < i ==> ways[3].0 is None);
        assert(4 < i ==> ways[4].0 is None);
        assert(5 < i ==> ways[5].0 is None);
        assert(6 < i ==> ways[6].0 is None);
    }
}

// ---------------------------------------------------------------------------
// Rules
// ---------------------------------------------------------------------------

/// Where several rules give something, the first of them decides; where none
/// does, nothing is given.
pub proof fn law_first_rule_decides<A, B>(rules: Seq<A>, gives: spec_fn(A) -> Option<B>)
    ensures
        match phoneme_map::first_some(rules, gives) {
            Some(b) => exists|i: int|
                0 <= i < rules.len() && gives(#[trigger] rules[i]) == Some(b) && forall|j: int|
                    0 <= j < i ==> gives(#[trigger] rules[j]) is None,
            None => forall|i: int| 0 <= i < rules.len() ==> gives(#[trigger] rules[i]) is None,
        },
    decreases rules.len(),
{
    if rules.len() > 0 {
        let rest = rules.drop_first();
        law_first_rule_decides(rest, gives);
        match gives(rules[0]) {
            Some(b) => {
                assert(gives(rules[0]) == Some(b));
            },
            None => {
                match phoneme_map::first_some(rest, gives) {
                    Some(b) => {
                        let i = choose|i: int|
                            0 <= i < rest.len() && gives(#[trigger] rest[i]) == Some(b) && forall|
                                j: int,
                            | 0 <= j < i ==> gives(#[trigger] rest[j]) is None;
                        assert(rules[i + 1] == rest[i]);
                        assert forall|j: int| 0 <= j < i + 1 implies gives(
                            #[trigger] rules[j],
                        ) is None by {
                            if j > 0 {
                                assert(rules[j] == rest[j - 1]);
                            }
                        }
                    },
                    None => {
                        assert forall|i: int| 0 <= i < rules.len() implies gives(
                            #[trigger] rules[i],
                        ) is None by {
                            if i > 0 {
                                assert(rules[i] == rest[i - 1]);
                            }
                        }
                    },
                }
            },
        }
    }
}

proof fn lemma_first_at<A, B>(rules: Seq<A>, gives: spec_fn(A) -> Option<B>, k: int)
    requires
        0 <= k < rules.len(),
        gives(rules[k]) is Some,
        forall|j: int| 0 <= j < k ==> gives(#[trigger] rules[j]) is None,
    ensures
        phoneme_map::first_some(rules, gives) == gives(rules[k]),
{
    law_first_rule_decides(rules, gives);
}

/// The contractions and how they sound.
pub open spec fn contraction(k: int) -> (Seq<char>, Seq<char>) {
    if k == 0 {
        ("'S"@, "Z"@)
    } else if k == 1 {
        ("'D"@, "D"@)
    } else if k == 2 {
        ("'LL"@, "L"@)
    } else if k == 3 {
        ("'VE"@, "V"@)
    } else if k == 4 {
        ("'RE"@, "R"@)
    } else if k == 5 {
        ("'T"@, "T"@)
    } else {
        ("'M"@, "M"@)
    }
}

proof fn lemma_symbol_known(k: int)
    requires
        0 <= k < 7,
    ensures
        phoneme_map::symbol_index(contraction(k).1) is Some,
        phoneme_map::symbol_indices(seq![contraction(k).1]) == seq![
            phoneme_map::symbol_index(contraction(k).1)->0,
        ],
{
    let place: int = if k == 0 {
        38
    } else if k == 1 {
        9
    } else if k == 2 {
        21
    } else if k == 3 {
        35
    } else if k == 4 {
        28
    } else if k == 5 {
        31
    } else {
        22
    };
    assert(phoneme_map::inventory()[place] == contraction(k).1);
    phoneme_map::law_symbol_index_is_place(place);
    let one = seq![contraction(k).1];
    assert(one.drop_last() =~= Seq::<Seq<char>>::empty());
    assert(phoneme_map::symbol_indices(one.drop_last()) =~= Seq::<i32>::empty());
    assert(phoneme_map::symbol_indices(one) =~= seq![
        phoneme_map::symbol_index(contraction(k).1)->0,
    ]);
}

/// No two contractions end a word alike.
proof fn lemma_contractions_differ(base: Seq<char>, k: int, j: int)
    requires
        0 <= j < k < 7,
    ensures
        !contraction(j).0.is_suffix_of(base + contraction(k).0),
{
    reveal_strlit("'S");
    reveal_strlit("'D");
    reveal_strlit("'LL");
    reveal_strlit("'VE");
    reveal_strlit("'RE");
    reveal_strlit("'T");
    reveal_strlit("'M");
    let a = contraction(j).0;
    let word = base + contraction(k).0;
    if a.is_suffix_of(word) {
        let tail = word.subrange(word.len() - a.len(), word.len() as int);
        assert(a == tail);
        assert(tail.last() == a.last());
        assert(tail[a.len() - 2] == a[a.len() - 2]);
        assert(tail.last() == word.last());
        assert(tail[a.len() - 2] == word[word.len() - 2]);
        assert(word.last() == contraction(k).0.last());
        assert(word[word.len() - 2] == contraction(k).0[contraction(k).0.len() - 2]);
    }
}

/// A word that the dictionary has, with a contraction behind it, is the word and
/// the sound of the contraction.
pub proof fn law_contractions(word: Seq<char>, base: Seq<char>, k: int, dict: Entries)
    requires
        0 <= k < 7,
        base.len() > 0,
        text::ascii_upper(word) == base + contraction(k).0,
        phoneme_map::looked_up(base, dict) is Some,
    ensures
        phoneme_map::symbol_index(contraction(k).1) is Some,
        phoneme_map::possessive(word, dict) == Some(
            (phoneme_map::looked_up(base, dict)->0).push(
                phoneme_map::symbol_index(contraction(k).1)->0,
            ),
        ),
{
    let upper = text::ascii_upper(word);
    let rules = phoneme_map::possessive_rules();
    let gives = |rule: (Seq<char>, Seq<Seq<char>>)|
        phoneme_map::possessive_by(text::ascii_upper(word), dict, rule);
    assert(rules[k].0 == contraction(k).0);
    assert(rules[k].1 =~= seq![contraction(k).1]);
    lemma_symbol_known(k);
    assert(upper.subrange(upper.len() - contraction(k).0.len(), upper.len() as int)
        =~= contraction(k).0);
    assert(contraction(k).0.is_suffix_of(upper));
    assert(upper.take(upper.len() - contraction(k).0.len()) =~= base);
    assert forall|j: int| 0 <= j < k implies gives(#[trigger] rules[j]) is None by {
        lemma_contractions_differ(base, k, j);
        assert(rules[j].0 == contraction(j).0);
    }
    lemma_first_at(rules, gives, k);
    let found = phoneme_map::looked_up(base, dict)->0;
    assert(found + seq![phoneme_map::symbol_index(contraction(k).1)->0] =~= found.push(
        phoneme_map::symbol_index(contraction(k).1)->0,
    ));
}

/// A word is taken apart as a possessive only where it is one of a word that the
/// dictionary has.
pub proof fn law_possessive_needs_contraction(word: Seq<char>, dict: Entries)
    requires
        phoneme_map::possessive(word, dict) is Some,
    ensures
        exists|k: int|
            0 <= k < 7 && (#[trigger] contraction(k)).0.is_suffix_of(text::ascii_upper(word))
                && phoneme_map::looked_up(
                text::ascii_upper(word).take(
                    text::ascii_upper(word).len() - contraction(k).0.len(),
                ),
                dict,
            ) is Some,
{
    let rules = phoneme_map::possessive_rules();
    let gives = |rule: (Seq<char>, Seq<Seq<char>>)|
        phoneme_map::possessive_by(text::ascii_upper(word), dict, rule);
    law_first_rule_decides(rules, gives);
    let b = phoneme_map::possessive(word, dict)->0;
    let i = choose|i: int|
        0 <= i < rules.len() && gives(#[trigger] rules[i]) == Some(b) && forall|j: int|
            0 <= j < i ==> gives(#[trigger] rules[j]) is None;
    assert(rules[i].0 == contraction(i).0);
}

// ---------------------------------------------------------------------------
// Hyphens
// ---------------------------------------------------------------------------

/// Whether `s` holds no hyphen.
pub open spec fn hyphenless(s: Seq<char>) -> bool {
    forall|i: int| 0 <= i < s.len() ==> #[trigger] s[i] != '-'
}

/// A hyphenated word is its parts with silence in between, where the dictionary
/// has both.
pub proof fn law_two_parts(a: Seq<char>, b: Seq<char>, dict: Entries)
    requires
        a.len() > 0,
        b.len() > 0,
        hyphenless(a),
        hyphenless(b),
    ensures
        phoneme_map::hyphen_split(a + seq!['-'] + b, dict) == match (
            phoneme_map::looked_up(a, dict),
            phoneme_map::looked_up(b, dict),
        ) {
            (Some(x), Some(y)) => Some(x.push(SIL_IDX) + y),
            _ => None,
        },
{
    let sep = Separator::Mark('-');
    texts::law_separator_parts_text(a, '-', b, sep);
    texts::law_unseparated_text_is_one_piece(a, sep);
    texts::law_unseparated_text_is_one_piece(b, sep);
    let parts = text::runs(a + seq!['-'] + b, sep);
    assert(parts =~= seq![a, b]);
    assert(parts.drop_last() =~= seq![a]);
    assert(seq![a].drop_last() =~= Seq::<Seq<char>>::empty());
    assert(phoneme_map::joined(seq![a].drop_last(), dict) == Some(Seq::<i32>::empty()));
    assert(seq![a].last() == a);
    assert(phoneme_map::joined(seq![a], dict) == phoneme_map::looked_up(a, dict));
    assert(parts.last() == b);
    assert(phoneme_map::hyphen_split(a + seq!['-'] + b, dict) == phoneme_map::joined(parts, dict));
}

/// One part more is silence and that part more, where the dictionary has it;
/// hyphens at the ends do not matter.
pub proof fn law_further_part(word: Seq<char>, b: Seq<char>, dict: Entries)
    requires
        phoneme_map::hyphen_split(word, dict) is Some,
        hyphenless(b),
    ensures
        phoneme_map::hyphen_split(word + seq!['-'] + b, dict) == if b.len() == 0 {
            phoneme_map::hyphen_split(word, dict)
        } else {
            match phoneme_map::looked_up(b, dict) {
                Some(y) => Some((phoneme_map::hyphen_split(word, dict)->0).push(SIL_IDX) + y),
                None => None,
            }
        },
{
    let sep = Separator::Mark('-');
    texts::law_separator_parts_text(word, '-', b, sep);
    texts::law_unseparated_text_is_one_piece(b, sep);
    let before = text::runs(word, sep);
    let parts = text::runs(word + seq!['-'] + b, sep);
    if b.len() == 0 {
        assert(parts =~= before);
    } else {
        assert(parts =~= before.push(b));
        assert(parts.drop_last() =~= before);
    }
}

/// A word without a hyphen is not split at one.
pub proof fn law_hyphen_split_needs_hyphen(word: Seq<char>, dict: Entries)
    requires
        hyphenless(word),
    ensures
        phoneme_map::hyphen_split(word, dict) is None,
{
    texts::law_unseparated_text_is_one_piece(word, Separator::Mark('-'));
}

// ---------------------------------------------------------------------------
// Affixes
// ---------------------------------------------------------------------------

/// The base of an affixed word is looked up as it stands, then with an E, then
/// with its final I as a Y.
pub proof fn law_base_forms(base: Seq<char>, stem: Seq<char>, dict: Entries)
    ensures
        ({
            let whole = phoneme_map::looked_up(base, dict);
            let with_e = phoneme_map::looked_up(base.push('E'), dict);
            let with_y = phoneme_map::looked_up(stem.push('Y'), dict);
            &&& whole is Some ==> phoneme_map::base_form(base, dict) == whole
            &&& whole is None && with_e is Some ==> phoneme_map::base_form(base, dict) == with_e
            &&& whole is None && with_e is None && base == stem.push('I') ==> phoneme_map::base_form(
                base,
                dict,
            ) == with_y
            &&& whole is None && with_e is None && (base.len() == 0 || base.last() != 'I')
                ==> phoneme_map::base_form(base, dict) is None
        }),
{
    if base == stem.push('I') {
        assert(base.drop_last() =~= stem);
    }
}

proof fn lemma_ascii_bytes(s: Seq<char>)
    requires
        text::all_ascii(s),
    ensures
        phoneme_map::byte_len(s) == s.len(),
    decreases s.len(),
{
    if s.len() > 0 {
        assert((s[s.len() - 1] as u32) < 128);
        lemma_ascii_bytes(s.drop_last());
    }
}

/// A word with one ending is its base and the sound of the ending, where no
/// earlier ending fits: whatever is given for an ending is given for a base of at
/// least two letters.
pub proof fn law_ending(upper: Seq<char>, base: Seq<char>, k: int, dict: Entries)
    requires
        0 <= k < phoneme_map::suffix_rules().len(),
        upper == base + phoneme_map::suffix_rules()[k].0,
        text::all_ascii(base),
    ensures
        phoneme_map::suffix_by(upper, dict, phoneme_map::suffix_rules()[k]) == if base.len() < 2 {
            None
        } else {
            match phoneme_map::base_form(base, dict) {
                Some(x) => Some(
                    x + phoneme_map::suffix_rules()[k].1.filter_map(
                        |s: Seq<char>| phoneme_map::symbol_index(s),
                    ),
                ),
                None => None,
            }
        },
{
    let rule = phoneme_map::suffix_rules()[k];
    lemma_ascii_bytes(base);
    lemma_symbol_indices(rule.1);
    assert(upper.subrange(upper.len() - rule.0.len(), upper.len() as int) =~= rule.0);
    assert(upper.take(upper.len() - rule.0.len()) =~= base);
}

/// A word with one beginning is the sound of the beginning and its base.
pub proof fn law_beginning(upper: Seq<char>, base: Seq<char>, k: int, dict: Entries)
    requires
        0 <= k < phoneme_map::prefix_rules().len(),
        upper == phoneme_map::prefix_rules()[k].0 + base,
        text::all_ascii(base),
    ensures
        phoneme_map::prefix_by(upper, dict, phoneme_map::prefix_rules()[k]) == if base.len() < 2 {
            None
        } else {
            match phoneme_map::looked_up(base, dict) {
                Some(x) => Some(
                    phoneme_map::prefix_rules()[k].1.filter_map(
                        |s: Seq<char>| phoneme_map::symbol_index(s),
                    ) + x,
                ),
                None => None,
            }
        },
{
    let rule = phoneme_map::prefix_rules()[k];
    lemma_ascii_bytes(base);
    lemma_symbol_indices(rule.1);
    assert(upper.subrange(0, rule.0.len() as int) =~= rule.0);
    assert(upper.skip(rule.0.len() as int) =~= base);
}

/// Endings are tried before beginnings, each list from its front, and the first
/// that fits decides.
pub proof fn law_affixes_are_tried_in_order(word: Seq<char>, dict: Entries)
    ensures
        ({
            let upper = text::ascii_upper(word);
            let endings = phoneme_map::suffix_rules();
            let beginnings = phoneme_map::prefix_rules();
            &&& forall|k: int|
                0 <= k < endings.len() && phoneme_map::suffix_by(
                    upper,
                    dict,
                    #[trigger] endings[k],
                ) is Some && (forall|j: int|
                    0 <= j < k ==> phoneme_map::suffix_by(upper, dict, #[trigger] endings[j]) is None)
                    ==> phoneme_map::suffix_strip(word, dict) == phoneme_map::suffix_by(
                    upper,
                    dict,
                    endings[k],
                )
            &&& (forall|j: int|
                0 <= j < endings.len() ==> phoneme_map::suffix_by(
                    upper,
                    dict,
                    #[trigger] endings[j],
                ) is None) ==> {
                &&& forall|k: int|
                    0 <= k < beginnings.len() && phoneme_map::prefix_by(
                        upper,
                        dict,
                        #[trigger] beginnings[k],
                    ) is Some && (forall|j: int|
                        0 <= j < k ==> phoneme_map::prefix_by(
                            upper,
                            dict,
                            #[trigger] beginnings[j],
                        ) is None) ==> phoneme_map::suffix_strip(word, dict)
                        == phoneme_map::prefix_by(upper, dict, beginnings[k])
                &&& (forall|k: int|
                    0 <= k < beginnings.len() ==> phoneme_map::prefix_by(
                        upper,
                        dict,
                        #[trigger] beginnings[k],
                    ) is None) ==> phoneme_map::suffix_strip(word, dict) is None
            }
        }),
{
    let upper = text::ascii_upper(word);
    let endings = phoneme_map::suffix_rules();
    let beginnings = phoneme_map::prefix_rules();
    let by_end = |rule: (Seq<char>, Seq<Seq<char>>)| phoneme_map::suffix_by(upper, dict, rule);
    let by_start = |rule: (Seq<char>, Seq<Seq<char>>)| phoneme_map::prefix_by(upper, dict, rule);
    law_first_rule_decides(endings, by_end);
    law_first_rule_decides(beginnings, by_start);
    assert forall|k: int|
        0 <= k < endings.len() && phoneme_map::suffix_by(upper, dict, #[trigger] endings[k]) is Some
            && (forall|j: int|
            0 <= j < k ==> phoneme_map::suffix_by(
                upper,
                dict,
                #[trigger] endings[j],
            ) is None) implies phoneme_map::suffix_strip(word, dict) == phoneme_map::suffix_by(
        upper,
        dict,
        endings[k],
    ) by {
        assert forall|j: int| 0 <= j < k implies by_end(#[trigger] endings[j]) is None by {
            assert(phoneme_map::suffix_by(upper, dict, endings[j]) is None);
        }
        lemma_first_at(endings, by_end, k);
    }
    if forall|j: int|
        0 <= j < endings.len() ==> phoneme_map::suffix_by(upper, dict, #[trigger] endings[j]) is None {
        assert forall|j: int| 0 <= j < endings.len() implies by_end(
            #[trigger] endings[j],
        ) is None by {
            assert(phoneme_map::suffix_by(upper, dict, endings[j]) is None);
        }
        assert(phoneme_map::by_suffixes(upper, dict) is None);
        assert forall|k: int|
            0 <= k < beginnings.len() && phoneme_map::prefix_by(
                upper,
                dict,
                #[trigger] beginnings[k],
            ) is Some && (forall|j: int|
                0 <= j < k ==> phoneme_map::prefix_by(
                    upper,
                    dict,
                    #[trigger] beginnings[j],
                ) is None) implies phoneme_map::suffix_strip(word, dict) == phoneme_map::prefix_by(
            upper,
            dict,
            beginnings[k],
        ) by {
            assert forall|j: int| 0 <= j < k implies by_start(#[trigger] beginnings[j]) is None by {
                assert(phoneme_map::prefix_by(upper, dict, beginnings[j]) is None);
            }
            lemma_first_at(beginnings, by_start, k);
        }
        if forall|k: int|
            0 <= k < beginnings.len() ==> phoneme_map::prefix_by(
                upper,
                dict,
                #[trigger] beginnings[k],
            ) is None {
            assert forall|j: int| 0 <= j < beginnings.len() implies by_start(
                #[trigger] beginnings[j],
            ) is None by {
                assert(phoneme_map::prefix_by(upper, dict, beginnings[j]) is None);
            }
        }
    }
}

/// What both affixes give: a beginning, an ending and a base of which the
/// dictionary has a form, with all three sounding in that order.
pub open spec fn twice_affixed(
    upper: Seq<char>,
    p: int,
    s: int,
    base: Seq<char>,
    dict: Entries,
    indices: Seq<i32>,
) -> bool {
    let beginning = phoneme_map::prefix_rules()[p];
    let ending = phoneme_map::suffix_rules()[s];
    &&& 0 <= p < phoneme_map::prefix_rules().len()
    &&& 0 <= s < phoneme_map::suffix_rules().len()
    &&& upper == beginning.0 + base + ending.0
    &&& phoneme_map::byte_len(base + ending.0) >= 4
    &&& phoneme_map::byte_len(base) >= 2
    &&& phoneme_map::base_form(base, dict) is Some
    &&& indices == beginning.1.filter_map(|x: Seq<char>| phoneme_map::symbol_index(x))
        + phoneme_map::base_form(base, dict)->0 + ending.1.filter_map(
        |x: Seq<char>| phoneme_map::symbol_index(x),
    )
}

/// Whether `rest` is `base` and the ending of `rule`, and `indices` is what they
/// sound like behind `front`.
spec fn ended(
    rest: Seq<char>,
    base: Seq<char>,
    rule: (Seq<char>, Seq<Seq<char>>),
    front: Seq<i32>,
    dict: Entries,
    indices: Seq<i32>,
) -> bool {
    &&& rest == base + rule.0
    &&& phoneme_map::byte_len(base) >= 2
    &&& phoneme_map::base_form(base, dict) is Some
    &&& indices == front + phoneme_map::base_form(base, dict)->0 + rule.1.filter_map(
        |x: Seq<char>| phoneme_map::symbol_index(x),
    )
}

proof fn lemma_chained_by(
    rest: Seq<char>,
    dict: Entries,
    phones: Seq<Seq<char>>,
    rule: (Seq<char>, Seq<Seq<char>>),
    r: Seq<i32>,
)
    requires
        phoneme_map::chained_by(rest, dict, phones, rule) == Some(r),
    ensures
        exists|base: Seq<char>| #[trigger]
            ended(rest, base, rule, phoneme_map::symbol_indices(phones), dict, r),
{
    let base = phoneme_map::strip_suffix(rest, rule.0)->0;
    assert(rest =~= base + rule.0);
    lemma_symbol_indices(rule.1);
    let x = phoneme_map::base_form(base, dict)->0;
    let front = phoneme_map::symbol_indices(phones);
    let back = phoneme_map::symbol_indices(rule.1);
    assert(front + (x + back) =~= front + x + back);
    assert(ended(rest, base, rule, front, dict, r));
}

proof fn lemma_chained_ending(
    endings: Seq<(Seq<char>, Seq<Seq<char>>)>,
    rest: Seq<char>,
    dict: Entries,
    phones: Seq<Seq<char>>,
    r: Seq<i32>,
)
    requires
        phoneme_map::first_some(
            endings,
            |rule: (Seq<char>, Seq<Seq<char>>)| phoneme_map::chained_by(rest, dict, phones, rule),
        ) == Some(r),
    ensures
        exists|s: int, base: Seq<char>|
            0 <= s < endings.len() && #[trigger] ended(
                rest,
                base,
                endings[s],
                phoneme_map::symbol_indices(phones),
                dict,
                r,
            ),
{
    let inner = |rule: (Seq<char>, Seq<Seq<char>>)|
        phoneme_map::chained_by(rest, dict, phones, rule);
    law_first_rule_decides(endings, inner);
    let s = choose|i: int|
        0 <= i < endings.len() && inner(#[trigger] endings[i]) == Some(r) && forall|j: int|
            0 <= j < i ==> inner(#[trigger] endings[j]) is None;
    lemma_chained_by(rest, dict, phones, endings[s], r);
}

proof fn lemma_chained_beginning(
    beginnings: Seq<(Seq<char>, Seq<Seq<char>>)>,
    upper: Seq<char>,
    dict: Entries,
    r: Seq<i32>,
)
    requires
        phoneme_map::first_some(
            beginnings,
            |prefix: (Seq<char>, Seq<Seq<char>>)| phoneme_map::chained_after(upper, dict, prefix),
        ) == Some(r),
    ensures
        exists|p: int|
            0 <= p < beginnings.len() && phoneme_map::chained_after(
                upper,
                dict,
                #[trigger] beginnings[p],
            ) == Some(r),
{
    let outer = |prefix: (Seq<char>, Seq<Seq<char>>)|
        phoneme_map::chained_after(upper, dict, prefix);
    law_first_rule_decides(beginnings, outer);
    let p = choose|i: int|
        0 <= i < beginnings.len() && outer(#[trigger] beginnings[i]) == Some(r) && forall|j: int|
            0 <= j < i ==> outer(#[trigger] beginnings[j]) is None;
    assert(phoneme_map::chained_after(upper, dict, beginnings[p]) == Some(r));
}

/// What is given for a word with two affixes is a beginning, a base and an ending
/// that together spell the word.
#[verifier::spinoff_prover]
#[verifier::rlimit(60)]
pub proof fn law_two_affixes_spell_the_word(word: Seq<char>, dict: Entries)
    requires
        phoneme_map::chained_affix(word, dict) is Some,
    ensures
        exists|p: int, s: int, base: Seq<char>| #[trigger]
            twice_affixed(
                text::ascii_upper(word),
                p,
                s,
                base,
                dict,
                phoneme_map::chained_affix(word, dict)->0,
            ),
{
    let upper = text::ascii_upper(word);
    let r = phoneme_map::chained_affix(word, dict)->0;
    let beginnings = phoneme_map::prefix_rules();
    let endings = phoneme_map::suffix_rules();
    assert((|prefix: (Seq<char>, Seq<Seq<char>>)|
        phoneme_map::chained_after(text::ascii_upper(word), dict, prefix)) =~= (|
        prefix: (Seq<char>, Seq<Seq<char>>),
    | phoneme_map::chained_after(upper, dict, prefix)));
    lemma_chained_beginning(beginnings, upper, dict, r);
    let p = choose|p: int|
        0 <= p < beginnings.len() && phoneme_map::chained_after(
            upper,
            dict,
            #[trigger] beginnings[p],
        ) == Some(r);
    let beginning = beginnings[p];
    let rest = phoneme_map::strip_prefix(upper, beginning.0)->0;
    lemma_chained_ending(endings, rest, dict, beginning.1, r);
    let front = phoneme_map::symbol_indices(beginning.1);
    let (s, base) = choose|s: int, base: Seq<char>|
        0 <= s < endings.len() && #[trigger] ended(rest, base, endings[s], front, dict, r);
    lemma_symbol_indices(beginning.1);
    assert(upper =~= beginning.0 + base + endings[s].0) by {
        assert(rest == base + endings[s].0);
        assert(upper =~= beginning.0 + rest);
    }
    assert(twice_affixed(upper, p, s, base, dict, r));
}

/// A word that is a beginning, a base and an ending is resolved as such.
pub proof fn law_two_affixes_are_found(
    word: Seq<char>,
    p: int,
    s: int,
    base: Seq<char>,
    dict: Entries,
    indices: Seq<i32>,
)
    requires
        twice_affixed(text::ascii_upper(word), p, s, base, dict, indices),
    ensures
        phoneme_map::chained_affix(word, dict) is Some,
{
    let upper = text::ascii_upper(word);
    let beginnings = phoneme_map::prefix_rules();
    let endings = phoneme_map::suffix_rules();
    let outer = |prefix: (Seq<char>, Seq<Seq<char>>)|
        phoneme_map::chained_after(text::ascii_upper(word), dict, prefix);
    let beginning = beginnings[p];
    let ending = endings[s];
    let rest = base + ending.0;
    assert(upper.subrange(0, beginning.0.len() as int) =~= beginning.0);
    assert(upper.skip(beginning.0.len() as int) =~= rest);
    let inner = |rule: (Seq<char>, Seq<Seq<char>>)|
        phoneme_map::chained_by(rest, dict, beginning.1, rule);
    assert(rest.subrange(rest.len() - ending.0.len(), rest.len() as int) =~= ending.0);
    assert(rest.take(rest.len() - ending.0.len()) =~= base);
    law_first_rule_decides(endings, inner);
    assert(inner(endings[s]) is Some);
    assert(phoneme_map::first_some(endings, inner) is Some);
    law_first_rule_decides(beginnings, outer);
    assert(outer(beginnings[p]) is Some);
}

// ---------------------------------------------------------------------------
// Compounds
// ---------------------------------------------------------------------------

/// Whether the dictionary has both halves of `upper`, parted before `at`, each of
/// at least three letters.
pub open spec fn halves_known(upper: Seq<char>, at: int, dict: Entries) -> bool {
    &&& 3 <= at <= upper.len() - 3
    &&& phoneme_map::looked_up(upper.take(at), dict) is Some
    &&& phoneme_map::looked_up(upper.skip(at), dict) is Some
}

proof fn lemma_first_split(upper: Seq<char>, dict: Entries, from: int)
    requires
        3 <= from,
    ensures
        match phoneme_map::first_split(upper, dict, from) {
            Some(r) => exists|at: int| #[trigger]
                halves_known(upper, at, dict) && from <= at && r == (phoneme_map::looked_up(
                    upper.take(at),
                    dict,
                )->0).push(SIL_IDX) + phoneme_map::looked_up(upper.skip(at), dict)->0 && forall|
                    b: int,
                | from <= b < at ==> !#[trigger] halves_known(upper, b, dict),
            None => forall|at: int| from <= at ==> !#[trigger] halves_known(upper, at, dict),
        },
    decreases upper.len() - from,
{
    if from <= upper.len() - 3 {
        if halves_known(upper, from, dict) {
            assert(halves_known(upper, from, dict));
        } else {
            lemma_first_split(upper, dict, from + 1);
            match phoneme_map::first_split(upper, dict, from + 1) {
                Some(r) => {
                    let at = choose|at: int| #[trigger]
                        halves_known(upper, at, dict) && from + 1 <= at && r == (
                        phoneme_map::looked_up(upper.take(at), dict)->0).push(SIL_IDX)
                            + phoneme_map::looked_up(upper.skip(at), dict)->0 && forall|b: int|
                            from + 1 <= b < at ==> !#[trigger] halves_known(upper, b, dict);
                    assert(halves_known(upper, at, dict));
                },
                None => {},
            }
        }
    }
}

/// A compound is parted where the dictionary first has both halves, with silence
/// in between; it is left alone where there is no such place.
pub proof fn law_compounds(word: Seq<char>, dict: Entries)
    ensures
        match phoneme_map::compound_split(word, dict) {
            Some(r) => exists|at: int| #[trigger]
                halves_known(text::ascii_upper(word), at, dict) && r == (phoneme_map::looked_up(
                    text::ascii_upper(word).take(at),
                    dict,
                )->0).push(SIL_IDX) + phoneme_map::looked_up(
                    text::ascii_upper(word).skip(at),
                    dict,
                )->0 && forall|b: int|
                    b < at ==> !#[trigger] halves_known(text::ascii_upper(word), b, dict),
            None => forall|at: int| !#[trigger] halves_known(text::ascii_upper(word), at, dict),
        },
{
    let upper = text::ascii_upper(word);
    lemma_first_split(upper, dict, 3);
    match phoneme_map::compound_split(word, dict) {
        Some(r) => {
            let at = choose|at: int| #[trigger]
                halves_known(upper, at, dict) && 3 <= at && r == (phoneme_map::looked_up(
                    upper.take(at),
                    dict,
                )->0).push(SIL_IDX) + phoneme_map::looked_up(upper.skip(at), dict)->0 && forall|
                    b: int,
                | 3 <= b < at ==> !#[trigger] halves_known(upper, b, dict);
            assert(halves_known(upper, at, dict));
        },
        None => {},
    }
}

// ---------------------------------------------------------------------------
// Letters
// ---------------------------------------------------------------------------

/// Letters are read from left to right, a pair that is read as one before its
/// first letter alone; an X is read as K and S.
pub proof fn law_letters_are_read_in_order(a: char, b: char, rest: Seq<char>)
    ensures
        phoneme_map::spelled(Seq::empty()) == Seq::<Seq<char>>::empty(),
        phoneme_map::spelled(seq![a]) == phoneme_map::letter_symbols(a),
        phoneme_map::digraph_symbol(seq![a, b]) matches Some(symbol) ==> phoneme_map::spelled(
            seq![a, b] + rest,
        ) == seq![symbol] + phoneme_map::spelled(rest),
        phoneme_map::digraph_symbol(seq![a, b]) is None ==> phoneme_map::spelled(
            seq![a, b] + rest,
        ) == phoneme_map::letter_symbols(a) + phoneme_map::spelled(seq![b] + rest),
        phoneme_map::letter_symbols('X') == seq!["K"@, "S"@],
{
    let all = seq![a, b] + rest;
    assert(all.take(2) =~= seq![a, b]);
    assert(all.skip(2) =~= rest);
    assert(all.skip(1) =~= seq![b] + rest);
    assert(seq![a].skip(1) =~= Seq::<char>::empty());
    assert(phoneme_map::spelled(seq![a].skip(1)) =~= Seq::<Seq<char>>::empty());
    assert(phoneme_map::spelled(seq![a]) =~= phoneme_map::letter_symbols(a));
}

/// By rule, a word is what its letters spell, and nothing else in it counts; with
/// a possessive ending the sound Z follows.
pub proof fn law_letters_by_rule(word: Seq<char>, base: Seq<char>)
    ensures
        phoneme_map::by_rule(word) == phoneme_map::spelled(
            text::ascii_upper(word).filter(|c: char| 'A' <= c <= 'Z' || 'a' <= c <= 'z'),
        ).filter_map(|s: Seq<char>| phoneme_map::symbol_index(s)),
        text::ascii_upper(word) == base + "'S"@ && text::all_ascii(base) && base.len() >= 2
            && phoneme_map::by_rule(base).len() > 0 ==> phoneme_map::symbol_index("Z"@) is Some
            && phoneme_map::possessive_by_rule(word) == Some(
            phoneme_map::by_rule(base).push(phoneme_map::symbol_index("Z"@)->0),
        ),
        !"'S"@.is_suffix_of(text::ascii_upper(word)) ==> phoneme_map::possessive_by_rule(
            word,
        ) is None,
{
    let upper = text::ascii_upper(word);
    assert((|c: char| 'A' <= c <= 'Z' || 'a' <= c <= 'z') =~= (|c: char| text::is_letter(c)));
    lemma_symbol_indices(phoneme_map::spelled(phoneme_map::letters_of(word)));
    if upper == base + "'S"@ && text::all_ascii(base) {
        lemma_ascii_bytes(base);
        lemma_symbol_known(0);
        assert(upper.subrange(upper.len() - "'S"@.len(), upper.len() as int) =~= "'S"@);
        assert(upper.take(upper.len() - "'S"@.len()) =~= base);
        let z = phoneme_map::symbol_index("Z"@)->0;
        assert(phoneme_map::by_rule(base) + seq![z] =~= phoneme_map::by_rule(base).push(z));
    }
}

/// The length of a base is counted in bytes of UTF-8.
pub proof fn law_length_in_bytes(a: Seq<char>, c: char)
    ensures
        phoneme_map::byte_len(seq![]) == 0,
        phoneme_map::byte_len(a.push(c)) == phoneme_map::byte_len(a) + if (c as u32) <= 127 {
            1int
        } else if (c as u32) <= 2047 {
            2
        } else if (c as u32) <= 65535 {
            3
        } else {
            4
        },
{
    assert(a.push(c).drop_last() =~= a);
}

} // verus!
