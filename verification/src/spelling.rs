//! What of a transcript's spelling does not matter: the case of letters, and
//! the characters that no word is made of.

use vstd::prelude::*;

use crate::g2p::cmudict;
use crate::phoneme_map;
use crate::phoneme_map::{Entries, ResolutionStats};
use crate::text;
use crate::text::Separator;

verus! {

/// A word as it counts: its letters, apostrophes and hyphens, in lower case.
pub open spec fn folded(word: Seq<char>) -> Seq<char> {
    text::ascii_lower(phoneme_map::cleaned(word))
}

/// The words that count, as they count.
pub open spec fn counted(words: Seq<Seq<char>>) -> Seq<Seq<char>>
    decreases words.len(),
{
    if words.len() == 0 {
        seq![]
    } else if folded(words.last()).len() == 0 {
        counted(words.drop_last())
    } else {
        counted(words.drop_last()).push(folded(words.last()))
    }
}

/// Whether `c` stays: white space, and what words are made of.
pub open spec fn stays(c: char) -> bool {
    text::is_white(c) || phoneme_map::is_word_char(c)
}

/// The characters of `s` that stay, in lower case.
pub open spec fn kept(s: Seq<char>) -> Seq<char> {
    text::ascii_lower(s.filter(|c: char| stays(c)))
}

/// The words that are left of a text once the characters that no word is made
/// of are dropped and case is folded.
pub open spec fn words_left(s: Seq<char>) -> Seq<Seq<char>> {
    text::runs(kept(s), Separator::Whitespace)
}

/// Whether two transcripts come to the same: both are refused, or both have the
/// same targets and the same statistics.
pub open spec fn same_outcome(a: Seq<char>, b: Seq<char>, dict: Entries) -> bool {
    match (phoneme_map::transcript_outcome(a, dict), phoneme_map::transcript_outcome(b, dict)) {
        (Ok(x), Ok(y)) => x == y,
        (Err(_), Err(_)) => true,
        _ => false,
    }
}

// ---------------------------------------------------------------------------
// Case
// ---------------------------------------------------------------------------

proof fn lemma_lower_char(c: char)
    ensures
        text::upper_char(text::lower_char(c)) == text::upper_char(c),
        text::lower_char(text::lower_char(c)) == text::lower_char(c),
        phoneme_map::is_word_char(text::lower_char(c)) == phoneme_map::is_word_char(c),
        text::is_white(text::lower_char(c)) == text::is_white(c),
        (text::lower_char(c) == '-') == (c == '-'),
        (c as u32) < 128 ==> (text::lower_char(c) as u32) < 128,
{
}

proof fn lemma_lower(s: Seq<char>)
    ensures
        text::ascii_upper(text::ascii_lower(s)) == text::ascii_upper(s),
        text::ascii_lower(text::ascii_lower(s)) == text::ascii_lower(s),
        text::all_ascii(s) ==> text::all_ascii(text::ascii_lower(s)),
{
    assert forall|i: int| 0 <= i < s.len() implies text::upper_char(
        text::ascii_lower(s)[i],
    ) == text::upper_char(#[trigger] s[i]) && text::lower_char(text::ascii_lower(s)[i])
        == text::lower_char(s[i]) && ((s[i] as u32) < 128 ==> (text::ascii_lower(s)[i] as u32)
        < 128) by {
        lemma_lower_char(s[i]);
    }
    assert(text::ascii_upper(text::ascii_lower(s)) =~= text::ascii_upper(s));
    assert(text::ascii_lower(text::ascii_lower(s)) =~= text::ascii_lower(s));
    if text::all_ascii(s) {
        assert forall|i: int| 0 <= i < s.len() implies (#[trigger] text::ascii_lower(s)[i] as u32)
            < 128 by {
            assert((s[i] as u32) < 128);
            lemma_lower_char(s[i]);
        }
    }
}

/// Whether a text is split at a letter in one case exactly where it is in the
/// other.
spec fn blind_to_case(sep: Separator) -> bool {
    forall|c: char| #[trigger] sep.splits(text::lower_char(c)) == sep.splits(c)
}

proof fn lemma_run_len_lower(s: Seq<char>, sep: Separator)
    requires
        blind_to_case(sep),
    ensures
        text::run_len(text::ascii_lower(s), sep) == text::run_len(s, sep),
    decreases s.len(),
{
    if s.len() > 0 {
        assert(text::ascii_lower(s).drop_first() =~= text::ascii_lower(s.drop_first()));
        assert(text::ascii_lower(s)[0] == text::lower_char(s[0]));
        lemma_run_len_lower(s.drop_first(), sep);
    }
}

proof fn lemma_runs_lower(s: Seq<char>, sep: Separator)
    requires
        blind_to_case(sep),
    ensures
        text::runs(text::ascii_lower(s), sep).len() == text::runs(s, sep).len(),
        forall|i: int|
            0 <= i < text::runs(s, sep).len() ==> #[trigger] text::runs(
                text::ascii_lower(s),
                sep,
            )[i] == text::ascii_lower(text::runs(s, sep)[i]),
    decreases s.len(),
{
    let low = text::ascii_lower(s);
    if s.len() > 0 {
        assert(low[0] == text::lower_char(s[0]));
        if sep.splits(s[0]) {
            assert(low.drop_first() =~= text::ascii_lower(s.drop_first()));
            lemma_runs_lower(s.drop_first(), sep);
        } else {
            let k = text::run_len(s, sep) as int;
            lemma_run_len_lower(s, sep);
            text::lemma_run_len_bound(s, sep);
            assert(low.take(k) =~= text::ascii_lower(s.take(k)));
            assert(low.skip(k) =~= text::ascii_lower(s.skip(k)));
            lemma_runs_lower(s.skip(k), sep);
        }
    }
}

/// Whether all characters of all parts are ASCII.
spec fn parts_ascii(parts: Seq<Seq<char>>) -> bool {
    forall|i: int, j: int|
        0 <= i < parts.len() && 0 <= j < parts[i].len() ==> (#[trigger] parts[i][j] as u32) < 128
}

proof fn lemma_runs_ascii(s: Seq<char>, sep: Separator)
    requires
        text::all_ascii(s),
    ensures
        parts_ascii(text::runs(s, sep)),
    decreases s.len(),
{
    if s.len() > 0 {
        if sep.splits(s[0]) {
            lemma_runs_ascii(s.drop_first(), sep);
        } else {
            let k = text::run_len(s, sep) as int;
            text::lemma_run_len_bound(s, sep);
            lemma_runs_ascii(s.skip(k), sep);
            let all = text::runs(s, sep);
            let rest = text::runs(s.skip(k), sep);
            assert forall|i: int, j: int| 0 <= i < all.len() && 0 <= j < all[i].len() implies (
            #[trigger] all[i][j] as u32) < 128 by {
                if i == 0 {
                    assert(all[i][j] == s[j]);
                } else {
                    assert(all[i] == rest[i - 1]);
                    assert((rest[i - 1][j] as u32) < 128);
                }
            }
        }
    }
}

proof fn lemma_lookup_lower(word: Seq<char>, dict: Entries)
    requires
        text::all_ascii(word),
    ensures
        phoneme_map::looked_up(text::ascii_lower(word), dict) == phoneme_map::looked_up(word, dict),
{
    lemma_lower(word);
    cmudict::law_lookup_ignores_ascii_case(dict, word, text::ascii_lower(word));
}

proof fn lemma_joined_lower(parts: Seq<Seq<char>>, low: Seq<Seq<char>>, dict: Entries)
    requires
        parts_ascii(parts),
        parts.len() == low.len(),
        forall|i: int| 0 <= i < parts.len() ==> #[trigger] low[i] == text::ascii_lower(parts[i]),
    ensures
        phoneme_map::joined(low, dict) == phoneme_map::joined(parts, dict),
    decreases parts.len(),
{
    if parts.len() > 0 {
        let end = parts.len() - 1;
        assert(low[end] == text::ascii_lower(parts[end]));
        assert forall|j: int| 0 <= j < parts[end].len() implies (#[trigger] parts[end][j] as u32)
            < 128 by {}
        lemma_lookup_lower(parts.last(), dict);
        let front = parts.drop_last();
        assert forall|i: int, j: int| 0 <= i < front.len() && 0 <= j < front[i].len() implies (
        #[trigger] front[i][j] as u32) < 128 by {
            assert((parts[i][j] as u32) < 128);
        }
        lemma_joined_lower(front, low.drop_last(), dict);
    }
}

/// A word resolves alike in whatever case it is written.
proof fn lemma_resolved_lower(word: Seq<char>, dict: Entries)
    requires
        text::all_ascii(word),
    ensures
        phoneme_map::resolved(text::ascii_lower(word), dict) == phoneme_map::resolved(word, dict),
{
    let low = text::ascii_lower(word);
    lemma_lower(word);
    lemma_lookup_lower(word, dict);
    assert(phoneme_map::hyphen_split(low, dict) == phoneme_map::hyphen_split(word, dict)) by {
        let sep = Separator::Mark('-');
        assert forall|c: char| #[trigger] sep.splits(text::lower_char(c)) == sep.splits(c) by {
            lemma_lower_char(c);
        }
        lemma_runs_lower(word, sep);
        lemma_runs_ascii(word, sep);
        lemma_joined_lower(text::runs(word, sep), text::runs(low, sep), dict);
    }
    let upper = text::ascii_upper(word);
    assert(text::ascii_upper(low) == upper);
    assert((|rule: (Seq<char>, Seq<Seq<char>>)|
        phoneme_map::possessive_by(text::ascii_upper(low), dict, rule)) =~= (|
        rule: (Seq<char>, Seq<Seq<char>>),
    | phoneme_map::possessive_by(text::ascii_upper(word), dict, rule)));
    assert((|prefix: (Seq<char>, Seq<Seq<char>>)|
        phoneme_map::chained_after(text::ascii_upper(low), dict, prefix)) =~= (|
        prefix: (Seq<char>, Seq<Seq<char>>),
    | phoneme_map::chained_after(text::ascii_upper(word), dict, prefix)));
}

// ---------------------------------------------------------------------------
// Words
// ---------------------------------------------------------------------------

proof fn lemma_cleaned_is_ascii(word: Seq<char>)
    ensures
        text::all_ascii(phoneme_map::cleaned(word)),
        forall|i: int|
            0 <= i < phoneme_map::cleaned(word).len() ==> phoneme_map::is_word_char(
                #[trigger] phoneme_map::cleaned(word)[i],
            ),
{
    let keep = |c: char| phoneme_map::is_word_char(c);
    assert forall|i: int| 0 <= i < phoneme_map::cleaned(word).len() implies (
    #[trigger] phoneme_map::cleaned(word)[i] as u32) < 128 && phoneme_map::is_word_char(
        phoneme_map::cleaned(word)[i],
    ) by {
        word.lemma_filter_pred(keep, i);
    }
}

/// Nothing is dropped of a text all of whose characters pass.
proof fn lemma_filter_all(s: Seq<char>, keep: spec_fn(char) -> bool)
    requires
        forall|i: int| 0 <= i < s.len() ==> keep(#[trigger] s[i]),
    ensures
        s.filter(keep) == s,
    decreases s.len(),
{
    reveal(Seq::filter);
    if s.len() > 0 {
        assert(keep(s[s.len() - 1]));
        lemma_filter_all(s.drop_last(), keep);
        assert(s.drop_last().push(s.last()) =~= s);
    }
}

/// A word resolves as what counts of it does.
proof fn lemma_word_folds(state: (Seq<i32>, ResolutionStats), word: Seq<char>, dict: Entries)
    ensures
        folded(word).len() == 0 ==> phoneme_map::with_word(state, word, dict) == state,
        phoneme_map::with_word(state, folded(word), dict) == phoneme_map::with_word(
            state,
            word,
            dict,
        ),
{
    let clean = phoneme_map::cleaned(word);
    let low = folded(word);
    lemma_cleaned_is_ascii(word);
    lemma_resolved_lower(clean, dict);
    let keep = |c: char| phoneme_map::is_word_char(c);
    assert forall|i: int| 0 <= i < low.len() implies keep(#[trigger] low[i]) by {
        assert(low[i] == text::lower_char(clean[i]));
        lemma_lower_char(clean[i]);
    }
    lemma_filter_all(low, keep);
    assert(phoneme_map::cleaned(low) == low);
}

proof fn lemma_counted_decide(words: Seq<Seq<char>>, dict: Entries)
    ensures
        phoneme_map::words_targets(counted(words), dict) == phoneme_map::words_targets(words, dict),
    decreases words.len(),
{
    if words.len() > 0 {
        let front = words.drop_last();
        lemma_counted_decide(front, dict);
        lemma_word_folds(phoneme_map::words_targets(front, dict), words.last(), dict);
        if folded(words.last()).len() > 0 {
            assert(counted(words).drop_last() =~= counted(front));
            assert(counted(words).last() == folded(words.last()));
        }
    }
}

proof fn lemma_counted_add(a: Seq<Seq<char>>, b: Seq<Seq<char>>)
    ensures
        counted(a + b) == counted(a) + counted(b),
    decreases b.len(),
{
    if b.len() == 0 {
        assert(a + b =~= a);
        assert(counted(a) + counted(b) =~= counted(a));
    } else {
        assert((a + b).drop_last() =~= a + b.drop_last());
        assert((a + b).last() == b.last());
        lemma_counted_add(a, b.drop_last());
        assert((counted(a) + counted(b.drop_last())).push(folded(b.last())) =~= counted(a)
            + counted(b.drop_last()).push(folded(b.last())));
    }
}

/// Words that come to the same once what does not count is dropped and case is
/// folded have the same targets and statistics.
pub proof fn law_words_that_count_decide(a: Seq<Seq<char>>, b: Seq<Seq<char>>, dict: Entries)
    requires
        counted(a) == counted(b),
    ensures
        phoneme_map::words_targets(a, dict) == phoneme_map::words_targets(b, dict),
{
    lemma_counted_decide(a, dict);
    lemma_counted_decide(b, dict);
}

/// A word without a letter, an apostrophe or a hyphen may stand anywhere: the
/// targets and the statistics stay as they are.
pub proof fn law_other_words_do_not_matter(
    before: Seq<Seq<char>>,
    word: Seq<char>,
    after: Seq<Seq<char>>,
    dict: Entries,
)
    requires
        forall|i: int| 0 <= i < word.len() ==> !phoneme_map::is_word_char(#[trigger] word[i]),
    ensures
        phoneme_map::words_targets(before + seq![word] + after, dict)
            == phoneme_map::words_targets(before + after, dict),
{
    let keep = |c: char| phoneme_map::is_word_char(c);
    lemma_filter_none(word, keep);
    assert(seq![word].drop_last() =~= Seq::<Seq<char>>::empty());
    assert(seq![word].last() == word);
    assert(counted(seq![word].drop_last()) =~= Seq::<Seq<char>>::empty());
    assert(counted(seq![word]) =~= Seq::<Seq<char>>::empty());
    lemma_counted_add(before, seq![word]);
    lemma_counted_add(before + seq![word], after);
    lemma_counted_add(before, after);
    assert(counted(before) + counted(seq![word]) =~= counted(before));
    law_words_that_count_decide(before + seq![word] + after, before + after, dict);
}

proof fn lemma_filter_none(s: Seq<char>, keep: spec_fn(char) -> bool)
    requires
        forall|i: int| 0 <= i < s.len() ==> !keep(#[trigger] s[i]),
    ensures
        s.filter(keep).len() == 0,
    decreases s.len(),
{
    reveal(Seq::filter);
    if s.len() > 0 {
        assert(!keep(s[s.len() - 1]));
        lemma_filter_none(s.drop_last(), keep);
    }
}

// ---------------------------------------------------------------------------
// Texts
// ---------------------------------------------------------------------------

proof fn lemma_kept_add(a: Seq<char>, b: Seq<char>)
    ensures
        kept(a + b) == kept(a) + kept(b),
{
    let keep = |c: char| stays(c);
    Seq::filter_distributes_over_add(a, b, keep);
    assert(text::ascii_lower(a.filter(keep) + b.filter(keep)) =~= text::ascii_lower(a.filter(keep))
        + text::ascii_lower(b.filter(keep)));
}

/// What stays of a stretch without white space is the word that counts.
proof fn lemma_kept_word(word: Seq<char>)
    requires
        forall|i: int| 0 <= i < word.len() ==> !text::is_white(#[trigger] word[i]),
    ensures
        kept(word) == folded(word),
    decreases word.len(),
{
    reveal(Seq::filter);
    let keep = |c: char| stays(c);
    let letters = |c: char| phoneme_map::is_word_char(c);
    if word.len() > 0 {
        let front = word.drop_last();
        assert(!text::is_white(word[word.len() - 1]));
        lemma_kept_word(front);
        let c = word.last();
        if phoneme_map::is_word_char(c) {
            assert(kept(word) =~= kept(front).push(text::lower_char(c)));
            assert(folded(word) =~= folded(front).push(text::lower_char(c)));
        } else {
            assert(word.filter(keep) == front.filter(keep));
            assert(word.filter(letters) == front.filter(letters));
        }
    } else {
        assert(kept(word) =~= folded(word));
    }
}

/// What stays of a text that starts with white space starts with white space.
proof fn lemma_kept_white(s: Seq<char>)
    requires
        s.len() > 0,
        text::is_white(s[0]),
    ensures
        kept(s).len() > 0,
        text::is_white(kept(s)[0]),
        kept(s).drop_first() == kept(s.drop_first()),
{
    let first = seq![s[0]];
    let keep = |c: char| stays(c);
    assert(s =~= first + s.drop_first());
    lemma_kept_add(first, s.drop_first());
    lemma_filter_all(first, keep);
    lemma_lower_char(s[0]);
    assert(kept(first) =~= seq![text::lower_char(s[0])]);
    assert(kept(s).drop_first() =~= kept(s.drop_first()));
}

/// The front run of `s`, and what follows it.
proof fn lemma_front_run(s: Seq<char>, sep: Separator)
    ensures
        ({
            let k = text::run_len(s, sep) as int;
            &&& 0 <= k <= s.len()
            &&& forall|i: int| 0 <= i < k ==> !sep.splits(#[trigger] s[i])
            &&& k < s.len() ==> sep.splits(s[k])
        }),
    decreases s.len(),
{
    if s.len() > 0 && !sep.splits(s[0]) {
        lemma_front_run(s.drop_first(), sep);
        let rest = s.drop_first();
        let k = text::run_len(s, sep) as int;
        assert forall|i: int| 0 <= i < k implies !sep.splits(#[trigger] s[i]) by {
            if i > 0 {
                assert(s[i] == rest[i - 1]);
            }
        }
    }
}

/// A stretch without a separator, and a separator or the end behind it, is the
/// front run.
proof fn lemma_run_len_of(word: Seq<char>, rest: Seq<char>, sep: Separator)
    requires
        forall|i: int| 0 <= i < word.len() ==> !sep.splits(#[trigger] word[i]),
        rest.len() == 0 || sep.splits(rest[0]),
    ensures
        text::run_len(word + rest, sep) == word.len(),
    decreases word.len(),
{
    if word.len() > 0 {
        assert((word + rest).drop_first() =~= word.drop_first() + rest);
        lemma_run_len_of(word.drop_first(), rest, sep);
    } else {
        assert(word + rest =~= rest);
    }
}

/// The words that are left of a text are those of its words that count.
proof fn lemma_words_left(s: Seq<char>)
    ensures
        words_left(s) == counted(text::runs(s, Separator::Whitespace)),
    decreases s.len(),
{
    let sep = Separator::Whitespace;
    let keep = |c: char| stays(c);
    if s.len() == 0 {
        reveal(Seq::filter);
        assert(kept(s) =~= Seq::<char>::empty());
        assert(words_left(s) =~= counted(text::runs(s, sep)));
    } else if text::is_white(s[0]) {
        lemma_kept_white(s);
        lemma_words_left(s.drop_first());
    } else {
        let k = text::run_len(s, sep) as int;
        lemma_front_run(s, sep);
        let word = s.take(k);
        let rest = s.skip(k);
        assert(s =~= word + rest);
        lemma_kept_add(word, rest);
        lemma_kept_word(word);
        lemma_words_left(rest);
        lemma_counted_add(seq![word], text::runs(rest, sep));
        assert(seq![word].drop_last() =~= Seq::<Seq<char>>::empty());
        assert(counted(seq![word].drop_last()) =~= Seq::<Seq<char>>::empty());
        let front = folded(word);
        let tail = kept(rest);
        if rest.len() > 0 {
            assert(rest[0] == s[k]);
            lemma_kept_white(rest);
        } else {
            reveal(Seq::filter);
            assert(tail =~= Seq::<char>::empty());
        }
        if front.len() == 0 {
            assert(counted(seq![word]) =~= Seq::<Seq<char>>::empty());
            assert(kept(s) =~= tail);
            assert(counted(text::runs(s, sep)) =~= counted(text::runs(rest, sep)));
        } else {
            assert(counted(seq![word]) =~= seq![front]);
            lemma_cleaned_is_ascii(word);
            assert forall|i: int| 0 <= i < front.len() implies !sep.splits(#[trigger] front[i]) by {
                let c = phoneme_map::cleaned(word)[i];
                assert(phoneme_map::is_word_char(c));
                assert(front[i] == text::lower_char(c));
                lemma_lower_char(c);
            }
            lemma_run_len_of(front, tail, sep);
            assert(kept(s).take(front.len() as int) =~= front);
            assert(kept(s).skip(front.len() as int) =~= tail);
            assert(kept(s)[0] == front[0]);
            assert(words_left(s) =~= seq![front] + text::runs(tail, sep));
        }
    }
}

/// Two transcripts of which the same words are left, once the characters that no
/// word is made of are dropped and case is folded, are both refused, or have the
/// same targets and the same statistics.
pub proof fn law_words_left_decide(a: Seq<char>, b: Seq<char>, dict: Entries)
    requires
        words_left(a) == words_left(b),
    ensures
        phoneme_map::words_targets(text::runs(a, Separator::Whitespace), dict)
            == phoneme_map::words_targets(text::runs(b, Separator::Whitespace), dict),
        same_outcome(a, b, dict),
{
    lemma_words_left(a);
    lemma_words_left(b);
    law_words_that_count_decide(
        text::runs(a, Separator::Whitespace),
        text::runs(b, Separator::Whitespace),
        dict,
    );
}

proof fn lemma_kept_lower(s: Seq<char>)
    ensures
        kept(text::ascii_lower(s)) == kept(s),
    decreases s.len(),
{
    reveal(Seq::filter);
    let keep = |c: char| stays(c);
    let low = text::ascii_lower(s);
    if s.len() == 0 {
        assert(low =~= s);
    } else {
        let front = s.drop_last();
        assert(low.drop_last() =~= text::ascii_lower(front));
        assert(low.last() == text::lower_char(s.last()));
        lemma_lower_char(s.last());
        lemma_kept_lower(front);
        if stays(s.last()) {
            assert(kept(s) =~= kept(front).push(text::lower_char(s.last())));
            assert(kept(low) =~= kept(text::ascii_lower(front)).push(
                text::lower_char(low.last()),
            ));
        } else {
            assert(s.filter(keep) == front.filter(keep));
            assert(low.filter(keep) == low.drop_last().filter(keep));
        }
    }
}

/// The case of letters does not matter to a transcript.
pub proof fn law_case_does_not_matter(a: Seq<char>, b: Seq<char>, dict: Entries)
    requires
        text::ascii_lower(a) == text::ascii_lower(b),
    ensures
        same_outcome(a, b, dict),
{
    lemma_kept_lower(a);
    lemma_kept_lower(b);
    law_words_left_decide(a, b, dict);
}

/// A character that is neither white space, a letter, an apostrophe nor a hyphen
/// may stand anywhere in a transcript.
pub proof fn law_other_characters_do_not_matter(s: Seq<char>, at: int, c: char, dict: Entries)
    requires
        0 <= at <= s.len(),
        !stays(c),
    ensures
        same_outcome(s.insert(at, c), s, dict),
{
    let keep = |x: char| stays(x);
    let one = seq![c];
    lemma_filter_none(one, keep);
    assert(kept(one) =~= Seq::<char>::empty());
    assert(s.insert(at, c) =~= s.take(at) + one + s.skip(at));
    assert(s =~= s.take(at) + s.skip(at));
    lemma_kept_add(s.take(at), one);
    lemma_kept_add(s.take(at) + one, s.skip(at));
    lemma_kept_add(s.take(at), s.skip(at));
    assert(kept(s.take(at)) + kept(one) =~= kept(s.take(at)));
    law_words_left_decide(s.insert(at, c), s, dict);
}

} // verus!
