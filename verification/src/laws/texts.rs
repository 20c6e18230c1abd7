//! Texts: how they are split, trimmed, ordered, and how numbers are written.

use vstd::prelude::*;

use crate::text;
use crate::text::Separator;

verus! {

proof fn lemma_run_len_before(a: Seq<char>, c: char, b: Seq<char>, sep: Separator)
    requires
        sep.splits(c),
    ensures
        text::run_len(a + seq![c] + b, sep) == text::run_len(a, sep) <= a.len(),
    decreases a.len(),
{
    let all = a + seq![c] + b;
    if a.len() == 0 {
        assert(all[0] == c);
    } else if !sep.splits(a[0]) {
        assert(all[0] == a[0]);
        assert(all.drop_first() =~= a.drop_first() + seq![c] + b);
        lemma_run_len_before(a.drop_first(), c, b, sep);
    } else {
        assert(all[0] == a[0]);
    }
}

/// A separator parts a text: what is split behind it does not depend on what
/// stands before it.
pub proof fn law_separator_parts_text(a: Seq<char>, c: char, b: Seq<char>, sep: Separator)
    requires
        sep.splits(c),
    ensures
        text::runs(a + seq![c] + b, sep) == text::runs(a, sep) + text::runs(b, sep),
    decreases a.len(),
{
    let all = a + seq![c] + b;
    if a.len() == 0 {
        assert(all.drop_first() =~= b);
        assert(text::runs(a, sep) + text::runs(b, sep) =~= text::runs(b, sep));
        assert(all[0] == c);
    } else if sep.splits(a[0]) {
        assert(all[0] == a[0]);
        assert(all.drop_first() =~= a.drop_first() + seq![c] + b);
        law_separator_parts_text(a.drop_first(), c, b, sep);
    } else {
        let k = text::run_len(a, sep) as int;
        lemma_run_len_before(a, c, b, sep);
        assert(all[0] == a[0]);
        assert(all.take(k) =~= a.take(k));
        assert(all.skip(k) =~= a.skip(k) + seq![c] + b);
        law_separator_parts_text(a.skip(k), c, b, sep);
        assert(seq![a.take(k)] + (text::runs(a.skip(k), sep) + text::runs(b, sep)) =~= (seq![
            a.take(k),
        ] + text::runs(a.skip(k), sep)) + text::runs(b, sep));
    }
}

proof fn lemma_run_len_whole(s: Seq<char>, sep: Separator)
    requires
        forall|i: int| 0 <= i < s.len() ==> !sep.splits(#[trigger] s[i]),
    ensures
        text::run_len(s, sep) == s.len(),
    decreases s.len(),
{
    if s.len() > 0 {
        lemma_run_len_whole(s.drop_first(), sep);
    }
}

/// A text without a separator is one piece; an empty text is none.
pub proof fn law_unseparated_text_is_one_piece(s: Seq<char>, sep: Separator)
    requires
        forall|i: int| 0 <= i < s.len() ==> !sep.splits(#[trigger] s[i]),
    ensures
        text::runs(s, sep) == if s.len() == 0 {
            Seq::<Seq<char>>::empty()
        } else {
            seq![s]
        },
{
    if s.len() > 0 {
        lemma_run_len_whole(s, sep);
        assert(s.take(s.len() as int) =~= s);
        assert(s.skip(s.len() as int) =~= Seq::<char>::empty());
        assert(text::runs(s.skip(s.len() as int), sep) =~= Seq::<Seq<char>>::empty());
        assert(text::runs(s, sep) =~= seq![s]);
    }
}

/// Words are parted by blanks, tabs and line ends, among others, and by nothing
/// that is a letter, a digit or a mark of ASCII.
pub proof fn law_white_space(c: char)
    ensures
        c == ' ' || c == '\t' || c == '\n' || c == '\r' ==> text::is_white(c),
        '!' <= c <= '~' ==> !text::is_white(c),
{
}

/// Letters are those of the English alphabet, and only they have a case.
pub proof fn law_letters(c: char)
    ensures
        text::is_letter(c) <==> 'A' <= c <= 'Z' || 'a' <= c <= 'z',
        !text::is_letter(c) ==> text::lower_char(c) == c && text::upper_char(c) == c,
        'A' <= c <= 'Z' ==> text::upper_char(c) == c && text::lower_char(c) as u32 == c as u32
            + 32,
        'a' <= c <= 'z' ==> text::lower_char(c) == c && text::upper_char(c) as u32 == c as u32
            - 32,
{
}

proof fn lemma_trim_front(s: Seq<char>)
    ensures
        exists|i: int| #[trigger] front_trim(s, i),
    decreases s.len(),
{
    if s.len() > 0 && text::is_white(s[0]) {
        lemma_trim_front(s.drop_first());
        let i = choose|i: int| #[trigger] front_trim(s.drop_first(), i);
        assert(s.skip(i + 1) =~= s.drop_first().skip(i));
        assert forall|k: int| 0 <= k < i + 1 implies text::is_white(#[trigger] s[k]) by {
            if k > 0 {
                assert(s[k] == s.drop_first()[k - 1]);
            }
        }
        assert(front_trim(s, i + 1));
    } else {
        assert(s.skip(0) =~= s);
        assert(front_trim(s, 0));
    }
}

/// Whether trimming the front of `s` takes off its first `i` characters.
pub open spec fn front_trim(s: Seq<char>, i: int) -> bool {
    &&& 0 <= i <= s.len()
    &&& text::trim_front(s) == s.skip(i)
    &&& forall|k: int| 0 <= k < i ==> text::is_white(#[trigger] s[k])
    &&& i < s.len() ==> !text::is_white(s[i])
}

proof fn lemma_trim_back(s: Seq<char>)
    ensures
        exists|j: int| #[trigger] back_trim(s, j),
    decreases s.len(),
{
    if s.len() > 0 && text::is_white(s.last()) {
        let front = s.drop_last();
        lemma_trim_back(front);
        let j = choose|j: int| #[trigger] back_trim(front, j);
        assert(s.take(j) =~= front.take(j));
        assert forall|k: int| j <= k < s.len() implies text::is_white(#[trigger] s[k]) by {
            if k < front.len() {
                assert(s[k] == front[k]);
            }
        }
        assert(back_trim(s, j));
    } else {
        assert(s.take(s.len() as int) =~= s);
        assert(back_trim(s, s.len() as int));
    }
}

/// Whether trimming the back of `s` leaves its first `j` characters.
pub open spec fn back_trim(s: Seq<char>, j: int) -> bool {
    &&& 0 <= j <= s.len()
    &&& text::trim_back(s) == s.take(j)
    &&& forall|k: int| j <= k < s.len() ==> text::is_white(#[trigger] s[k])
    &&& j > 0 ==> !text::is_white(s[j - 1])
}

/// Trimming takes off white space at both ends and nothing else.
pub proof fn law_trimming(s: Seq<char>)
    ensures
        exists|i: int, j: int|
            #![trigger s.subrange(i, j)]
            {
                &&& 0 <= i <= j <= s.len()
                &&& text::trimmed(s) == s.subrange(i, j)
                &&& forall|k: int| 0 <= k < i || j <= k < s.len() ==> text::is_white(#[trigger] s[k])
                &&& i < j ==> !text::is_white(s[i]) && !text::is_white(s[j - 1])
            },
{
    lemma_trim_front(s);
    let i = choose|i: int| #[trigger] front_trim(s, i);
    let rest = s.skip(i);
    lemma_trim_back(rest);
    let j = choose|j: int| #[trigger] back_trim(rest, j);
    assert(rest.take(j) =~= s.subrange(i, i + j));
    assert forall|k: int| 0 <= k < i || i + j <= k < s.len() implies text::is_white(
        #[trigger] s[k],
    ) by {
        if k >= i {
            assert(s[k] == rest[k - i]);
        }
    }
    if j > 0 {
        assert(s[i + j - 1] == rest[j - 1]);
    }
}

/// A line ends at a line feed, which takes one carriage return with it; what
/// follows is the next line.
pub proof fn law_lines(line: Seq<char>, rest: Seq<char>)
    requires
        forall|i: int| 0 <= i < line.len() ==> #[trigger] line[i] != '\n',
    ensures
        text::lines(line + seq!['\n'] + rest) == seq![
            if line.len() > 0 && line.last() == '\r' {
                line.drop_last()
            } else {
                line
            },
        ] + text::lines(rest),
        text::lines(line) == if line.len() == 0 {
            Seq::<Seq<char>>::empty()
        } else {
            seq![line]
        },
{
    let sep = Separator::Mark('\n');
    let all = line + seq!['\n'] + rest;
    lemma_run_len_before(line, '\n', rest, sep);
    lemma_run_len_whole(line, sep);
    assert(all.take(line.len() as int) =~= line);
    assert(all.skip(line.len() as int + 1) =~= rest);
}

/// A number is written digit by digit, the last digit last.
pub proof fn law_decimal_digits(n: nat, d: nat)
    requires
        d < 10,
    ensures
        text::decimal(d).len() == 1,
        text::decimal(d)[0] as u32 == 48 + d,
        n > 0 ==> text::decimal(10 * n + d) == text::decimal(n) + text::decimal(d),
{
    if n > 0 {
        assert((10 * n + d) / 10 == n);
        assert((10 * n + d) % 10 == d);
        assert(text::decimal(n).push(text::digit_char(d)) =~= text::decimal(n) + text::decimal(d));
    }
}

/// Padding puts zeros in front, and only as many as are needed.
pub proof fn law_padded_decimal(n: nat, width: nat)
    ensures
        ({
            let p = text::padded_decimal(n, width);
            let d = text::decimal(n);
            &&& p.len() == if d.len() < width {
                width
            } else {
                d.len()
            }
            &&& p.skip(p.len() - d.len()) == d
            &&& forall|i: int| 0 <= i < p.len() - d.len() ==> #[trigger] p[i] == '0'
        }),
{
    let p = text::padded_decimal(n, width);
    let d = text::decimal(n);
    assert(p.skip(p.len() - d.len()) =~= d);
}

/// Texts are ordered by the first character in which they differ, and a text
/// stands before those that go on where it ends.
pub proof fn law_order_of_texts(
    common: Seq<char>,
    x: char,
    y: char,
    a: Seq<char>,
    b: Seq<char>,
)
    requires
        x < y,
    ensures
        text::before(common + seq![x] + a, common + seq![y] + b),
        !text::before(common + seq![y] + b, common + seq![x] + a),
        text::before(common, common + seq![x] + a),
        !text::before(common + seq![x] + a, common),
    decreases common.len(),
{
    let p = common + seq![x] + a;
    let q = common + seq![y] + b;
    if common.len() > 0 {
        let tail = common.drop_first();
        law_order_of_texts(tail, x, y, a, b);
        assert(p[0] == common[0] && q[0] == common[0]);
        assert(p.drop_first() =~= tail + seq![x] + a);
        assert(q.drop_first() =~= tail + seq![y] + b);
    } else {
        assert(p[0] == x && q[0] == y);
    }
}

/// White space is what Unicode calls so: 25 characters in all.
pub proof fn law_all_white_space(c: char)
    ensures
        text::is_white(c) <==> {
            ||| '\u{9}' <= c <= '\u{D}'
            ||| '\u{2000}' <= c <= '\u{200A}'
            ||| c == ' ' || c == '\u{85}' || c == '\u{A0}' || c == '\u{1680}'
            ||| c == '\u{2028}' || c == '\u{2029}' || c == '\u{202F}' || c == '\u{205F}'
            ||| c == '\u{3000}'
        },
{
}

/// In plain text only letters have a case; each is changed where it stands.
pub proof fn law_case_of_plain_text(s: Seq<char>, i: int)
    requires
        text::all_ascii(s),
        0 <= i < s.len(),
    ensures
        text::lowered(s).len() == s.len(),
        text::uppered(s).len() == s.len(),
        'A' <= s[i] <= 'Z' ==> text::lowered(s)[i] as u32 == s[i] as u32 + 32,
        !('A' <= s[i] <= 'Z') ==> text::lowered(s)[i] == s[i],
        'a' <= s[i] <= 'z' ==> text::uppered(s)[i] as u32 == s[i] as u32 - 32,
        !('a' <= s[i] <= 'z') ==> text::uppered(s)[i] == s[i],
{
    law_letters(s[i]);
}

/// A negative number is written with its sign before it, any other without one.
pub proof fn law_signed_decimal(n: nat)
    ensures
        text::signed_decimal(n as int) == text::decimal(n),
        n > 0 ==> text::signed_decimal(-n) == seq!['-'] + text::decimal(n),
{
}

/// The value of digits grows tenfold with each further digit.
pub proof fn law_value_of_digits(s: Seq<char>, c: char)
    requires
        '0' <= c <= '9',
    ensures
        text::digits_value(seq![]) == 0,
        text::digits_value(s.push(c)) == 10 * text::digits_value(s) + (c as u32 - '0' as u32),
{
    assert(s.push(c).drop_last() =~= s);
}

/// A number is read exactly from digits, at least one and with a plus sign before
/// them or not, whose value is not too large.
pub proof fn law_numbers_that_are_read(s: Seq<char>, i: int)
    ensures
        text::parsed_usize(seq![]) is None,
        text::parsed_usize(seq!['+']) is None,
        0 <= i < s.len() && !('0' <= s[i] <= '9') ==> text::parsed_usize(seq!['+'] + s) is None,
        0 < i < s.len() && !('0' <= s[i] <= '9') ==> text::parsed_usize(s) is None,
        s.len() > 0 && s[0] != '+' ==> text::parsed_usize(seq!['+'] + s) == text::parsed_usize(s),
        s.len() > 0 && (forall|k: int| 0 <= k < s.len() ==> '0' <= #[trigger] s[k] <= '9') ==> (
        text::parsed_usize(s) == if text::digits_value(s) <= usize::MAX {
            Some(text::digits_value(s) as usize)
        } else {
            None
        }),
{
    let signed = seq!['+'] + s;
    assert(signed.drop_first() =~= s);
    assert(seq!['+'].drop_first() =~= Seq::<char>::empty());
    if 0 <= i < s.len() && !('0' <= s[i] <= '9') {
        assert(!text::all_digits(s)) by {
            assert(!text::is_digit(s[i]));
        }
        if i > 0 {
            let rest = s.drop_first();
            assert(rest[i - 1] == s[i]);
            assert(!text::all_digits(rest)) by {
                assert(!text::is_digit(rest[i - 1]));
            }
        }
    }
    if s.len() > 0 && (forall|k: int| 0 <= k < s.len() ==> '0' <= #[trigger] s[k] <= '9') {
        assert('0' <= s[0] <= '9');
        assert(text::all_digits(s));
    }
}

} // verus!
