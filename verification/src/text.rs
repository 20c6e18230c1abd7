//! Character sequences: the string operations that the dictionary, the
//! transcript resolver and the report writers are built on.
//!
//! Text is modelled as `Seq<char>`; executable code works on `Vec<char>` and
//! converts at its edges.

use vstd::prelude::*;

verus! {

/// `str` equality compares the two texts character by character.
pub assume_specification[ <str as PartialEq>::eq ](a: &str, b: &str) -> (r: bool)
    ensures
        r == (a@ == b@),
;

/// `String::push` appends one character to the end of the text.
pub assume_specification[ String::push ](s: &mut String, c: char)
    ensures
        final(s)@ == old(s)@.push(c),
;

/// The text that `str::to_lowercase` gives for `s`.
pub uninterp spec fn unicode_lowercase(s: Seq<char>) -> Seq<char>;

/// `str::to_lowercase` depends on the characters of its argument alone; which
/// text it gives is left to the Unicode tables.
pub assume_specification[ str::to_lowercase ](s: &str) -> (r: String)
    ensures
        r@ == unicode_lowercase(s@),
;

/// The text that `str::to_uppercase` gives for `s`.
pub uninterp spec fn unicode_uppercase(s: Seq<char>) -> Seq<char>;

/// `str::to_uppercase` depends on the characters of its argument alone; which
/// text it gives is left to the Unicode tables.
pub assume_specification[ str::to_uppercase ](s: &str) -> (r: String)
    ensures
        r@ == unicode_uppercase(s@),
;

// ---------------------------------------------------------------------------
// Characters
// ---------------------------------------------------------------------------

/// The Unicode `White_Space` property.
pub open spec fn is_white(c: char) -> bool {
    let n = c as u32;
    ||| 0x9 <= n <= 0xD
    ||| n == 0x20
    ||| n == 0x85
    ||| n == 0xA0
    ||| n == 0x1680
    ||| 0x2000 <= n <= 0x200A
    ||| n == 0x2028
    ||| n == 0x2029
    ||| n == 0x202F
    ||| n == 0x205F
    ||| n == 0x3000
}

/// Whether `c` separates words.
pub fn char_is_white(c: char) -> (r: bool)
    ensures
        r == is_white(c),
{
    let n: u32 = c as u32;
    (0x9 <= n && n <= 0xD) || n == 0x20 || n == 0x85 || n == 0xA0 || n == 0x1680 || (0x2000 <= n
        && n <= 0x200A) || n == 0x2028 || n == 0x2029 || n == 0x202F || n == 0x205F || n == 0x3000
}

pub open spec fn is_upper_letter(c: char) -> bool {
    'A' <= c <= 'Z'
}

pub open spec fn is_lower_letter(c: char) -> bool {
    'a' <= c <= 'z'
}

pub open spec fn is_letter(c: char) -> bool {
    is_upper_letter(c) || is_lower_letter(c)
}

/// Whether `c` is one of the 52 ASCII letters.
pub fn char_is_letter(c: char) -> (r: bool)
    ensures
        r == is_letter(c),
{
    ('A' <= c && c <= 'Z') || ('a' <= c && c <= 'z')
}

pub open spec fn upper_char(c: char) -> char {
    if is_lower_letter(c) {
        ((c as u8 - 32) as u8) as char
    } else {
        c
    }
}

pub open spec fn lower_char(c: char) -> char {
    if is_upper_letter(c) {
        ((c as u8 + 32) as u8) as char
    } else {
        c
    }
}

pub fn char_to_upper(c: char) -> (r: char)
    ensures
        r == upper_char(c),
{
    if 'a' <= c && c <= 'z' {
        let b: u8 = c as u8;
        (b - 32) as char
    } else {
        c
    }
}

pub fn char_to_lower(c: char) -> (r: char)
    ensures
        r == lower_char(c),
{
    if 'A' <= c && c <= 'Z' {
        let b: u8 = c as u8;
        (b + 32) as char
    } else {
        c
    }
}

// ---------------------------------------------------------------------------
// Conversions
// ---------------------------------------------------------------------------

/// The characters of `s`, in order.
pub fn chars_of(s: &str) -> (r: Vec<char>)
    ensures
        r@ == s@,
{
    let mut out: Vec<char> = Vec::new();
    for c in it: s.chars()
        invariant
            out@ == it.seq().take(it.index() as int),
    {
        out.push(c);
    }
    out
}

/// The text made of `chars`, in order.
pub fn string_of(chars: &[char]) -> (r: String)
    ensures
        r@ == chars@,
{
    let mut out = String::new();
    let mut i: usize = 0;
    while i < chars.len()
        invariant
            i <= chars@.len(),
            out@ == chars@.take(i as int),
        decreases chars@.len() - i,
    {
        out.push(chars[i]);
        i = i + 1;
        assert(chars@.take(i as int) =~= chars@.take(i - 1).push(chars@[i - 1]));
    }
    assert(chars@.take(i as int) =~= chars@);
    out
}

/// The characters of `v` from `from` up to, not including, `to`.
pub fn slice_of(v: &[char], from: usize, to: usize) -> (r: Vec<char>)
    requires
        from <= to <= v@.len(),
    ensures
        r@ == v@.subrange(from as int, to as int),
{
    let mut out: Vec<char> = Vec::new();
    let mut i: usize = from;
    while i < to
        invariant
            from <= i <= to <= v@.len(),
            out@ == v@.subrange(from as int, i as int),
        decreases to - i,
    {
        out.push(v[i]);
        i = i + 1;
        assert(v@.subrange(from as int, i as int) =~= v@.subrange(from as int, i - 1).push(
            v@[i - 1],
        ));
    }
    out
}

pub open spec fn ascii_upper(s: Seq<char>) -> Seq<char> {
    s.map_values(|c: char| upper_char(c))
}

pub open spec fn ascii_lower(s: Seq<char>) -> Seq<char> {
    s.map_values(|c: char| lower_char(c))
}

/// `s` with its ASCII letters in upper case and nothing else changed.
pub fn to_ascii_upper(s: &str) -> (r: Vec<char>)
    ensures
        r@ == ascii_upper(s@),
{
    let mut out: Vec<char> = Vec::new();
    for c in it: s.chars()
        invariant
            out@ == ascii_upper(it.seq().take(it.index() as int)),
    {
        out.push(char_to_upper(c));
        assert(ascii_upper(it.seq().take(it.index() + 1)) =~= ascii_upper(
            it.seq().take(it.index() as int),
        ).push(upper_char(c)));
    }
    assert(s@.take(s@.len() as int) =~= s@);
    out
}

pub open spec fn all_ascii(s: Seq<char>) -> bool {
    forall|i: int| 0 <= i < s.len() ==> (#[trigger] s[i] as u32) < 128
}

/// What `lowercase` gives: the ASCII mapping where the text is all ASCII, the
/// Unicode one elsewhere.
pub open spec fn lowered(s: Seq<char>) -> Seq<char> {
    if all_ascii(s) {
        ascii_lower(s)
    } else {
        unicode_lowercase(s)
    }
}

pub open spec fn uppered(s: Seq<char>) -> Seq<char> {
    if all_ascii(s) {
        ascii_upper(s)
    } else {
        unicode_uppercase(s)
    }
}

fn has_only_ascii(s: &str) -> (r: bool)
    ensures
        r == all_ascii(s@),
{
    let v = chars_of(s);
    let mut i: usize = 0;
    while i < v.len()
        invariant
            i <= v@.len(),
            v@ == s@,
            all_ascii(v@.take(i as int)),
        decreases v@.len() - i,
    {
        if v[i] as u32 >= 128 {
            return false;
        }
        i = i + 1;
        assert(v@.take(i as int) =~= v@.take(i - 1).push(v@[i - 1]));
    }
    assert(v@.take(i as int) =~= s@);
    true
}

/// `s` in lower case.
pub fn lowercase(s: &str) -> (r: String)
    ensures
        r@ == lowered(s@),
{
    if has_only_ascii(s) {
        let mut out = String::new();
        for c in it: s.chars()
            invariant
                out@ == ascii_lower(it.seq().take(it.index() as int)),
        {
            out.push(char_to_lower(c));
            assert(ascii_lower(it.seq().take(it.index() + 1)) =~= ascii_lower(
                it.seq().take(it.index() as int),
            ).push(lower_char(c)));
        }
        assert(s@.take(s@.len() as int) =~= s@);
        out
    } else {
        s.to_lowercase()
    }
}

/// `s` in upper case.
pub fn uppercase(s: &str) -> (r: String)
    ensures
        r@ == uppered(s@),
{
    if has_only_ascii(s) {
        let v = to_ascii_upper(s);
        string_of(v.as_slice())
    } else {
        s.to_uppercase()
    }
}

// ---------------------------------------------------------------------------
// Prefixes and suffixes
// ---------------------------------------------------------------------------

/// Whether `v` ends with `suffix`.
pub fn ends_with(v: &[char], suffix: &str) -> (r: bool)
    ensures
        r == suffix@.is_suffix_of(v@),
{
    let t = chars_of(suffix);
    if t.len() > v.len() {
        return false;
    }
    let n: usize = v.len();
    let off: usize = n - t.len();
    let mut i: usize = 0;
    while i < t.len()
        invariant
            i <= t@.len() <= v@.len(),
            n == v@.len(),
            off == n - t@.len(),
            t@ == suffix@,
            forall|k: int| 0 <= k < i ==> v@[off + k] == t@[k],
        decreases t@.len() - i,
    {
        if v[off + i] != t[i] {
            assert(v@.subrange(off as int, v@.len() as int)[i as int] != t@[i as int]);
            return false;
        }
        i = i + 1;
    }
    assert(suffix@ =~= v@.subrange(off as int, v@.len() as int));
    true
}

/// Whether `v` starts with `prefix`.
pub fn starts_with(v: &[char], prefix: &str) -> (r: bool)
    ensures
        r == prefix@.is_prefix_of(v@),
{
    let t = chars_of(prefix);
    if t.len() > v.len() {
        return false;
    }
    let mut i: usize = 0;
    while i < t.len()
        invariant
            i <= t@.len() <= v@.len(),
            t@ == prefix@,
            forall|k: int| 0 <= k < i ==> v@[k] == t@[k],
        decreases t@.len() - i,
    {
        if v[i] != t[i] {
            assert(v@.subrange(0, t@.len() as int)[i as int] != t@[i as int]);
            return false;
        }
        i = i + 1;
    }
    assert(prefix@ =~= v@.subrange(0, t@.len() as int));
    true
}

// ---------------------------------------------------------------------------
// Splitting
// ---------------------------------------------------------------------------

/// What a text is split at.
#[derive(Clone, Copy)]
pub enum Separator {
    /// Any white space.
    Whitespace,
    /// One character.
    Mark(char),
}

impl Separator {
    pub open spec fn splits(self, c: char) -> bool {
        match self {
            Separator::Whitespace => is_white(c),
            Separator::Mark(m) => c == m,
        }
    }

    /// Whether the text is split at `c`.
    pub fn is_at(&self, c: char) -> (r: bool)
        ensures
            r == self.splits(c),
    {
        match self {
            Separator::Whitespace => char_is_white(c),
            Separator::Mark(m) => c == *m,
        }
    }
}

/// How many characters at the front of `s` come before the first separator.
pub open spec fn run_len(s: Seq<char>, sep: Separator) -> nat
    decreases s.len(),
{
    if s.len() == 0 || sep.splits(s[0]) {
        0
    } else {
        1 + run_len(s.drop_first(), sep)
    }
}

pub proof fn lemma_run_len_bound(s: Seq<char>, sep: Separator)
    ensures
        run_len(s, sep) <= s.len(),
    decreases s.len(),
{
    if s.len() != 0 && !sep.splits(s[0]) {
        lemma_run_len_bound(s.drop_first(), sep);
    }
}

/// The maximal non-empty stretches of `s` that hold no separator, in order.
pub open spec fn runs(s: Seq<char>, sep: Separator) -> Seq<Seq<char>>
    decreases s.len(),
{
    proof {
        lemma_run_len_bound(s, sep);
    }
    if s.len() == 0 {
        seq![]
    } else if sep.splits(s[0]) {
        runs(s.drop_first(), sep)
    } else {
        let k = run_len(s, sep) as int;
        seq![s.take(k)] + runs(s.skip(k), sep)
    }
}

/// Where the stretch that starts at `from` ends: no separator lies in between,
/// and one (or the end of `s`) follows.
proof fn lemma_run_len_at(s: Seq<char>, from: int, to: int, sep: Separator)
    requires
        0 <= from <= to <= s.len(),
        forall|k: int| from <= k < to ==> !sep.splits(#[trigger] s[k]),
        to == s.len() || sep.splits(s[to]),
    ensures
        run_len(s.skip(from), sep) == to - from,
    decreases to - from,
{
    if from < to {
        assert(s.skip(from).drop_first() =~= s.skip(from + 1));
        lemma_run_len_at(s, from + 1, to, sep);
    }
}

/// The characters of each text of `v`.
pub open spec fn texts(v: Seq<Vec<char>>) -> Seq<Seq<char>> {
    v.map_values(|t: Vec<char>| t@)
}

/// The characters of each string of `v`.
pub open spec fn strings(v: Seq<String>) -> Seq<Seq<char>> {
    v.map_values(|t: String| t@)
}

/// The runs of `v`, each as its own characters.
pub fn split_runs(v: &[char], sep: Separator) -> (r: Vec<Vec<char>>)
    ensures
        texts(r@) == runs(v@, sep),
{
    let n: usize = v.len();
    let mut out: Vec<Vec<char>> = Vec::new();
    let mut i: usize = 0;
    assert(v@.skip(0) =~= v@);
    assert(texts(out@) + runs(v@, sep) =~= runs(v@, sep));
    while i < n
        invariant
            n == v@.len(),
            i <= n,
            runs(v@, sep) == texts(out@) + runs(v@.skip(i as int), sep),
        decreases n - i,
    {
        if sep.is_at(v[i]) {
            assert(v@.skip(i as int).drop_first() =~= v@.skip(i + 1));
            i = i + 1;
        } else {
            let from: usize = i;
            i = i + 1;
            while i < n && !sep.is_at(v[i])
                invariant
                    n == v@.len(),
                    from < i <= n,
                    forall|k: int| from <= k < i ==> !sep.splits(#[trigger] v@[k]),
                decreases n - i,
            {
                i = i + 1;
            }
            let piece = slice_of(v, from, i);
            proof {
                lemma_run_len_at(v@, from as int, i as int, sep);
                let rest = v@.skip(from as int);
                assert(rest.take(i - from) =~= v@.subrange(from as int, i as int));
                assert(rest.skip(i - from) =~= v@.skip(i as int));
                assert(rest[0] == v@[from as int]);
            }
            let ghost before = texts(out@);
            out.push(piece);
            assert(texts(out@) =~= before.push(piece@));
            assert(before + (seq![piece@] + runs(v@.skip(i as int), sep)) =~= texts(out@)
                + runs(v@.skip(i as int), sep));
        }
    }
    assert(v@.skip(i as int) =~= Seq::<char>::empty());
    assert(texts(out@) + Seq::<Seq<char>>::empty() =~= texts(out@));
    out
}

/// The words of `s`: its runs between white space.
pub fn split_whitespace(s: &str) -> (r: Vec<Vec<char>>)
    ensures
        texts(r@) == runs(s@, Separator::Whitespace),
{
    let v = chars_of(s);
    split_runs(v.as_slice(), Separator::Whitespace)
}

pub open spec fn trim_front(s: Seq<char>) -> Seq<char>
    decreases s.len(),
{
    if s.len() > 0 && is_white(s[0]) {
        trim_front(s.drop_first())
    } else {
        s
    }
}

pub open spec fn trim_back(s: Seq<char>) -> Seq<char>
    decreases s.len(),
{
    if s.len() > 0 && is_white(s.last()) {
        trim_back(s.drop_last())
    } else {
        s
    }
}

/// `s` without the white space at its two ends.
pub open spec fn trimmed(s: Seq<char>) -> Seq<char> {
    trim_back(trim_front(s))
}

/// `v` without the white space at its two ends.
pub fn trim(v: &[char]) -> (r: Vec<char>)
    ensures
        r@ == trimmed(v@),
{
    let n: usize = v.len();
    let mut from: usize = 0;
    assert(v@.skip(0) =~= v@);
    while from < n && char_is_white(v[from])
        invariant
            n == v@.len(),
            from <= n,
            trim_front(v@) == trim_front(v@.skip(from as int)),
        decreases n - from,
    {
        assert(v@.skip(from as int).drop_first() =~= v@.skip(from + 1));
        from = from + 1;
    }
    let ghost front = v@.skip(from as int);
    assert(trim_front(v@) == front);
    let mut to: usize = n;
    assert(v@.subrange(from as int, n as int) =~= front);
    while to > from && char_is_white(v[to - 1])
        invariant
            n == v@.len(),
            from <= to <= n,
            trim_back(front) == trim_back(v@.subrange(from as int, to as int)),
        decreases to,
    {
        assert(v@.subrange(from as int, to as int).drop_last() =~= v@.subrange(
            from as int,
            to - 1,
        ));
        to = to - 1;
    }
    slice_of(v, from, to)
}

/// The lines of `s`: a line ends at a line feed, with the carriage return
/// before it if there is one; the last line needs no ending.
pub open spec fn lines(s: Seq<char>) -> Seq<Seq<char>>
    decreases s.len(),
{
    proof {
        lemma_run_len_bound(s, Separator::Mark('\n'));
    }
    if s.len() == 0 {
        seq![]
    } else {
        let k = run_len(s, Separator::Mark('\n')) as int;
        if k == s.len() {
            seq![s]
        } else {
            seq![without_return(s.take(k))] + lines(s.skip(k + 1))
        }
    }
}

pub open spec fn without_return(line: Seq<char>) -> Seq<char> {
    if line.len() > 0 && line.last() == '\r' {
        line.drop_last()
    } else {
        line
    }
}

/// The lines of `s`, without their endings.
pub fn split_lines(s: &str) -> (r: Vec<Vec<char>>)
    ensures
        texts(r@) == lines(s@),
{
    let sep = Separator::Mark('\n');
    let v = chars_of(s);
    let n: usize = v.len();
    let mut out: Vec<Vec<char>> = Vec::new();
    let mut i: usize = 0;
    assert(v@.skip(0) =~= v@);
    assert(texts(out@) + lines(v@) =~= lines(v@));
    while i < n
        invariant
            sep == Separator::Mark('\n'),
            n == v@.len(),
            i <= n,
            lines(v@) == texts(out@) + lines(v@.skip(i as int)),
        decreases n - i,
    {
        let from: usize = i;
        let mut to: usize = i;
        while to < n && v[to] != '\n'
            invariant
                sep == Separator::Mark('\n'),
                n == v@.len(),
                from <= to <= n,
                forall|k: int| from <= k < to ==> !sep.splits(#[trigger] v@[k]),
            decreases n - to,
        {
            to = to + 1;
        }
        let ghost rest = v@.skip(from as int);
        let ghost before = texts(out@);
        proof {
            lemma_run_len_at(v@, from as int, to as int, sep);
            assert(rest.take(to - from) =~= v@.subrange(from as int, to as int));
        }
        if to == n {
            let piece = slice_of(v.as_slice(), from, to);
            out.push(piece);
            i = n;
            assert(rest =~= piece@);
            assert(v@.skip(i as int) =~= Seq::<char>::empty());
            assert(lines(v@.skip(i as int)) =~= Seq::<Seq<char>>::empty());
            assert(texts(out@) =~= before.push(piece@));
            assert(before + seq![piece@] =~= texts(out@) + lines(v@.skip(i as int)));
        } else {
            let end: usize = if to > from && v[to - 1] == '\r' {
                to - 1
            } else {
                to
            };
            let piece = slice_of(v.as_slice(), from, end);
            assert(piece@ =~= without_return(v@.subrange(from as int, to as int)));
            assert(rest.skip(to - from + 1) =~= v@.skip(to + 1));
            out.push(piece);
            i = to + 1;
            assert(texts(out@) =~= before.push(piece@));
            assert(before + (seq![piece@] + lines(v@.skip(i as int))) =~= texts(out@) + lines(
                v@.skip(i as int),
            ));
        }
    }
    assert(v@.skip(i as int) =~= Seq::<char>::empty());
    assert(texts(out@) + Seq::<Seq<char>>::empty() =~= texts(out@));
    out
}

// ---------------------------------------------------------------------------
// Numbers
// ---------------------------------------------------------------------------

pub open spec fn digit_char(d: nat) -> char
    recommends
        d < 10,
{
    ((48 + d) as u8) as char
}

/// `n` in decimal, without leading zeros.
pub open spec fn decimal(n: nat) -> Seq<char>
    decreases n,
{
    if n < 10 {
        seq![digit_char(n)]
    } else {
        decimal(n / 10).push(digit_char(n % 10))
    }
}

/// Writes `n` in decimal.
pub fn decimal_of(n: u64) -> (r: String)
    ensures
        r@ == decimal(n as nat),
    decreases n,
{
    let d: u8 = (n % 10) as u8;
    let c: char = (48 + d) as char;
    let mut out = if n < 10 {
        String::new()
    } else {
        decimal_of(n / 10)
    };
    out.push(c);
    assert(n < 10 ==> out@ =~= seq![digit_char(n as nat)]);
    out
}

/// `n` in decimal, with a minus sign where it is negative.
pub open spec fn signed_decimal(n: int) -> Seq<char> {
    if n < 0 {
        seq!['-'] + decimal((-n) as nat)
    } else {
        decimal(n as nat)
    }
}

/// Writes `n` in decimal.
pub fn signed_decimal_of(n: i32) -> (r: String)
    ensures
        r@ == signed_decimal(n as int),
{
    if n < 0 {
        let m: u64 = (-(n as i64)) as u64;
        let mut out = String::new();
        out.push('-');
        let digits = decimal_of(m);
        out.append(digits.as_str());
        assert(out@ =~= seq!['-'] + decimal((-n) as nat));
        out
    } else {
        decimal_of(n as u64)
    }
}

pub open spec fn zeros(k: nat) -> Seq<char> {
    Seq::new(k, |i: int| '0')
}

/// `n` in decimal, filled up with zeros in front to at least `width` digits.
pub open spec fn padded_decimal(n: nat, width: nat) -> Seq<char> {
    let d = decimal(n);
    if d.len() < width {
        zeros((width - d.len()) as nat) + d
    } else {
        d
    }
}

/// Writes `n` in decimal with at least `width` digits.
pub fn padded_decimal_of(n: u64, width: usize) -> (r: String)
    ensures
        r@ == padded_decimal(n as nat, width as nat),
{
    let digits = decimal_of(n);
    let count: usize = chars_of(digits.as_str()).len();
    let mut out = String::new();
    let mut k: usize = count;
    while k < width
        invariant
            count <= k,
            count < width ==> k <= width,
            count >= width ==> k == count,
            out@ == zeros((k - count) as nat),
        decreases width - k,
    {
        out.push('0');
        assert(zeros((k + 1 - count) as nat) =~= zeros((k - count) as nat).push('0'));
        k = k + 1;
    }
    let ghost front = out@;
    out.append(digits.as_str());
    assert(count >= width ==> front + digits@ =~= digits@);
    out
}

pub open spec fn is_digit(c: char) -> bool {
    '0' <= c <= '9'
}

pub open spec fn all_digits(s: Seq<char>) -> bool {
    forall|i: int| 0 <= i < s.len() ==> is_digit(#[trigger] s[i])
}

/// The number that a sequence of digits stands for.
pub open spec fn digits_value(s: Seq<char>) -> nat
    decreases s.len(),
{
    if s.len() == 0 {
        0
    } else {
        digits_value(s.drop_last()) * 10 + (s.last() as u32 - 48) as nat
    }
}

/// The number that `s` spells: an optional plus sign, then digits alone, at
/// least one, and no more than a `usize` holds.
pub open spec fn parsed_usize(s: Seq<char>) -> Option<usize> {
    let d = if s.len() > 0 && s[0] == '+' {
        s.drop_first()
    } else {
        s
    };
    if d.len() == 0 || !all_digits(d) || digits_value(d) > usize::MAX {
        None
    } else {
        Some(digits_value(d) as usize)
    }
}

proof fn lemma_digits_value_grows(s: Seq<char>, k: int)
    requires
        all_digits(s),
        0 <= k <= s.len(),
    ensures
        digits_value(s.take(k)) <= digits_value(s),
    decreases s.len(),
{
    if k == s.len() {
        assert(s.take(k) =~= s);
    } else {
        lemma_digits_value_grows(s.drop_last(), k);
        assert(s.drop_last().take(k) =~= s.take(k));
    }
}

/// Reads a `usize`.
pub fn parse_usize(v: &[char]) -> (r: Option<usize>)
    ensures
        r == parsed_usize(v@),
{
    let n: usize = v.len();
    let from: usize = if n > 0 && v[0] == '+' {
        1
    } else {
        0
    };
    let ghost d = v@.skip(from as int);
    assert(from == 0 ==> d =~= v@);
    assert(from == 1 ==> d =~= v@.drop_first());
    if from == n {
        return None;
    }
    let mut value: usize = 0;
    let mut i: usize = from;
    while i < n
        invariant
            n == v@.len(),
            from <= i <= n,
            from < n,
            d == v@.skip(from as int),
            from == 0 || from == 1,
            d == (if v@.len() > 0 && v@[0] == '+' {
                v@.drop_first()
            } else {
                v@
            }),
            all_digits(d.take(i - from)),
            value == digits_value(d.take(i - from)),
        decreases n - i,
    {
        let c: char = v[i];
        assert(c == d[i - from]);
        if !('0' <= c && c <= '9') {
            assert(!is_digit(d[i - from]));
            return None;
        }
        let ghost upto = d.take(i - from + 1);
        assert(upto.drop_last() =~= d.take(i - from));
        assert(upto.last() == c);
        proof {
            if all_digits(d) {
                lemma_digits_value_grows(d, i - from + 1);
            }
        }
        let low: usize = (c as u32 - 48) as usize;
        let tens: usize = match value.checked_mul(10) {
            Some(t) => t,
            None => {
                return None;
            },
        };
        value =
        match tens.checked_add(low) {
            Some(t) => t,
            None => {
                return None;
            },
        };
        i = i + 1;
        assert(all_digits(upto)) by {
            assert forall|k: int| 0 <= k < upto.len() implies is_digit(#[trigger] upto[k]) by {
                if k < upto.len() - 1 {
                    assert(upto[k] == d.take(i - 1 - from)[k]);
                }
            }
        }
    }
    assert(d.take(n - from) =~= d);
    Some(value)
}

/// Reading a number back from its decimal form gives the number.
pub proof fn law_decimal_round_trip(n: nat)
    requires
        n <= usize::MAX,
    ensures
        parsed_usize(decimal(n)) == Some(n as usize),
{
    lemma_decimal_digits(n);
}

proof fn lemma_decimal_digits(n: nat)
    ensures
        decimal(n).len() > 0,
        all_digits(decimal(n)),
        digits_value(decimal(n)) == n,
        decimal(n)[0] != '+',
    decreases n,
{
    if n < 10 {
        let s = decimal(n);
        assert(s =~= seq![digit_char(n)]);
        assert(s.drop_last() =~= Seq::<char>::empty());
        reveal_with_fuel(digits_value, 2);
    } else {
        let s = decimal(n);
        lemma_decimal_digits(n / 10);
        assert(s.drop_last() =~= decimal(n / 10));
        assert(s[0] == decimal(n / 10)[0]);
        assert forall|k: int| 0 <= k < s.len() implies is_digit(#[trigger] s[k]) by {
            if k < s.len() - 1 {
                assert(s[k] == decimal(n / 10)[k]);
            }
        }
    }
}

// ---------------------------------------------------------------------------
// Order
// ---------------------------------------------------------------------------

/// The order of texts by code points, from the first on that differs; a text
/// comes before its continuations.
pub open spec fn before(a: Seq<char>, b: Seq<char>) -> bool
    decreases a.len(),
{
    if b.len() == 0 {
        false
    } else if a.len() == 0 {
        true
    } else if a[0] == b[0] {
        before(a.drop_first(), b.drop_first())
    } else {
        a[0] < b[0]
    }
}

/// The order is strict.
pub proof fn lemma_before_is_strict(a: Seq<char>, b: Seq<char>, c: Seq<char>)
    ensures
        !before(a, a),
        before(a, b) && before(b, c) ==> before(a, c),
    decreases a.len(),
{
    if a.len() > 0 {
        lemma_before_is_strict(
            a.drop_first(),
            if b.len() > 0 {
                b.drop_first()
            } else {
                b
            },
            if c.len() > 0 {
                c.drop_first()
            } else {
                c
            },
        );
    }
}

/// Of two texts that differ, one comes before the other.
pub proof fn lemma_before_is_total(a: Seq<char>, b: Seq<char>)
    ensures
        a == b || before(a, b) || before(b, a),
    decreases a.len(),
{
    if a.len() == 0 || b.len() == 0 {
        if a.len() == 0 && b.len() == 0 {
            assert(a =~= b);
        }
    } else if a[0] == b[0] {
        lemma_before_is_total(a.drop_first(), b.drop_first());
        if a.drop_first() == b.drop_first() {
            assert(a =~= seq![a[0]] + a.drop_first());
            assert(b =~= seq![b[0]] + b.drop_first());
        }
    }
}

/// Whether `a` comes before `b`.
pub fn is_before(a: &str, b: &str) -> (r: bool)
    ensures
        r == before(a@, b@),
{
    let x = chars_of(a);
    let y = chars_of(b);
    let n: usize = x.len();
    let m: usize = y.len();
    let mut i: usize = 0;
    assert(x@.skip(0) =~= x@);
    assert(y@.skip(0) =~= y@);
    while i < n && i < m && x[i] == y[i]
        invariant
            n == x@.len(),
            m == y@.len(),
            i <= n,
            i <= m,
            before(x@, y@) == before(x@.skip(i as int), y@.skip(i as int)),
        decreases n - i,
    {
        assert(x@.skip(i as int).drop_first() =~= x@.skip(i + 1));
        assert(y@.skip(i as int).drop_first() =~= y@.skip(i + 1));
        i = i + 1;
    }
    if i == m {
        false
    } else if i == n {
        true
    } else {
        x[i] < y[i]
    }
}

} // verus!
