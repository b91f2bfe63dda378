//! Character-level text utilities with their specifications.

use vstd::prelude::*;

verus! {

/// The characters of `s`, in order.
pub fn chars_of(s: &str) -> (res: Vec<char>)
    ensures
        res@ == s@,
{
    let mut res: Vec<char> = Vec::new();
    for c in it: s.chars()
        invariant
            res@ == it.seq().take(it.index() as int),
            it.seq() == s@,
    {
        res.push(c);
    }
    res
}

/// Collects characters into a `String` (std's `FromIterator<&char>` for `String`).
#[verifier::external_body]
pub(crate) fn string_from_chars(chars: &[char]) -> (res: String)
    ensures
        res@ == chars@,
{
    chars.iter().collect()
}


/// Unicode `White_Space`, the property by which std's `char::is_whitespace`
/// and `str::trim` decide what is whitespace.
pub open spec fn is_white_space(c: char) -> bool {
    let u = c as u32;
    ||| 0x09 <= u <= 0x0D
    ||| u == 0x20
    ||| u == 0x85
    ||| u == 0xA0
    ||| u == 0x1680
    ||| 0x2000 <= u <= 0x200A
    ||| u == 0x2028
    ||| u == 0x2029
    ||| u == 0x202F
    ||| u == 0x205F
    ||| u == 0x3000
}

/// Whether `c` is Unicode whitespace.
pub fn is_white_space_char(c: char) -> (res: bool)
    ensures
        res == is_white_space(c),
{
    let u = c as u32;
    (0x09 <= u && u <= 0x0D) || u == 0x20 || u == 0x85 || u == 0xA0 || u == 0x1680 || (0x2000
        <= u && u <= 0x200A) || u == 0x2028 || u == 0x2029 || u == 0x202F || u == 0x205F || u
        == 0x3000
}

/// `s` without its leading whitespace.
pub open spec fn trim_start(s: Seq<char>) -> Seq<char>
    decreases s.len(),
{
    if s.len() > 0 && is_white_space(s[0]) {
        trim_start(s.drop_first())
    } else {
        s
    }
}

/// `s` without its trailing whitespace.
pub open spec fn trim_end(s: Seq<char>) -> Seq<char>
    decreases s.len(),
{
    if s.len() > 0 && is_white_space(s.last()) {
        trim_end(s.drop_last())
    } else {
        s
    }
}

/// `s` without leading and trailing whitespace, as `str::trim` gives it.
pub open spec fn trim(s: Seq<char>) -> Seq<char> {
    trim_end(trim_start(s))
}

proof fn lemma_trim_start_skip(s: Seq<char>, i: int)
    requires
        0 <= i <= s.len(),
        forall|j: int| 0 <= j < i ==> is_white_space(#[trigger] s[j]),
    ensures
        trim_start(s) == trim_start(s.skip(i)),
    decreases i,
{
    if i > 0 {
        assert(s.drop_first().skip(i - 1) =~= s.skip(i));
        lemma_trim_start_skip(s.drop_first(), i - 1);
    } else {
        assert(s.skip(0) =~= s);
    }
}

proof fn lemma_trim_end_take(s: Seq<char>, i: int)
    requires
        0 <= i <= s.len(),
        forall|j: int| i <= j < s.len() ==> is_white_space(#[trigger] s[j]),
    ensures
        trim_end(s) == trim_end(s.take(i)),
    decreases s.len() - i,
{
    if i < s.len() {
        assert(s.drop_last().take(i) =~= s.take(i));
        lemma_trim_end_take(s.drop_last(), i);
    } else {
        assert(s.take(i) =~= s);
    }
}

/// The characters of `s` from `from` to `to`, without leading and trailing whitespace.
pub fn trim_chars(s: &[char], from: usize, to: usize) -> (res: Vec<char>)
    requires
        from <= to <= s@.len(),
    ensures
        res@ == trim(s@.subrange(from as int, to as int)),
{
    let ghost full = s@.subrange(from as int, to as int);
    let mut a = from;
    while a < to && is_white_space_char(s[a])
        invariant
            from <= a <= to <= s@.len(),
            forall|j: int| from <= j < a ==> is_white_space(#[trigger] s@[j]),
        decreases to - a,
    {
        a = a + 1;
    }
    proof {
        assert forall|j: int| 0 <= j < a - from implies is_white_space(#[trigger] full[j]) by {
            assert(full[j] == s@[from + j]);
        }
        lemma_trim_start_skip(full, a - from);
        assert(full.skip(a - from) =~= s@.subrange(a as int, to as int));
        if a < to {
            assert(!is_white_space(s@.subrange(a as int, to as int)[0]));
        }
    }
    let ghost mid = s@.subrange(a as int, to as int);
    assert(trim_start(full) == mid);
    let mut b = to;
    while b > a && is_white_space_char(s[b - 1])
        invariant
            from <= a <= b <= to <= s@.len(),
            forall|j: int| b <= j < to ==> is_white_space(#[trigger] s@[j]),
        decreases b - a,
    {
        b = b - 1;
    }
    proof {
        assert forall|j: int| b - a <= j < mid.len() implies is_white_space(#[trigger] mid[j]) by {
            assert(mid[j] == s@[a + j]);
        }
        lemma_trim_end_take(mid, b - a);
        assert(mid.take(b - a) =~= s@.subrange(a as int, b as int));
    }
    let mut res: Vec<char> = Vec::new();
    let mut k = a;
    while k < b
        invariant
            a <= k <= b <= s@.len(),
            res@ == s@.subrange(a as int, k as int),
        decreases b - k,
    {
        res.push(s[k]);
        assert(res@ =~= s@.subrange(a as int, k + 1));
        k = k + 1;
    }
    res
}


/// The index of the first `'\n'` of `s` at or after `j`, or `s.len()` where there is none.
pub open spec fn line_end(s: Seq<char>, j: int) -> int
    decreases s.len() - j,
{
    if j >= s.len() {
        s.len() as int
    } else if s[j] == '\n' {
        j
    } else {
        line_end(s, j + 1)
    }
}

/// A line ends at or after where the search for its end starts.
pub proof fn lemma_line_end_bounds(s: Seq<char>, j: int)
    requires
        0 <= j <= s.len(),
    ensures
        j <= line_end(s, j) <= s.len(),
    decreases s.len() - j,
{
    if j < s.len() && s[j] != '\n' {
        lemma_line_end_bounds(s, j + 1);
    }
}

/// The lines of `s`, split at `'\n'`; a final `'\n'` ends the last line and
/// starts no new one, so the empty text has no line. (A `'\r'` before a `'\n'`
/// stays in its line; every use here trims the line, which removes it.)
pub open spec fn lines(s: Seq<char>) -> Seq<Seq<char>>
    decreases s.len(),
{
    if s.len() == 0 {
        Seq::empty()
    } else {
        let i = line_end(s, 0);
        proof {
            lemma_line_end_bounds(s, 0);
        }
        if i < s.len() {
            seq![s.take(i)] + lines(s.skip(i + 1))
        } else {
            seq![s]
        }
    }
}

/// The pieces of `s` that the index ranges `r` select.
pub open spec fn pieces(s: Seq<char>, r: Seq<(usize, usize)>) -> Seq<Seq<char>> {
    r.map_values(|p: (usize, usize)| s.subrange(p.0 as int, p.1 as int))
}

proof fn lemma_line_end_skip(s: Seq<char>, p: int, j: int)
    requires
        0 <= p <= s.len(),
        0 <= j,
    ensures
        line_end(s.skip(p), j) == line_end(s, p + j) - p,
        p + j <= s.len() ==> p + j <= line_end(s, p + j) <= s.len(),
    decreases s.len() - p - j,
{
    if p + j < s.len() {
        assert(s.skip(p)[j] == s[p + j]);
        if s[p + j] != '\n' {
            lemma_line_end_skip(s, p, j + 1);
        }
    }
}

/// Where `'\n'` stands first in `s` at or after `from`, or `s.len()`.
pub fn find_line_end(s: &[char], from: usize) -> (res: usize)
    requires
        from <= s@.len(),
    ensures
        res == line_end(s@, from as int),
        from <= res <= s@.len(),
{
    let mut i = from;
    while i < s.len() && s[i] != '\n'
        invariant
            from <= i <= s@.len(),
            line_end(s@, from as int) == line_end(s@, i as int),
        decreases s@.len() - i,
    {
        i = i + 1;
    }
    i
}

/// The index ranges of the lines of `s`.
pub fn line_ranges(s: &[char]) -> (res: Vec<(usize, usize)>)
    ensures
        pieces(s@, res@) == lines(s@),
        forall|k: int| 0 <= k < res@.len() ==> (#[trigger] res@[k]).0 <= res@[k].1 <= s@.len(),
{
    let mut res: Vec<(usize, usize)> = Vec::new();
    let mut pos: usize = 0;
    assert(s@.skip(0) =~= s@);
    assert(pieces(s@, res@) =~= Seq::<Seq<char>>::empty());
    while pos < s.len()
        invariant
            pos <= s@.len(),
            lines(s@) == pieces(s@, res@) + lines(s@.skip(pos as int)),
            forall|k: int| 0 <= k < res@.len() ==> (#[trigger] res@[k]).0 <= res@[k].1 <= s@.len(),
        decreases s@.len() - pos,
    {
        let e = find_line_end(s, pos);
        let ghost rest = s@.skip(pos as int);
        proof {
            lemma_line_end_skip(s@, pos as int, 0);
        }
        let ghost old_pieces = pieces(s@, res@);
        res.push((pos, e));
        assert(pieces(s@, res@) =~= old_pieces.push(s@.subrange(pos as int, e as int)));
        if e < s.len() {
            assert(rest.take(e - pos) =~= s@.subrange(pos as int, e as int));
            assert(rest.skip(e - pos + 1) =~= s@.skip(e + 1));
            assert(lines(rest) == seq![rest.take(e - pos)] + lines(rest.skip(e - pos + 1)));
            assert(lines(s@) =~= pieces(s@, res@) + lines(s@.skip(e + 1)));
            pos = e + 1;
        } else {
            assert(rest =~= s@.subrange(pos as int, e as int));
            assert(lines(s@.skip(e as int)) =~= Seq::<Seq<char>>::empty());
            assert(lines(s@) =~= pieces(s@, res@) + lines(s@.skip(e as int)));
            pos = e;
        }
    }
    assert(s@.skip(pos as int) =~= Seq::<char>::empty());
    assert(lines(s@) =~= pieces(s@, res@));
    res
}


/// Whether `s` begins with `p`.
pub open spec fn starts_with(s: Seq<char>, p: Seq<char>) -> bool {
    p.len() <= s.len() && s.take(p.len() as int) == p
}

/// `s` without the prefix `p` where it has it, else `s` itself
/// (`strip_prefix(p).unwrap_or(s)`).
pub open spec fn strip_or_keep(s: Seq<char>, p: Seq<char>) -> Seq<char> {
    if starts_with(s, p) {
        s.skip(p.len() as int)
    } else {
        s
    }
}

/// Whether `p` occurs in `s` at index `i`.
pub open spec fn occurs_at(s: Seq<char>, p: Seq<char>, i: int) -> bool {
    0 <= i && i + p.len() <= s.len() && s.subrange(i, i + p.len()) == p
}

/// Whether `p` occurs anywhere in `s`.
pub open spec fn contains(s: Seq<char>, p: Seq<char>) -> bool {
    exists|i: int| occurs_at(s, p, i)
}

/// Whether `s[from..]` begins with `p`.
pub fn starts_with_at(s: &[char], from: usize, p: &[char]) -> (res: bool)
    requires
        from <= s@.len(),
    ensures
        res == occurs_at(s@, p@, from as int),
        res == starts_with(s@.skip(from as int), p@),
{
    if p.len() > s.len() - from {
        return false;
    }
    let mut i: usize = 0;
    while i < p.len()
        invariant
            from + p@.len() <= s@.len(),
            s@.len() <= usize::MAX,
            i <= p@.len(),
            forall|j: int| 0 <= j < i ==> s@[from + j] == p@[j],
        decreases p@.len() - i,
    {
        if s[from + i] != p[i] {
            assert(s@.subrange(from as int, from + p@.len())[i as int] != p@[i as int]);
            assert(s@.skip(from as int).take(p@.len() as int)[i as int] != p@[i as int]);
            return false;
        }
        i = i + 1;
    }
    assert(s@.subrange(from as int, from + p@.len()) =~= p@);
    assert(s@.skip(from as int).take(p@.len() as int) =~= p@);
    true
}

/// Whether `p` occurs anywhere in `s`.
pub fn contains_chars(s: &[char], p: &[char]) -> (res: bool)
    ensures
        res == contains(s@, p@),
{
    if p.len() > s.len() {
        assert forall|i: int| !occurs_at(s@, p@, i) by {}
        return false;
    }
    if p.len() == 0 {
        assert(s@.subrange(0, 0) =~= p@);
        assert(occurs_at(s@, p@, 0));
        return true;
    }
    let mut i: usize = 0;
    while i <= s.len() - p.len()
        invariant
            1 <= p@.len() <= s@.len(),
            s@.len() <= usize::MAX,
            i <= s@.len() - p@.len() + 1,
            forall|j: int| 0 <= j < i ==> !occurs_at(s@, p@, j),
        decreases s@.len() - p@.len() + 1 - i,
    {
        if starts_with_at(s, i, p) {
            return true;
        }
        i = i + 1;
    }
    assert forall|j: int| !occurs_at(s@, p@, j) by {
        if 0 <= j && j < i {
        }
    }
    false
}

/// The characters of `s` from `from` on.
pub fn chars_from(s: &Vec<char>, from: usize) -> (res: Vec<char>)
    requires
        from <= s@.len(),
    ensures
        res@ == s@.skip(from as int),
{
    let mut res: Vec<char> = Vec::new();
    push_range(&mut res, s.as_slice(), from, s.len());
    assert(res@ =~= s@.skip(from as int));
    res
}

/// Appends the characters of `lit` to `out`.
pub fn push_str(out: &mut Vec<char>, lit: &str)
    ensures
        final(out)@ == old(out)@ + lit@,
{
    let ghost start = out@;
    for c in it: lit.chars()
        invariant
            out@ == start + it.seq().take(it.index() as int),
            it.seq() == lit@,
    {
        out.push(c);
    }
    assert(lit@.take(lit@.len() as int) =~= lit@);
}

/// Appends `s[from..to]` to `out`.
pub fn push_range(out: &mut Vec<char>, s: &[char], from: usize, to: usize)
    requires
        from <= to <= s@.len(),
    ensures
        final(out)@ == old(out)@ + s@.subrange(from as int, to as int),
{
    let ghost start = out@;
    let mut k = from;
    while k < to
        invariant
            from <= k <= to <= s@.len(),
            out@ == start + s@.subrange(from as int, k as int),
        decreases to - k,
    {
        out.push(s[k]);
        assert(out@ =~= start + s@.subrange(from as int, k + 1));
        k = k + 1;
    }
}

/// The ASCII digit for `d`.
pub open spec fn digit_char(d: nat) -> char {
    ('0' as u32 + d) as char
}

/// The decimal numeral of `n`, as `Display` writes an unsigned integer.
pub open spec fn decimal(n: nat) -> Seq<char>
    decreases n,
{
    if n < 10 {
        seq![digit_char(n)]
    } else {
        decimal(n / 10).push(digit_char(n % 10))
    }
}

/// Appends the decimal numeral of `n` to `out`.
pub fn push_decimal(out: &mut Vec<char>, n: u64)
    ensures
        final(out)@ == old(out)@ + decimal(n as nat),
    decreases n,
{
    if n >= 10 {
        push_decimal(out, n / 10);
    }
    let d = (n % 10) as u8;
    let c = (48u8 + d) as char;
    assert(c == digit_char((n % 10) as nat));
    out.push(c);
    proof {
        if n >= 10 {
            assert(decimal(n as nat) == decimal((n / 10) as nat).push(digit_char((n % 10) as nat)));
        }
    }
}

/// Whether `c` is one of the ASCII digits `0` to `9`.
pub open spec fn is_ascii_digit(c: char) -> bool {
    '0' <= c <= '9'
}

/// The number that a run of ASCII digits writes in decimal.
pub open spec fn digits_value(s: Seq<char>) -> nat
    decreases s.len(),
{
    if s.len() == 0 {
        0
    } else {
        digits_value(s.drop_last()) * 10 + ((s.last() as u32 - '0' as u32) as nat)
    }
}

/// The value of `body` where it is one or more ASCII digits whose value
/// fits in a `u32`.
pub open spec fn parse_digits_u32(body: Seq<char>) -> Option<u32> {
    if body.len() > 0 && (forall|i: int| 0 <= i < body.len() ==> is_ascii_digit(#[trigger] body[i]))
        && digits_value(body) <= u32::MAX {
        Some(digits_value(body) as u32)
    } else {
        None
    }
}

/// What `str::parse::<u32>` gives for `s`: an optional `+`, then one or more
/// ASCII digits whose value fits in a `u32`; anything else is an error (`None`).
pub open spec fn parse_u32(s: Seq<char>) -> Option<u32> {
    if s.len() > 0 && s[0] == '+' {
        parse_digits_u32(s.drop_first())
    } else {
        parse_digits_u32(s)
    }
}

proof fn lemma_digits_value_grows(s: Seq<char>, j: int)
    requires
        0 <= j <= s.len(),
        forall|i: int| 0 <= i < s.len() ==> is_ascii_digit(#[trigger] s[i]),
    ensures
        digits_value(s.take(j)) <= digits_value(s),
    decreases s.len() - j,
{
    if j < s.len() {
        assert(s.take(j) =~= s.take(j + 1).drop_last());
        lemma_digits_value_grows(s, j + 1);
    } else {
        assert(s.take(j) =~= s);
    }
}

/// `str::parse::<u32>` on `s`, with `None` for an error.
pub fn parse_u32_chars(s: &[char]) -> (res: Option<u32>)
    ensures
        res == parse_u32(s@),
{
    let start: usize = if s.len() > 0 && s[0] == '+' {
        1
    } else {
        0
    };
    let ghost body = s@.skip(start as int);
    assert(parse_u32(s@) == parse_digits_u32(body)) by {
        if start == 1 {
            assert(body =~= s@.drop_first());
        } else {
            assert(body =~= s@);
        }
    }
    if start >= s.len() {
        assert(body.len() == 0);
        return None;
    }
    let mut acc: u64 = 0;
    let mut k = start;
    assert(body.take(0) =~= Seq::<char>::empty());
    while k < s.len()
        invariant
            start <= k <= s@.len(),
            body == s@.skip(start as int),
            parse_u32(s@) == parse_digits_u32(body),
            forall|i: int| 0 <= i < k - start ==> is_ascii_digit(#[trigger] body[i]),
            acc == digits_value(body.take(k - start)),
            acc <= u32::MAX,
        decreases s@.len() - k,
    {
        let c = s[k];
        assert(body[k - start] == c);
        if !('0' <= c && c <= '9') {
            assert(!is_ascii_digit(body[k - start]));
            return None;
        }
        let d = (c as u32 - '0' as u32) as u64;
        assert(body.take(k - start + 1).drop_last() =~= body.take(k - start));
        let next = acc * 10 + d;
        assert(next == digits_value(body.take(k - start + 1)));
        if next > 0xFFFF_FFFF {
            proof {
                if forall|i: int| 0 <= i < body.len() ==> is_ascii_digit(#[trigger] body[i]) {
                    lemma_digits_value_grows(body, k - start + 1);
                }
            }
            return None;
        }
        acc = next;
        k = k + 1;
    }
    assert(body.take(k - start) =~= body);
    Some(acc as u32)
}


/// `s` cut to at most `max` characters, the way long lines are shortened in
/// reports: unchanged when it fits; else its first `max - 3` characters and
/// `...`; or `...` alone when `max` is below 3.
pub open spec fn truncated(s: Seq<char>, max: nat) -> Seq<char> {
    if s.len() <= max {
        s
    } else if max < 3 {
        seq!['.', '.', '.']
    } else {
        s.take(max - 3) + seq!['.', '.', '.']
    }
}

/// Appends `s` cut to at most `max` characters (see `truncated`).
pub fn push_truncated(out: &mut Vec<char>, s: &[char], max: usize)
    ensures
        final(out)@ == old(out)@ + truncated(s@, max as nat),
{
    let ghost start = out@;
    if s.len() <= max {
        push_range(out, s, 0, s.len());
        assert(s@.subrange(0, s@.len() as int) =~= s@);
    } else if max < 3 {
        out.push('.');
        out.push('.');
        out.push('.');
        assert(out@ =~= start + seq!['.', '.', '.']);
    } else {
        push_range(out, s, 0, max - 3);
        out.push('.');
        out.push('.');
        out.push('.');
        assert(s@.subrange(0, max - 3) =~= s@.take(max - 3));
        assert(out@ =~= start + (s@.take(max - 3) + seq!['.', '.', '.']));
    }
}

/// `n` copies of `c`.
pub open spec fn repeat(c: char, n: nat) -> Seq<char> {
    Seq::new(n, |i: int| c)
}

/// Appends `n` copies of `c` to `out`.
pub fn push_repeat(out: &mut Vec<char>, c: char, n: usize)
    ensures
        final(out)@ == old(out)@ + repeat(c, n as nat),
{
    let ghost start = out@;
    let mut k: usize = 0;
    while k < n
        invariant
            k <= n,
            out@ == start + repeat(c, k as nat),
        decreases n - k,
    {
        out.push(c);
        assert(out@ =~= start + repeat(c, (k + 1) as nat));
        k = k + 1;
    }
}

/// `s` without leading and trailing whitespace, as a `String`.
pub fn trimmed_string(s: &Vec<char>) -> (res: String)
    ensures
        res@ == trim(s@),
{
    let tc = trim_chars(s.as_slice(), 0, s.len());
    assert(s@.subrange(0, s@.len() as int) =~= s@);
    string_from_chars(tc.as_slice())
}


/// A non-whitespace first character stays where `trim_start` is.
pub proof fn lemma_trim_start_first(s: Seq<char>)
    ensures
        trim_start(s).len() <= s.len(),
        trim_start(s) == s.skip(s.len() - trim_start(s).len()),
        trim_start(s).len() > 0 ==> !is_white_space(trim_start(s)[0]),
        s.len() > 0 && !is_white_space(s[0]) ==> trim_start(s) == s,
    decreases s.len(),
{
    if s.len() > 0 && is_white_space(s[0]) {
        lemma_trim_start_first(s.drop_first());
        assert(s.drop_first().skip(s.drop_first().len() - trim_start(s).len()) =~= s.skip(
            s.len() - trim_start(s).len(),
        ));
    } else {
        assert(s.skip(0) =~= s);
    }
}

/// `trim_end` keeps a prefix, and every character up to the last
/// non-whitespace one.
pub proof fn lemma_trim_end_prefix(s: Seq<char>)
    ensures
        trim_end(s).len() <= s.len(),
        trim_end(s) == s.take(trim_end(s).len() as int),
        trim_end(s).len() > 0 ==> !is_white_space(trim_end(s).last()),
        forall|m: int| 0 <= m < s.len() && !is_white_space(#[trigger] s[m]) ==> m < trim_end(s).len(),
        s.len() > 0 && !is_white_space(s.last()) ==> trim_end(s) == s,
    decreases s.len(),
{
    if s.len() > 0 && is_white_space(s.last()) {
        let d = s.drop_last();
        lemma_trim_end_prefix(d);
        assert(d.take(trim_end(s).len() as int) =~= s.take(trim_end(s).len() as int));
        assert forall|m: int| 0 <= m < s.len() && !is_white_space(#[trigger] s[m]) implies m
            < trim_end(s).len() by {
            assert(m < d.len());
            assert(d[m] == s[m]);
        }
    } else {
        assert(s.take(s.len() as int) =~= s);
    }
}

/// A non-whitespace character of `s` before index `m` keeps everything
/// up to `m` in `trim(s)`, where `s` starts with a non-whitespace character.
pub proof fn lemma_trim_keeps_head(s: Seq<char>, m: int)
    requires
        0 <= m < s.len(),
        !is_white_space(s[0]),
        !is_white_space(s[m]),
    ensures
        trim(s).len() > m,
        trim(s).take(m + 1) == s.take(m + 1),
{
    lemma_trim_start_first(s);
    lemma_trim_end_prefix(s);
    assert(trim(s) == trim_end(s));
    assert(trim_end(s).take(m + 1) =~= s.take(m + 1));
}

/// Trimming is only ever a shortening.
pub proof fn lemma_trim_len(s: Seq<char>)
    ensures
        trim(s).len() <= s.len(),
{
    lemma_trim_start_first(s);
    lemma_trim_end_prefix(trim_start(s));
}

/// Trimming twice trims no more than trimming once.
pub proof fn lemma_trim_idempotent(s: Seq<char>)
    ensures
        trim(trim(s)) == trim(s),
{
    let a = trim_start(s);
    let e = trim_end(a);
    lemma_trim_start_first(s);
    lemma_trim_end_prefix(a);
    if e.len() > 0 {
        assert(e[0] == a[0]);
        lemma_trim_start_first(e);
        lemma_trim_end_prefix(e);
    } else {
        assert(trim_start(e) == e);
        assert(trim_end(e) == e);
    }
}

/// A non-empty trimmed text ends with a non-whitespace character.
pub proof fn lemma_trim_last(s: Seq<char>)
    ensures
        trim(s).len() > 0 ==> !is_white_space(trim(s).last()),
{
    lemma_trim_end_prefix(trim_start(s));
}

/// What occurs in `s` and ends before its trailing whitespace still occurs
/// in `trim(s)`, where `s` starts with a non-whitespace character.
pub proof fn lemma_trim_keeps_occurrence(s: Seq<char>, e: Seq<char>, p: int)
    requires
        occurs_at(s, e, p),
        e.len() > 0,
        !is_white_space(e.last()),
        !is_white_space(s[0]),
    ensures
        contains(trim(s), e),
{
    let m = p + e.len() - 1;
    assert(s[m] == e.last());
    lemma_trim_keeps_head(s, m);
    assert forall|j: int| p <= j <= m implies trim(s)[j] == s[j] by {
        assert(trim(s).take(m + 1)[j] == s.take(m + 1)[j]);
    }
    assert(trim(s).subrange(p, p + e.len()) =~= s.subrange(p, p + e.len()));
    assert(occurs_at(trim(s), e, p));
}

/// `s` holds no newline.
pub open spec fn single_line(s: Seq<char>) -> bool {
    forall|i: int| 0 <= i < s.len() ==> s[i] != '\n'
}

/// Joining two single lines gives a single line.
pub proof fn lemma_single_line_concat(a: Seq<char>, b: Seq<char>)
    requires
        single_line(a),
        single_line(b),
    ensures
        single_line(a + b),
{
    assert forall|i: int| 0 <= i < (a + b).len() implies (a + b)[i] != '\n' by {
        if i < a.len() {
            assert((a + b)[i] == a[i]);
        } else {
            assert((a + b)[i] == b[i - a.len()]);
        }
    }
}

/// Every character of a decimal numeral is an ASCII digit.
pub proof fn lemma_decimal_digits(n: nat)
    ensures
        forall|i: int| 0 <= i < decimal(n).len() ==> is_ascii_digit(#[trigger] decimal(n)[i]),
        decimal(n).len() > 0,
    decreases n,
{
    if n >= 10 {
        lemma_decimal_digits(n / 10);
    }
}


/// A line cut for a report is at most `max` characters long, where `max`
/// leaves room for the `...` mark, and a line that fits is left whole.
pub proof fn law_truncated_fits(s: Seq<char>, max: nat)
    requires
        max >= 3,
    ensures
        truncated(s, max).len() <= max,
        s.len() <= max ==> truncated(s, max) == s,
{
}

/// A line too long for `max` keeps its beginning: its first `max - 3`
/// characters, then `...`, exactly `max` characters in all.
pub proof fn law_truncated_keeps_beginning(s: Seq<char>, max: nat)
    requires
        max >= 3,
        s.len() > max,
    ensures
        truncated(s, max).len() == max,
        forall|i: int| 0 <= i < max - 3 ==> #[trigger] truncated(s, max)[i] == s[i],
        forall|i: int| max - 3 <= i < max ==> #[trigger] truncated(s, max)[i] == '.',
{
}

proof fn lemma_digit_char(d: nat)
    requires
        d < 10,
    ensures
        digit_char(d) as u32 == 48 + d,
        is_ascii_digit(digit_char(d)),
        d != 0 ==> digit_char(d) != '0',
{
    assert(('0' as u32) == 48);
    let c = digit_char(d);
    assert(c == ((48 + d) as u32) as char);
    assert(c as u32 == 48 + d) by {
        assert(0 <= 48 + d < 0xD800);
    }
}

/// The numeral written for `n` reads back as `n`: it is one or more ASCII
/// digits whose value is `n`, with no leading zero, so `str::parse` gives
/// `n` back.
pub proof fn law_decimal_reads_back(n: nat)
    ensures
        decimal(n).len() > 0,
        forall|i: int| 0 <= i < decimal(n).len() ==> is_ascii_digit(#[trigger] decimal(n)[i]),
        digits_value(decimal(n)) == n,
        decimal(n).len() > 1 ==> decimal(n)[0] != '0',
        decimal(n).len() > 1 <==> n >= 10,
        n <= u32::MAX ==> parse_u32(decimal(n)) == Some(n as u32),
    decreases n,
{
    lemma_decimal_digits(n);
    lemma_digit_char(n % 10);
    if n >= 10 {
        law_decimal_reads_back(n / 10);
        let d = decimal(n);
        assert(d.drop_last() =~= decimal(n / 10));
        assert(d.last() == digit_char(n % 10));
        assert(digits_value(d) == digits_value(decimal(n / 10)) * 10 + (n % 10));
        assert(decimal(n)[0] == decimal(n / 10)[0]);
        if decimal(n / 10).len() == 1 {
            lemma_digit_char(n / 10);
            assert(decimal(n / 10) == seq![digit_char(n / 10)]);
        }
    } else {
        assert(seq![digit_char(n)].drop_last() =~= Seq::<char>::empty());
        assert(digits_value(decimal(n)) == digits_value(Seq::<char>::empty()) * 10 + ((digit_char(n) as u32 - '0' as u32) as nat));
    }
    if n <= u32::MAX {
        assert(decimal(n)[0] != '+');
    }
}


/// A text that opens with `h` still opens with `h` once trimmed, where `h`
/// neither starts nor ends with whitespace.
pub proof fn lemma_trim_keeps_prefix(h: Seq<char>, r: Seq<char>)
    requires
        h.len() > 0,
        !is_white_space(h[0]),
        !is_white_space(h.last()),
    ensures
        starts_with(trim(h + r), h),
{
    let x = h + r;
    lemma_trim_keeps_head(x, h.len() - 1);
    assert(x.take(h.len() as int) =~= h);
}

/// `b` stands in `a + b + c` right after `a`.
pub proof fn lemma_occurs_in_concat(a: Seq<char>, b: Seq<char>, c: Seq<char>)
    ensures
        occurs_at(a + b + c, b, a.len() as int),
        contains(a + b + c, b),
{
    assert((a + b + c).subrange(a.len() as int, a.len() + b.len() as int) =~= b);
    assert(occurs_at(a + b + c, b, a.len() as int));
}

proof fn lemma_trim_start_removes_whitespace(s: Seq<char>)
    ensures
        forall|j: int| 0 <= j < s.len() - trim_start(s).len() ==> is_white_space(#[trigger] s[j]),
    decreases s.len(),
{
    if s.len() > 0 && is_white_space(s[0]) {
        lemma_trim_start_removes_whitespace(s.drop_first());
        assert forall|j: int| 0 <= j < s.len() - trim_start(s).len() implies is_white_space(
            #[trigger] s[j],
        ) by {
            if j > 0 {
                assert(s.drop_first()[j - 1] == s[j]);
            }
        }
    }
}

proof fn lemma_trim_end_removes_whitespace(s: Seq<char>)
    ensures
        forall|j: int| trim_end(s).len() <= j < s.len() ==> is_white_space(#[trigger] s[j]),
    decreases s.len(),
{
    if s.len() > 0 && is_white_space(s.last()) {
        lemma_trim_end_removes_whitespace(s.drop_last());
        assert forall|j: int| trim_end(s).len() <= j < s.len() implies is_white_space(
            #[trigger] s[j],
        ) by {
            if j < s.len() - 1 {
                assert(s.drop_last()[j] == s[j]);
            }
        }
    }
}

/// Trimming takes off whitespace at both ends and nothing else: the result
/// is the piece of `s` from `a` on, everything before and after it is
/// whitespace, and the result neither starts nor ends with whitespace.
pub proof fn law_trim_strips_whitespace(s: Seq<char>) -> (a: int)
    ensures
        0 <= a,
        a + trim(s).len() <= s.len(),
        trim(s) == s.subrange(a, a + trim(s).len()),
        forall|j: int| 0 <= j < a ==> is_white_space(#[trigger] s[j]),
        forall|j: int| a + trim(s).len() <= j < s.len() ==> is_white_space(#[trigger] s[j]),
        trim(s).len() > 0 ==> !is_white_space(trim(s)[0]) && !is_white_space(trim(s).last()),
        trim(s).len() > 0 ==> trim(s)[0] != ' ' && trim(s)[0] != '\t' && trim(s)[0] != '\n'
            && trim(s)[0] != '\r',
        trim(s).len() > 0 ==> trim(s).last() != ' ' && trim(s).last() != '\t' && trim(s).last()
            != '\n' && trim(s).last() != '\r',
{
    let ts = trim_start(s);
    lemma_trim_start_first(s);
    lemma_trim_start_removes_whitespace(s);
    lemma_trim_end_prefix(ts);
    lemma_trim_end_removes_whitespace(ts);
    let a = s.len() - ts.len();
    let r = trim(s);
    assert(r == ts.take(r.len() as int));
    assert(r =~= s.subrange(a, a + r.len()));
    assert forall|j: int| a + r.len() <= j < s.len() implies is_white_space(#[trigger] s[j]) by {
        assert(ts[j - a] == s[j]);
    }
    if r.len() > 0 {
        assert(r[0] == ts[0]);
    }
    a
}

/// `str::parse::<u32>` refuses any text with a character other than an
/// ASCII digit, but for a leading `+`, and refuses the empty text and `+`.
pub proof fn law_parse_u32_refuses_non_digits(s: Seq<char>, i: int)
    requires
        0 <= i < s.len(),
        !is_ascii_digit(s[i]),
        !(i == 0 && s[0] == '+'),
    ensures
        parse_u32(s) is None,
{
    if s.len() > 0 && s[0] == '+' {
        assert(s.drop_first()[i - 1] == s[i]);
    }
}

/// Joining one more line adds a newline and the line.
pub proof fn lemma_join_lines_push(ls: Seq<Seq<char>>, x: Seq<char>)
    requires
        ls.len() > 0,
    ensures
        join_lines(ls.push(x)) == join_lines(ls) + seq!['\n'] + x,
    decreases ls.len(),
{
    let l = ls.push(x);
    assert(l[0] == ls[0]);
    if ls.len() == 1 {
        assert(l.drop_first() =~= seq![x]);
        assert(join_lines(seq![x]) == x);
        assert(join_lines(l) =~= join_lines(ls) + seq!['\n'] + x);
    } else {
        assert(l.drop_first() =~= ls.drop_first().push(x));
        lemma_join_lines_push(ls.drop_first(), x);
        assert(join_lines(l) =~= join_lines(ls) + seq!['\n'] + x);
    }
}

/// The lines of `s` joined with a newline after each but the last.
pub open spec fn join_lines(ls: Seq<Seq<char>>) -> Seq<char>
    decreases ls.len(),
{
    if ls.len() == 0 {
        Seq::empty()
    } else if ls.len() == 1 {
        ls[0]
    } else {
        ls[0] + seq!['\n'] + join_lines(ls.drop_first())
    }
}

proof fn lemma_line_end_props(s: Seq<char>, j: int)
    requires
        0 <= j <= s.len(),
    ensures
        forall|m: int| j <= m < line_end(s, j) ==> #[trigger] s[m] != '\n',
        line_end(s, j) < s.len() ==> s[line_end(s, j)] == '\n',
    decreases s.len() - j,
{
    if j < s.len() && s[j] != '\n' {
        lemma_line_end_props(s, j + 1);
    }
}

/// Splitting into lines loses nothing but the line breaks: no line holds a
/// newline, and joining the lines with newlines gives `s` back, but for a
/// final newline.
pub proof fn law_lines_rebuild(s: Seq<char>)
    ensures
        forall|k: int, m: int|
            0 <= k < lines(s).len() && 0 <= m < lines(s)[k].len() ==> #[trigger] lines(s)[k][m]
                != '\n',
        s == join_lines(lines(s)) || s == join_lines(lines(s)).push('\n'),
    decreases s.len(),
{
    if s.len() > 0 {
        let i = line_end(s, 0);
        lemma_line_end_bounds(s, 0);
        lemma_line_end_props(s, 0);
        if i < s.len() {
            let rest = s.skip(i + 1);
            law_lines_rebuild(rest);
            let head = s.take(i);
            let ls = lines(s);
            assert(ls == seq![head] + lines(rest));
            assert forall|k: int, m: int|
                0 <= k < ls.len() && 0 <= m < ls[k].len() implies #[trigger] ls[k][m] != '\n' by {
                if k > 0 {
                    assert(ls[k] == lines(rest)[k - 1]);
                } else {
                    assert(ls[0][m] == s[m]);
                }
            }
            if lines(rest).len() == 0 {
                if rest.len() > 0 {
                    assert(line_end(rest, 0) >= 0) by {
                        lemma_line_end_bounds(rest, 0);
                    }
                }
                assert(rest.len() == 0);
                assert(s =~= head.push('\n'));
            } else {
                assert(ls.drop_first() =~= lines(rest));
                assert(join_lines(ls) == head + seq!['\n'] + join_lines(lines(rest)));
                if rest == join_lines(lines(rest)) {
                    assert(s =~= head + seq!['\n'] + rest);
                } else {
                    assert(s =~= head + seq!['\n'] + rest);
                    assert(s =~= (head + seq!['\n'] + join_lines(lines(rest))).push('\n'));
                }
            }
        } else {
            assert(lines(s) == seq![s]);
            assert forall|k: int, m: int|
                0 <= k < lines(s).len() && 0 <= m < lines(s)[k].len() implies #[trigger] lines(
                s,
            )[k][m] != '\n' by {
                assert(lines(s)[k] == s);
            }
        }
    } else {
        assert(join_lines(lines(s)) =~= s);
    }
}

} // verus!
