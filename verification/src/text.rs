use vstd::prelude::*;
use vstd::string::*;

verus! {

/// `char::is_whitespace`: the Unicode `White_Space` property.
pub open spec fn is_ws(c: char) -> bool {
    ||| ('\u{9}' <= c && c <= '\u{d}')
    ||| c == ' '
    ||| c == '\u{85}'
    ||| c == '\u{a0}'
    ||| c == '\u{1680}'
    ||| ('\u{2000}' <= c && c <= '\u{200a}')
    ||| c == '\u{2028}'
    ||| c == '\u{2029}'
    ||| c == '\u{202f}'
    ||| c == '\u{205f}'
    ||| c == '\u{3000}'
}

pub fn is_whitespace(c: char) -> (r: bool)
    ensures
        r == is_ws(c),
{
    ('\u{9}' <= c && c <= '\u{d}') || c == ' ' || c == '\u{85}' || c == '\u{a0}' || c
        == '\u{1680}' || ('\u{2000}' <= c && c <= '\u{200a}') || c == '\u{2028}' || c
        == '\u{2029}' || c == '\u{202f}' || c == '\u{205f}' || c == '\u{3000}'
}

/// `str::trim_start`: drops the leading whitespace.
pub open spec fn trim_start(s: Seq<char>) -> Seq<char>
    decreases s.len(),
{
    if s.len() > 0 && is_ws(s[0]) {
        trim_start(s.drop_first())
    } else {
        s
    }
}

/// `str::trim_end`: drops the trailing whitespace.
pub open spec fn trim_end(s: Seq<char>) -> Seq<char>
    decreases s.len(),
{
    if s.len() > 0 && is_ws(s.last()) {
        trim_end(s.drop_last())
    } else {
        s
    }
}

/// `str::trim`: drops leading and trailing whitespace.
pub open spec fn trim(s: Seq<char>) -> Seq<char> {
    trim_end(trim_start(s))
}

/// `p` is a prefix of `s`.
pub open spec fn starts_with(s: Seq<char>, p: Seq<char>) -> bool {
    p.len() <= s.len() && s.subrange(0, p.len() as int) == p
}

/// `p` occurs in `s` at position `i`.
pub open spec fn occurs_at(s: Seq<char>, p: Seq<char>, i: int) -> bool {
    0 <= i && i + p.len() <= s.len() && s.subrange(i, i + p.len()) == p
}

/// `str::contains` with a string pattern.
pub open spec fn contains(s: Seq<char>, p: Seq<char>) -> bool {
    exists|i: int| occurs_at(s, p, i)
}

/// The value of an ASCII digit in the given radix (`char::to_digit`).
pub open spec fn digit_value(c: char, radix: nat) -> Option<nat> {
    let v: int = if '0' <= c && c <= '9' {
        c as int - '0' as int
    } else if 'a' <= c && c <= 'z' {
        c as int - 'a' as int + 10
    } else if 'A' <= c && c <= 'Z' {
        c as int - 'A' as int + 10
    } else {
        -1
    };
    if 0 <= v && v < radix {
        Some(v as nat)
    } else {
        None
    }
}

/// The value of a run of digits, most significant first; `None` if one is not a digit.
pub open spec fn digits_value(s: Seq<char>, radix: nat) -> Option<nat>
    decreases s.len(),
{
    if s.len() == 0 {
        Some(0)
    } else {
        match (digits_value(s.drop_last(), radix), digit_value(s.last(), radix)) {
            (Some(a), Some(d)) => Some(a * radix + d),
            _ => None,
        }
    }
}

/// `from_str_radix` for an unsigned integer type whose largest value is `max`:
/// an optional `+`, then at least one digit, and a value that fits.
pub open spec fn parse_unsigned(s: Seq<char>, radix: nat, max: nat) -> Option<nat> {
    let body = if s.len() > 0 && s[0] == '+' {
        s.drop_first()
    } else {
        s
    };
    if body.len() == 0 {
        None
    } else {
        match digits_value(body, radix) {
            Some(v) => if v <= max {
                Some(v)
            } else {
                None
            },
            None => None,
        }
    }
}

/// `str::parse::<u32>`.
pub open spec fn parse_u32(s: Seq<char>) -> Option<nat> {
    parse_unsigned(s, 10, u32::MAX as nat)
}

/// `str::parse::<u64>`.
pub open spec fn parse_u64(s: Seq<char>) -> Option<nat> {
    parse_unsigned(s, 10, u64::MAX as nat)
}

/// `u16::from_str_radix(_, 16)`.
pub open spec fn parse_hex_u16(s: Seq<char>) -> Option<nat> {
    parse_unsigned(s, 16, u16::MAX as nat)
}

/// The character of a decimal digit.
pub open spec fn digit_char(d: nat) -> char {
    if d == 0 {
        '0'
    } else if d == 1 {
        '1'
    } else if d == 2 {
        '2'
    } else if d == 3 {
        '3'
    } else if d == 4 {
        '4'
    } else if d == 5 {
        '5'
    } else if d == 6 {
        '6'
    } else if d == 7 {
        '7'
    } else if d == 8 {
        '8'
    } else {
        '9'
    }
}

/// The decimal representation of `n` (`Display` for unsigned integers).
pub open spec fn decimal(n: nat) -> Seq<char>
    decreases n,
{
    if n < 10 {
        seq![digit_char(n)]
    } else {
        decimal(n / 10).push(digit_char(n % 10))
    }
}

/// The views of a sequence of strings.
pub open spec fn string_views(v: Seq<String>) -> Seq<Seq<char>> {
    v.map_values(|s: String| s@)
}

/// `String::push`.
#[verifier::external_body]
pub(crate) fn push_char(s: &mut String, c: char)
    ensures
        final(s)@ == old(s)@.push(c),
{
    s.push(c);
}

/// The characters of a string slice, in order.
pub fn chars_of(s: &str) -> (v: Vec<char>)
    ensures
        v@ == s@,
{
    let mut v: Vec<char> = Vec::new();
    proof {
        axiom_spec_iter(s);
    }
    for c in it: s.chars()
        invariant
            it.seq() == s@,
            v@ == it.seq().take(it.index()),
    {
        assert(it.seq().take(it.index() + 1) =~= it.seq().take(it.index()).push(c));
        v.push(c);
    }
    assert(s@.take(s@.len() as int) =~= s@);
    v
}

/// A string holding `s[start..end]`.
pub fn string_of(s: &Vec<char>, start: usize, end: usize) -> (r: String)
    requires
        start <= end <= s@.len(),
    ensures
        r@ == s@.subrange(start as int, end as int),
{
    let mut r = String::new();
    let mut i = start;
    while i < end
        invariant
            start <= i <= end <= s@.len(),
            r@ == s@.subrange(start as int, i as int),
        decreases end - i,
    {
        push_char(&mut r, s[i]);
        i = i + 1;
    }
    r
}

/// Appends `s[start..end]` to `out`.
pub fn push_chars(out: &mut String, s: &Vec<char>, start: usize, end: usize)
    requires
        start <= end <= s@.len(),
    ensures
        final(out)@ == old(out)@ + s@.subrange(start as int, end as int),
{
    let mut i = start;
    while i < end
        invariant
            start <= i <= end <= s@.len(),
            out@ == old(out)@ + s@.subrange(start as int, i as int),
        decreases end - i,
    {
        push_char(out, s[i]);
        i = i + 1;
        assert(s@.subrange(start as int, i as int) == s@.subrange(start as int, i - 1).push(
            s@[i - 1],
        ));
    }
}

/// `s[a_start..a_start + len] == t[b_start..b_start + len]`.
pub fn range_eq(s: &Vec<char>, a_start: usize, t: &Vec<char>, b_start: usize, len: usize) -> (r:
    bool)
    requires
        a_start + len <= s@.len(),
        b_start + len <= t@.len(),
    ensures
        r == (s@.subrange(a_start as int, a_start + len) == t@.subrange(
            b_start as int,
            b_start + len,
        )),
{
    let mut k: usize = 0;
    while k < len
        invariant
            a_start + len <= s.len(),
            b_start + len <= t.len(),
            a_start + len <= s@.len(),
            b_start + len <= t@.len(),
            k <= len,
            s@.subrange(a_start as int, a_start + k) =~= t@.subrange(b_start as int, b_start + k),
        decreases len - k,
    {
        if s[a_start + k] != t[b_start + k] {
            assert(s@.subrange(a_start as int, a_start + len)[k as int] != t@.subrange(
                b_start as int,
                b_start + len,
            )[k as int]);
            return false;
        }
        proof {
            assert(s@.subrange(a_start as int, a_start + k + 1) =~= s@.subrange(a_start as int, a_start + k).push(s@[a_start + k]));
            assert(t@.subrange(b_start as int, b_start + k + 1) =~= t@.subrange(b_start as int, b_start + k).push(t@[b_start + k]));
        }
        k = k + 1;
    }
    assert(s@.subrange(a_start as int, a_start + len) =~= t@.subrange(
        b_start as int,
        b_start + len,
    ));
    true
}

/// Whether two character sequences are equal.
pub fn chars_eq(s: &Vec<char>, t: &Vec<char>) -> (r: bool)
    ensures
        r == (s@ == t@),
{
    if s.len() != t.len() {
        return false;
    }
    let r = range_eq(s, 0, t, 0, s.len());
    assert(s@.subrange(0, s@.len() as int) =~= s@);
    assert(t@.subrange(0, t@.len() as int) =~= t@);
    r
}

/// Whether `s[start..end]` begins with `p`.
pub fn range_starts_with(s: &Vec<char>, start: usize, end: usize, p: &Vec<char>) -> (r: bool)
    requires
        start <= end <= s@.len(),
    ensures
        r == starts_with(s@.subrange(start as int, end as int), p@),
{
    if p.len() > end - start {
        return false;
    }
    let r = range_eq(s, start, p, 0, p.len());
    assert(s@.subrange(start as int, end as int).subrange(0, p@.len() as int) =~= s@.subrange(
        start as int,
        start + p@.len(),
    ));
    assert(p@.subrange(0, p@.len() as int) =~= p@);
    r
}

proof fn lemma_trim_start_step(s: Seq<char>, i: int)
    requires
        0 <= i < s.len(),
        is_ws(s[i]),
    ensures
        trim_start(s.subrange(i, s.len() as int)) == trim_start(s.subrange(i + 1, s.len() as int)),
{
    assert(s.subrange(i, s.len() as int).drop_first() =~= s.subrange(i + 1, s.len() as int));
}

proof fn lemma_trim_end_step(s: Seq<char>, a: int, j: int)
    requires
        0 <= a < j <= s.len(),
        is_ws(s[j - 1]),
    ensures
        trim_end(s.subrange(a, j)) == trim_end(s.subrange(a, j - 1)),
{
    assert(s.subrange(a, j).drop_last() =~= s.subrange(a, j - 1));
}

/// The bounds of `trim(s[start..end])` within `s`.
pub fn trim_range(s: &Vec<char>, start: usize, end: usize) -> (r: (usize, usize))
    requires
        start <= end <= s@.len(),
    ensures
        start <= r.0 <= r.1 <= end,
        s@.subrange(r.0 as int, r.1 as int) == trim(s@.subrange(start as int, end as int)),
{
    let ghost t = s@.subrange(start as int, end as int);
    let mut a = start;
    while a < end && is_whitespace(s[a])
        invariant
            start <= a <= end <= s@.len(),
            t == s@.subrange(start as int, end as int),
            trim_start(t) == trim_start(s@.subrange(a as int, end as int)),
        decreases end - a,
    {
        proof {
            let u = s@.subrange(0, end as int);
            lemma_trim_start_step(u, a as int);
            assert(u.subrange(a as int, end as int) =~= s@.subrange(a as int, end as int));
            assert(u.subrange(a + 1, end as int) =~= s@.subrange(a + 1, end as int));
        }
        a = a + 1;
    }
    proof {
        let v = s@.subrange(a as int, end as int);
        if v.len() > 0 {
            assert(v[0] == s@[a as int]);
        }
        assert(trim_start(v) == v);
    }
    let mut b = end;
    while b > a && is_whitespace(s[b - 1])
        invariant
            start <= a <= b <= end <= s@.len(),
            t == s@.subrange(start as int, end as int),
            trim_start(t) == s@.subrange(a as int, end as int),
            trim(t) == trim_end(s@.subrange(a as int, b as int)),
        decreases b - a,
    {
        proof {
            lemma_trim_end_step(s@, a as int, b as int);
        }
        b = b - 1;
    }
    proof {
        let v = s@.subrange(a as int, b as int);
        if v.len() > 0 {
            assert(v.last() == s@[b - 1]);
        }
        assert(trim_end(v) == v);
    }
    (a, b)
}

/// The value of a decimal or hexadecimal digit.
pub fn digit_of(c: char, radix: u32) -> (r: Option<u32>)
    requires
        radix == 10 || radix == 16,
    ensures
        match digit_value(c, radix as nat) {
            Some(v) => r == Some(v as u32),
            None => r is None,
        },
{
    let v: i64 = if '0' <= c && c <= '9' {
        (c as u32 - '0' as u32) as i64
    } else if 'a' <= c && c <= 'z' {
        (c as u32 - 'a' as u32) as i64 + 10
    } else if 'A' <= c && c <= 'Z' {
        (c as u32 - 'A' as u32) as i64 + 10
    } else {
        -1
    };
    if 0 <= v && v < radix as i64 {
        Some(v as u32)
    } else {
        None
    }
}

proof fn lemma_digits_value_prefix(s: Seq<char>, k: int, radix: nat)
    requires
        0 <= k <= s.len(),
        radix >= 1,
        digits_value(s, radix) is Some,
    ensures
        digits_value(s.subrange(0, k), radix) is Some,
        digits_value(s.subrange(0, k), radix)->0 <= digits_value(s, radix)->0,
    decreases s.len(),
{
    if k == s.len() {
        assert(s.subrange(0, k) =~= s);
    } else {
        let p = s.drop_last();
        assert(p.subrange(0, k) =~= s.subrange(0, k));
        lemma_digits_value_prefix(p, k, radix);
        let a = digits_value(p, radix)->0;
        let d = digit_value(s.last(), radix)->0;
        assert(a <= a * radix + d) by (nonlinear_arith)
            requires
                radix >= 1,
        ;
    }
}

/// Parses `s[start..end]` as an unsigned integer no larger than `max`
/// (`from_str_radix` for the type whose largest value is `max`).
pub fn parse_unsigned_range(s: &Vec<char>, start: usize, end: usize, radix: u32, max: u64) -> (r:
    Option<u64>)
    requires
        start <= end <= s@.len(),
        radix == 10 || radix == 16,
    ensures
        match parse_unsigned(s@.subrange(start as int, end as int), radix as nat, max as nat) {
            Some(v) => r == Some(v as u64),
            None => r is None,
        },
{
    let ghost t = s@.subrange(start as int, end as int);
    let mut b = start;
    if start < end && s[start] == '+' {
        b = start + 1;
    }
    let ghost body = if t.len() > 0 && t[0] == '+' {
        t.drop_first()
    } else {
        t
    };
    assert(body =~= s@.subrange(b as int, end as int));
    if b == end {
        return None;
    }
    let mut acc: u64 = 0;
    let mut i = b;
    assert(s@.subrange(b as int, b as int) =~= Seq::<char>::empty());
    while i < end
        invariant
            start <= b <= i <= end <= s@.len(),
            radix == 10 || radix == 16,
            body == s@.subrange(b as int, end as int),
            t == s@.subrange(start as int, end as int),
            body == (if t.len() > 0 && t[0] == '+' {
                t.drop_first()
            } else {
                t
            }),
            body.len() > 0,
            digits_value(s@.subrange(b as int, i as int), radix as nat) == Some(acc as nat),
            acc <= max,
        decreases end - i,
    {
        let ghost pre = s@.subrange(b as int, i as int);
        let ghost cur = s@.subrange(b as int, i + 1);
        assert(cur.drop_last() =~= pre);
        assert(cur.last() == s@[i as int]);
        let d = digit_of(s[i], radix);
        match d {
            None => {
                proof {
                    assert(digits_value(cur, radix as nat) is None);
                    assert(body.subrange(0, cur.len() as int) =~= cur);
                    if digits_value(body, radix as nat) is Some {
                        lemma_digits_value_prefix(body, cur.len() as int, radix as nat);
                    }
                }
                return None;
            },
            Some(dv) => {
                let next: u128 = acc as u128 * radix as u128 + dv as u128;
                assert(acc as u128 * radix as u128 <= 0xffff_ffff_ffff_ffffu128 * 16) by (
                nonlinear_arith)
                    requires
                        acc <= 0xffff_ffff_ffff_ffffu64,
                        radix <= 16,
                ;
                assert(next == acc * radix + dv);
                if next > max as u128 {
                    proof {
                        assert(digits_value(cur, radix as nat) == Some(next as nat));
                        assert(body.subrange(0, cur.len() as int) =~= cur);
                        if digits_value(body, radix as nat) is Some {
                            lemma_digits_value_prefix(body, cur.len() as int, radix as nat);
                        }
                    }
                    return None;
                }
                acc = next as u64;
            },
        }
        i = i + 1;
    }
    Some(acc)
}


/// The index of the first whitespace character of `s` at or after `i`, or `s.len()`.
pub open spec fn ws_index_from(s: Seq<char>, i: int) -> int
    decreases s.len() - i,
{
    if 0 <= i < s.len() {
        if is_ws(s[i]) {
            i
        } else {
            ws_index_from(s, i + 1)
        }
    } else {
        s.len() as int
    }
}

/// The characters of `s` before its first whitespace. For a trimmed string this
/// is `s.split_whitespace().next().unwrap_or(s)`.
pub open spec fn leading_word(s: Seq<char>) -> Seq<char> {
    s.take(ws_index_from(s, 0))
}

/// The end of the leading word of `s[start..end]`.
pub fn leading_word_end(s: &Vec<char>, start: usize, end: usize) -> (r: usize)
    requires
        start <= end <= s@.len(),
    ensures
        start <= r <= end,
        s@.subrange(start as int, r as int) == leading_word(s@.subrange(start as int, end as int)),
{
    let ghost t = s@.subrange(start as int, end as int);
    let mut i = start;
    while i < end && !is_whitespace(s[i])
        invariant
            start <= i <= end <= s@.len(),
            t == s@.subrange(start as int, end as int),
            ws_index_from(t, 0) == ws_index_from(t, i - start),
        decreases end - i,
    {
        assert(t[i - start] == s@[i as int]);
        i = i + 1;
    }
    proof {
        if i < end {
            assert(t[i - start] == s@[i as int]);
        }
        assert(ws_index_from(t, i - start) == i - start);
        assert(t.take(i - start) =~= s@.subrange(start as int, i as int));
    }
    i
}


/// The index of the first `c` in `s` at or after `i`, or `s.len()`.
pub open spec fn char_index_from(s: Seq<char>, c: char, i: int) -> int
    decreases s.len() - i,
{
    if 0 <= i < s.len() {
        if s[i] == c {
            i
        } else {
            char_index_from(s, c, i + 1)
        }
    } else {
        s.len() as int
    }
}

/// `char_index_from` lands between its start and the end of `s`, on a `c` when before the end.
pub proof fn lemma_char_index_bounds(s: Seq<char>, c: char, i: int)
    requires
        0 <= i <= s.len(),
    ensures
        i <= char_index_from(s, c, i) <= s.len(),
        char_index_from(s, c, i) < s.len() ==> s[char_index_from(s, c, i)] == c,
        forall|j: int| i <= j < char_index_from(s, c, i) ==> s[j] != c,
    decreases s.len() - i,
{
    if i < s.len() && s[i] != c {
        lemma_char_index_bounds(s, c, i + 1);
    }
}

/// The lines of `s[i..]`, as `str::lines` gives them: split after each `\n`,
/// with the `\n` and a `\r` just before it removed; no line after a final `\n`.
pub open spec fn lines_from(s: Seq<char>, i: int) -> Seq<Seq<char>>
    decreases s.len() + 1 - i,
{
    if 0 <= i < s.len() {
        let e = char_index_from(s, '\n', i);
        proof {
            lemma_char_index_bounds(s, '\n', i);
        }
        let raw = s.subrange(i, e);
        let line = if e < s.len() && raw.len() > 0 && raw.last() == '\r' {
            raw.drop_last()
        } else {
            raw
        };
        seq![line] + lines_from(s, e + 1)
    } else {
        seq![]
    }
}

/// `str::lines`.
pub open spec fn lines(s: Seq<char>) -> Seq<Seq<char>> {
    lines_from(s, 0)
}

/// The index of the first non-whitespace character of `s` at or after `i`, or `s.len()`.
pub open spec fn word_index_from(s: Seq<char>, i: int) -> int
    decreases s.len() - i,
{
    if 0 <= i < s.len() {
        if !is_ws(s[i]) {
            i
        } else {
            word_index_from(s, i + 1)
        }
    } else {
        s.len() as int
    }
}

/// `word_index_from` lands between its start and the end of `s`.
pub proof fn lemma_word_index_bounds(s: Seq<char>, i: int)
    requires
        0 <= i <= s.len(),
    ensures
        i <= word_index_from(s, i) <= s.len(),
        word_index_from(s, i) < s.len() ==> !is_ws(s[word_index_from(s, i)]),
    decreases s.len() - i,
{
    if i < s.len() && is_ws(s[i]) {
        lemma_word_index_bounds(s, i + 1);
    }
}

/// `ws_index_from` lands between its start and the end of `s`.
pub proof fn lemma_ws_index_from_bounds(s: Seq<char>, i: int)
    requires
        0 <= i <= s.len(),
    ensures
        i <= ws_index_from(s, i) <= s.len(),
        ws_index_from(s, i) < s.len() ==> is_ws(s[ws_index_from(s, i)]),
    decreases s.len() - i,
{
    if i < s.len() && !is_ws(s[i]) {
        lemma_ws_index_from_bounds(s, i + 1);
    }
}

/// The whitespace-separated words of `s[i..]` (`str::split_whitespace`).
pub open spec fn words_from(s: Seq<char>, i: int) -> Seq<Seq<char>>
    decreases s.len() - i,
{
    if 0 <= i <= s.len() {
        let j = word_index_from(s, i);
        proof {
            lemma_word_index_bounds(s, i);
        }
        if j < s.len() {
            let e = ws_index_from(s, j);
            proof {
                lemma_ws_index_from_bounds(s, j);
            }
            seq![s.subrange(j, e)] + words_from(s, e)
        } else {
            seq![]
        }
    } else {
        seq![]
    }
}

/// `str::split_whitespace`.
pub open spec fn words(s: Seq<char>) -> Seq<Seq<char>> {
    words_from(s, 0)
}

/// The second `sep`-separated piece of `s` (`s.split(sep).nth(1)`).
pub open spec fn second_piece(s: Seq<char>, sep: char) -> Option<Seq<char>> {
    let k = char_index_from(s, sep, 0);
    if k < s.len() {
        let e = char_index_from(s, sep, k + 1);
        Some(s.subrange(k + 1, e))
    } else {
        None
    }
}

/// `s` with every leading copy of `p` removed (`str::trim_start_matches`).
pub open spec fn strip_all_prefix(s: Seq<char>, p: Seq<char>) -> Seq<char>
    decreases s.len(),
{
    if p.len() > 0 && starts_with(s, p) {
        strip_all_prefix(s.skip(p.len() as int), p)
    } else {
        s
    }
}

/// `s` with every leading and trailing `c` removed (`str::trim_matches` with a char).
pub open spec fn trim_char(s: Seq<char>, c: char) -> Seq<char>
    decreases s.len(),
{
    if s.len() > 0 && s[0] == c {
        trim_char(s.drop_first(), c)
    } else if s.len() > 0 && s.last() == c {
        trim_char(s.drop_last(), c)
    } else {
        s
    }
}

/// `s` with every `from` replaced by `to`.
pub open spec fn replace_char(s: Seq<char>, from: char, to: char) -> Seq<char> {
    s.map_values(|c: char| if c == from { to } else { c })
}

/// What `str::to_lowercase` returns for a string: its Unicode lower-case mapping.
pub uninterp spec fn lowercase(s: Seq<char>) -> Seq<char>;

/// `str::to_lowercase`: the result is the Unicode lower-case mapping of the
/// argument, which depends on the argument alone.
#[verifier::external_body]
pub(crate) fn to_lowercase(s: &str) -> (r: String)
    ensures
        r@ == lowercase(s@),
{
    s.to_lowercase()
}

/// The lines of `s`, as bounds into `s`.
pub fn line_bounds(s: &Vec<char>) -> (r: Vec<(usize, usize)>)
    ensures
        r@.len() == lines(s@).len(),
        forall|k: int|
            #![trigger r@[k]]
            0 <= k < r@.len() ==> {
                &&& r@[k].0 <= r@[k].1 <= s@.len()
                &&& s@.subrange(r@[k].0 as int, r@[k].1 as int) == lines(s@)[k]
            },
{
    let mut r: Vec<(usize, usize)> = Vec::new();
    let mut i: usize = 0;
    let ghost mut done: Seq<Seq<char>> = seq![];
    assert(lines(s@) == done + lines_from(s@, 0));
    while i < s.len()
        invariant
            i <= s@.len(),
            lines(s@) == done + lines_from(s@, i as int),
            r@.len() == done.len(),
            forall|k: int|
                #![trigger r@[k]]
                0 <= k < r@.len() ==> {
                    &&& r@[k].0 <= r@[k].1 <= s@.len()
                    &&& s@.subrange(r@[k].0 as int, r@[k].1 as int) == done[k]
                },
        decreases s@.len() - i,
    {
        let mut e = i;
        while e < s.len() && s[e] != '\n'
            invariant
                i <= e <= s@.len(),
                char_index_from(s@, '\n', i as int) == char_index_from(s@, '\n', e as int),
            decreases s@.len() - e,
        {
            e = e + 1;
        }
        proof {
            lemma_char_index_bounds(s@, '\n', i as int);
        }
        assert(char_index_from(s@, '\n', i as int) == e);
        let mut end = e;
        if e < s.len() && e > i && s[e - 1] == '\r' {
            end = e - 1;
        }
        let ghost line = s@.subrange(i as int, end as int);
        let ghost mut d0: Seq<Seq<char>> = done;
        proof {
            let raw = s@.subrange(i as int, e as int);
            if e < s@.len() && raw.len() > 0 && raw.last() == '\r' {
                assert(raw.drop_last() =~= line);
            } else {
                assert(raw =~= line);
            }
            assert(lines_from(s@, i as int) == seq![line] + lines_from(s@, e + 1));
            d0 = done;
            done = done.push(line);
            assert(lines(s@) =~= done + lines_from(s@, e + 1));
        }
        let ghost r0 = r@;
        r.push((i, end));
        proof {
            assert forall|k: int| #![trigger r@[k]] 0 <= k < r@.len() implies {
                &&& r@[k].0 <= r@[k].1 <= s@.len()
                &&& s@.subrange(r@[k].0 as int, r@[k].1 as int) == done[k]
            } by {
                if k < r0.len() {
                    assert(r@[k] == r0[k]);
                    assert(done[k] == d0[k]);
                } else {
                    assert(r@[k] == (i, end));
                    assert(done[k] == line);
                }
            }
        }
        if e < s.len() {
            i = e + 1;
        } else {
            i = e;
            assert(lines_from(s@, e as int) == Seq::<Seq<char>>::empty());
            assert(lines_from(s@, e + 1) == Seq::<Seq<char>>::empty());
        }
    }
    assert(lines_from(s@, i as int) == Seq::<Seq<char>>::empty());
    assert(done + lines_from(s@, i as int) =~= done);
    r
}

/// The whitespace-separated words of `s[start..end]`, as bounds into `s`.
pub fn word_bounds(s: &Vec<char>, start: usize, end: usize) -> (r: Vec<(usize, usize)>)
    requires
        start <= end <= s@.len(),
    ensures
        r@.len() == words(s@.subrange(start as int, end as int)).len(),
        forall|k: int|
            #![trigger r@[k]]
            0 <= k < r@.len() ==> {
                &&& start <= r@[k].0 <= r@[k].1 <= end
                &&& s@.subrange(r@[k].0 as int, r@[k].1 as int) == words(
                    s@.subrange(start as int, end as int),
                )[k]
            },
{
    let ghost t = s@.subrange(start as int, end as int);
    let mut r: Vec<(usize, usize)> = Vec::new();
    let mut i: usize = start;
    let ghost mut done: Seq<Seq<char>> = seq![];
    assert(words(t) == done + words_from(t, 0));
    loop
        invariant
            start <= i <= end <= s@.len(),
            t == s@.subrange(start as int, end as int),
            words(t) == done + words_from(t, i - start),
            r@.len() == done.len(),
            forall|k: int|
                #![trigger r@[k]]
                0 <= k < r@.len() ==> {
                    &&& start <= r@[k].0 <= r@[k].1 <= end
                    &&& s@.subrange(r@[k].0 as int, r@[k].1 as int) == done[k]
                },
        ensures
            words(t) == done,
            r@.len() == done.len(),
            forall|k: int|
                #![trigger r@[k]]
                0 <= k < r@.len() ==> {
                    &&& start <= r@[k].0 <= r@[k].1 <= end
                    &&& s@.subrange(r@[k].0 as int, r@[k].1 as int) == done[k]
                },
        decreases end - i,
    {
        let mut j = i;
        while j < end && is_whitespace(s[j])
            invariant
                start <= i <= j <= end <= s@.len(),
                t == s@.subrange(start as int, end as int),
                word_index_from(t, i - start) == word_index_from(t, j - start),
            decreases end - j,
        {
            assert(t[j - start] == s@[j as int]);
            j = j + 1;
        }
        proof {
            if j < end {
                assert(t[j - start] == s@[j as int]);
            }
            lemma_word_index_bounds(t, i - start);
        }
        assert(word_index_from(t, i - start) == j - start);
        if j == end {
            assert(words_from(t, i - start) == Seq::<Seq<char>>::empty());
            assert(done + words_from(t, i - start) =~= done);
            break;
        }
        let mut e = j;
        while e < end && !is_whitespace(s[e])
            invariant
                start <= j <= e <= end <= s@.len(),
                t == s@.subrange(start as int, end as int),
                ws_index_from(t, j - start) == ws_index_from(t, e - start),
            decreases end - e,
        {
            assert(t[e - start] == s@[e as int]);
            e = e + 1;
        }
        proof {
            if e < end {
                assert(t[e - start] == s@[e as int]);
            }
        }
        assert(ws_index_from(t, j - start) == e - start);
        let ghost w = s@.subrange(j as int, e as int);
        let ghost d0 = done;
        proof {
            assert(t.subrange(j - start, e - start) =~= w);
            assert(words_from(t, i - start) == seq![w] + words_from(t, e - start));
            done = done.push(w);
            assert(words(t) =~= done + words_from(t, e - start));
        }
        let ghost r0 = r@;
        r.push((j, e));
        proof {
            assert forall|k: int| #![trigger r@[k]] 0 <= k < r@.len() implies {
                &&& start <= r@[k].0 <= r@[k].1 <= end
                &&& s@.subrange(r@[k].0 as int, r@[k].1 as int) == done[k]
            } by {
                if k < r0.len() {
                    assert(r@[k] == r0[k]);
                    assert(done[k] == d0[k]);
                } else {
                    assert(r@[k] == (j, e));
                    assert(done[k] == w);
                }
            }
        }
        i = e;
    }
    r
}

/// Whether `p` occurs in `s` (`str::contains` with a string pattern).
pub fn contains_chars(s: &Vec<char>, p: &Vec<char>) -> (r: bool)
    ensures
        r == contains(s@, p@),
{
    if p.len() == 0 {
        assert(s@.subrange(0, 0) =~= p@);
        assert(occurs_at(s@, p@, 0));
        return true;
    }
    if p.len() > s.len() {
        proof {
            if contains(s@, p@) {
                let i = choose|i: int| occurs_at(s@, p@, i);
            }
        }
        return false;
    }
    let mut i: usize = 0;
    while i <= s.len() - p.len()
        invariant
            0 < p@.len() <= s@.len(),
            i <= s@.len() - p@.len() + 1,
            forall|j: int| 0 <= j < i ==> !occurs_at(s@, p@, j),
        decreases s@.len() - p@.len() + 1 - i,
    {
        if range_eq(s, i, p, 0, p.len()) {
            assert(p@.subrange(0, p@.len() as int) =~= p@);
            assert(occurs_at(s@, p@, i as int));
            return true;
        }
        assert(p@.subrange(0, p@.len() as int) =~= p@);
        i = i + 1;
    }
    proof {
        if contains(s@, p@) {
            let j = choose|j: int| occurs_at(s@, p@, j);
            assert(j < i);
        }
    }
    false
}

/// Whether the string slice `pattern` occurs in `s`.
pub fn contains_str(s: &Vec<char>, pattern: &str) -> (r: bool)
    ensures
        r == contains(s@, pattern@),
{
    let p = chars_of(pattern);
    contains_chars(s, &p)
}


/// The first position at or after `i` where `p` occurs in `s` (`str::find`).
pub open spec fn find_from(s: Seq<char>, p: Seq<char>, i: int) -> Option<int>
    decreases s.len() + 1 - i,
{
    if 0 <= i && i + p.len() <= s.len() {
        if occurs_at(s, p, i) {
            Some(i)
        } else {
            find_from(s, p, i + 1)
        }
    } else {
        None
    }
}

/// A position that `find_from` returns is one where `p` occurs.
pub proof fn lemma_find_from_found(s: Seq<char>, p: Seq<char>, i: int)
    ensures
        find_from(s, p, i) matches Some(k) ==> i <= k && occurs_at(s, p, k),
    decreases s.len() + 1 - i,
{
    if 0 <= i && i + p.len() <= s.len() && !occurs_at(s, p, i) {
        lemma_find_from_found(s, p, i + 1);
    }
}

/// The first position of `p` in `s[start..end]`, relative to `start`.
pub fn find_in(s: &Vec<char>, start: usize, end: usize, p: &Vec<char>) -> (r: Option<usize>)
    requires
        start <= end <= s@.len(),
    ensures
        match find_from(s@.subrange(start as int, end as int), p@, 0) {
            Some(k) => r == Some(k as usize),
            None => r is None,
        },
{
    let ghost t = s@.subrange(start as int, end as int);
    if p.len() > end - start {
        return None;
    }
    if p.len() == 0 {
        assert(t.subrange(0, 0) =~= p@);
        return Some(0);
    }
    let mut i: usize = 0;
    while i <= end - start - p.len()
        invariant
            start <= end <= s@.len(),
            t == s@.subrange(start as int, end as int),
            0 < p@.len() <= end - start,
            i <= end - start - p@.len() + 1,
            find_from(t, p@, 0) == find_from(t, p@, i as int),
        decreases end - start - p@.len() + 1 - i,
    {
        let hit = range_eq(s, start + i, p, 0, p.len());
        assert(p@.subrange(0, p@.len() as int) =~= p@);
        assert(t.subrange(i as int, i + p@.len()) =~= s@.subrange(start + i, start + i + p@.len()));
        if hit {
            return Some(i);
        }
        i = i + 1;
    }
    None
}

/// The index of the first character of `s` at or after `i` that is not an
/// ASCII digit, or `s.len()`.
pub open spec fn nondigit_index_from(s: Seq<char>, i: int) -> int
    decreases s.len() - i,
{
    if 0 <= i < s.len() {
        if !('0' <= s[i] && s[i] <= '9') {
            i
        } else {
            nondigit_index_from(s, i + 1)
        }
    } else {
        s.len() as int
    }
}

/// The number of non-overlapping occurrences of `p` in `s[i..]` (`str::matches(..).count()`).
pub open spec fn count_matches_from(s: Seq<char>, p: Seq<char>, i: int) -> nat
    decreases s.len() + 1 - i,
{
    if p.len() > 0 && 0 <= i && i + p.len() <= s.len() {
        if occurs_at(s, p, i) {
            1 + count_matches_from(s, p, i + p.len())
        } else {
            count_matches_from(s, p, i + 1)
        }
    } else {
        0
    }
}

/// The number of non-overlapping occurrences of `p` in `s`.
pub fn count_matches(s: &Vec<char>, p: &Vec<char>) -> (r: u64)
    requires
        p@.len() > 0,
    ensures
        r == count_matches_from(s@, p@, 0),
{
    let mut i: usize = 0;
    let mut n: u64 = 0;
    while p.len() <= s.len() - i
        invariant
            p@.len() > 0,
            i <= s@.len(),
            n <= i,
            n + count_matches_from(s@, p@, i as int) == count_matches_from(s@, p@, 0),
        decreases s@.len() - i,
    {
        let hit = range_eq(s, i, p, 0, p.len());
        assert(p@.subrange(0, p@.len() as int) =~= p@);
        if hit {
            n = n + 1;
            i = i + p.len();
        } else {
            i = i + 1;
        }
    }
    n
}

/// The bounds of `second_piece(s[a..b], sep)` within `s`.
pub fn second_piece_bounds(s: &Vec<char>, a: usize, b: usize, sep: char) -> (r: Option<(usize, usize)>)
    requires
        a <= b <= s@.len(),
    ensures
        match second_piece(s@.subrange(a as int, b as int), sep) {
            Some(p) => r matches Some(x) && a <= x.0 <= x.1 <= b && s@.subrange(x.0 as int, x.1 as int) == p,
            None => r is None,
        },
{
    let ghost field = s@.subrange(a as int, b as int);
    let mut k = a;
    while k < b && s[k] != sep
        invariant
            a <= k <= b <= s@.len(),
            field == s@.subrange(a as int, b as int),
            char_index_from(field, sep, 0) == char_index_from(field, sep, k - a),
        decreases b - k,
    {
        assert(field[k - a] == s@[k as int]);
        k = k + 1;
    }
    proof {
        if k < b {
            assert(field[k - a] == s@[k as int]);
        }
    }
    assert(char_index_from(field, sep, 0) == k - a);
    if k == b {
        return None;
    }
    let mut e = k + 1;
    while e < b && s[e] != sep
        invariant
            a <= k < e <= b <= s@.len(),
            field == s@.subrange(a as int, b as int),
            char_index_from(field, sep, k + 1 - a) == char_index_from(field, sep, e - a),
        decreases b - e,
    {
        assert(field[e - a] == s@[e as int]);
        e = e + 1;
    }
    proof {
        if e < b {
            assert(field[e - a] == s@[e as int]);
        }
    }
    assert(char_index_from(field, sep, k + 1 - a) == e - a);
    assert(field.subrange(k + 1 - a, e - a) =~= s@.subrange(k + 1, e as int));
    Some((k + 1, e))
}

/// The decimal digits of `n`, most significant first.
pub fn decimal_chars(n: u64) -> (r: Vec<char>)
    ensures
        r@ == decimal(n as nat),
    decreases n,
{
    if n < 10 {
        let mut v = Vec::new();
        v.push(digit_char_of(n));
        assert(v@ =~= seq![digit_char(n as nat)]);
        v
    } else {
        let mut v = decimal_chars(n / 10);
        v.push(digit_char_of(n % 10));
        v
    }
}

fn digit_char_of(d: u64) -> (c: char)
    requires
        d < 10,
    ensures
        c == digit_char(d as nat),
{
    if d == 0 {
        '0'
    } else if d == 1 {
        '1'
    } else if d == 2 {
        '2'
    } else if d == 3 {
        '3'
    } else if d == 4 {
        '4'
    } else if d == 5 {
        '5'
    } else if d == 6 {
        '6'
    } else if d == 7 {
        '7'
    } else if d == 8 {
        '8'
    } else {
        '9'
    }
}

/// Appends the decimal representation of `n` to `out`.
pub fn push_decimal(out: &mut String, n: u64)
    ensures
        final(out)@ == old(out)@ + decimal(n as nat),
{
    let d = decimal_chars(n);
    push_chars(out, &d, 0, d.len());
    assert(d@.subrange(0, d@.len() as int) =~= d@);
}

/// Appends a string slice to `out`.
pub fn push_str(out: &mut String, s: &str)
    ensures
        final(out)@ == old(out)@ + s@,
{
    out.append(s);
}

/// Parsing the decimal representation of a number gives the number back.
pub proof fn lemma_parse_decimal(n: nat, max: nat)
    requires
        n <= max,
    ensures
        parse_unsigned(decimal(n), 10, max) == Some(n),
{
    lemma_decimal_value(n);
    lemma_decimal_first_is_digit(n);
}

proof fn lemma_digit_char_value(d: nat)
    requires
        d < 10,
    ensures
        digit_value(digit_char(d), 10) == Some(d),
{
}

proof fn lemma_decimal_value(n: nat)
    ensures
        digits_value(decimal(n), 10) == Some(n),
        decimal(n).len() > 0,
    decreases n,
{
    lemma_digit_char_value(n % 10);
    if n < 10 {
        let s = decimal(n);
        assert(s.drop_last() =~= Seq::<char>::empty());
        assert(digits_value(s.drop_last(), 10) == Some(0nat));
        assert(s.last() == digit_char(n % 10));
    } else {
        lemma_decimal_value(n / 10);
        let s = decimal(n);
        assert(s.drop_last() =~= decimal(n / 10));
        assert(s.last() == digit_char(n % 10));
        assert((n / 10) * 10 + n % 10 == n);
    }
}

proof fn lemma_decimal_first_is_digit(n: nat)
    ensures
        decimal(n).len() > 0,
        '0' <= decimal(n)[0] <= '9',
    decreases n,
{
    if n >= 10 {
        lemma_decimal_first_is_digit(n / 10);
    }
}

} // verus!
