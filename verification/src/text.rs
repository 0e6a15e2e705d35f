//! Character-level building blocks shared by the parsers and formatters:
//! whitespace trimming, decimal parsing, and decimal rendering.

use vstd::prelude::*;

verus! {

/// Unicode `White_Space` (what `char::is_whitespace` and `str::trim` use).
pub open spec fn is_ws(c: char) -> bool {
    ||| ('\u{9}' <= c && c <= '\u{d}')
    ||| c == ' '
    ||| c == '\u{85}'
    ||| c == '\u{a0}'
    ||| c == '\u{1680}'
    ||| ('\u{2000}' <= c && c <= '\u{200a}')
    ||| c == '\u{2028}'
    ||| c == '\u{2029}'
    ||| c == '\u{202f}'
    ||| c == '\u{205f}'
    ||| c == '\u{3000}'
}

/// `s` with leading whitespace removed.
pub open spec fn trim_start(s: Seq<char>) -> Seq<char>
    decreases s.len(),
{
    if s.len() > 0 && is_ws(s[0]) {
        trim_start(s.drop_first())
    } else {
        s
    }
}

/// `s` with trailing whitespace removed.
pub open spec fn trim_end(s: Seq<char>) -> Seq<char>
    decreases s.len(),
{
    if s.len() > 0 && is_ws(s.last()) {
        trim_end(s.drop_last())
    } else {
        s
    }
}

/// `s` with whitespace removed at both ends (`str::trim`).
pub open spec fn trim(s: Seq<char>) -> Seq<char> {
    trim_end(trim_start(s))
}

pub open spec fn is_digit(c: char) -> bool {
    '0' <= c && c <= '9'
}

pub open spec fn digit_value(c: char) -> nat {
    (c as int - '0' as int) as nat
}

/// Value of a run of decimal digits, most significant first.
pub open spec fn digits_value(s: Seq<char>) -> nat
    decreases s.len(),
{
    if s.len() == 0 {
        0
    } else {
        digits_value(s.drop_last()) * 10 + digit_value(s.last())
    }
}

/// The digit part of an unsigned integer literal: one optional leading `+`.
pub open spec fn unsigned_body(s: Seq<char>) -> Seq<char> {
    if s.len() > 0 && s[0] == '+' {
        s.drop_first()
    } else {
        s
    }
}

/// The number an unsigned decimal literal denotes (an optional `+`, then at
/// least one ASCII digit), or `None` when `s` is not such a literal. No
/// width bound applies here.
pub open spec fn decimal_literal(s: Seq<char>) -> Option<nat> {
    let body = unsigned_body(s);
    if body.len() > 0 && (forall|i: int| 0 <= i < body.len() ==> is_digit(#[trigger] body[i])) {
        Some(digits_value(body))
    } else {
        None
    }
}

/// What `str::parse` of an unsigned integer type whose largest value is
/// `max` gives: the literal's value when it fits, else nothing.
pub open spec fn parse_unsigned(s: Seq<char>, max: nat) -> Option<nat> {
    match decimal_literal(s) {
        Some(v) => if v <= max { Some(v) } else { None },
        None => None,
    }
}

/// The ASCII digit for `d < 10`.
pub open spec fn digit_char(d: nat) -> char {
    (d + '0' as nat) as char
}

/// Decimal rendering of `n` without leading zeros (`"0"` for zero).
pub open spec fn decimal(n: nat) -> Seq<char>
    decreases n,
{
    if n < 10 {
        seq![digit_char(n)]
    } else {
        decimal(n / 10).push(digit_char(n % 10))
    }
}

/// Two-digit zero-padded rendering of `n < 100`.
pub open spec fn two_digits(n: nat) -> Seq<char> {
    seq![digit_char(n / 10), digit_char(n % 10)]
}

/// `String::push`: appends one character at the end.
#[verifier::external_body]
pub fn push_char(out: &mut String, c: char)
    ensures
        final(out)@ == old(out)@.push(c),
{
    out.push(c);
}

/// The ASCII character for a decimal digit.
pub fn digit(d: u64) -> (c: char)
    requires
        d < 10,
    ensures
        c == digit_char(d as nat),
{
    ((d as u8) + 48u8) as char
}

/// Append the decimal rendering of `n`.
pub fn push_decimal(out: &mut String, n: u64)
    ensures
        final(out)@ == old(out)@ + decimal(n as nat),
    decreases n,
{
    if n < 10 {
        push_char(out, digit(n));
    } else {
        push_decimal(out, n / 10);
        push_char(out, digit(n % 10));
    }
}

/// Append the two-digit rendering of `n < 100`.
pub fn push_two_digits(out: &mut String, n: u64)
    requires
        n < 100,
    ensures
        final(out)@ == old(out)@ + two_digits(n as nat),
{
    push_char(out, digit(n / 10));
    push_char(out, digit(n % 10));
}

/// The characters of `s`, in order.
pub fn chars_of(s: &str) -> (out: Vec<char>)
    ensures
        out@ == s@,
{
    let n = s.unicode_len();
    let mut out: Vec<char> = Vec::new();
    for i in 0..n
        invariant
            n == s@.len(),
            out@ == s@.subrange(0, i as int),
    {
        out.push(s.get_char(i));
        assert(out@ == s@.subrange(0, i + 1));
    }
    assert(s@.subrange(0, n as int) == s@);
    out
}

/// Exact comparison of two string slices, character by character.
pub fn str_eq(a: &str, b: &str) -> (same: bool)
    ensures
        same == (a@ == b@),
{
    let n = a.unicode_len();
    if n != b.unicode_len() {
        return false;
    }
    for i in 0..n
        invariant
            n == a@.len(),
            n == b@.len(),
            forall|j: int| 0 <= j < i ==> a@[j] == b@[j],
    {
        if a.get_char(i) != b.get_char(i) {
            return false;
        }
    }
    assert(a@ =~= b@);
    true
}

pub fn is_whitespace(c: char) -> (ws: bool)
    ensures
        ws == is_ws(c),
{
    ('\u{9}' <= c && c <= '\u{d}') || c == ' ' || c == '\u{85}' || c == '\u{a0}' || c
        == '\u{1680}' || ('\u{2000}' <= c && c <= '\u{200a}') || c == '\u{2028}' || c
        == '\u{2029}' || c == '\u{202f}' || c == '\u{205f}' || c == '\u{3000}'
}

proof fn lemma_trim_start_skip(s: Seq<char>, i: int)
    requires
        0 <= i < s.len(),
        is_ws(s[i]),
    ensures
        trim_start(s.subrange(i, s.len() as int)) == trim_start(s.subrange(i + 1, s.len() as int)),
{
    let t = s.subrange(i, s.len() as int);
    assert(t.drop_first() =~= s.subrange(i + 1, s.len() as int));
}

proof fn lemma_trim_end_skip(s: Seq<char>, j: int)
    requires
        0 < j <= s.len(),
        is_ws(s[j - 1]),
    ensures
        trim_end(s.subrange(0, j)) == trim_end(s.subrange(0, j - 1)),
{
    let t = s.subrange(0, j);
    assert(t.drop_last() =~= s.subrange(0, j - 1));
}

/// Bounds `(lo, hi)` of `trim(chars)` inside `chars`.
pub fn trim_bounds(chars: &Vec<char>) -> (bounds: (usize, usize))
    ensures
        bounds.0 <= bounds.1 <= chars@.len(),
        chars@.subrange(bounds.0 as int, bounds.1 as int) == trim(chars@),
{
    let n = chars.len();
    let mut lo: usize = 0;
    assert(chars@.subrange(0, n as int) == chars@);
    while lo < n && is_whitespace(chars[lo])
        invariant
            lo <= n == chars@.len(),
            trim_start(chars@) == trim_start(chars@.subrange(lo as int, n as int)),
        decreases n - lo,
    {
        proof {
            lemma_trim_start_skip(chars@, lo as int);
        }
        lo = lo + 1;
    }
    let ghost front = chars@.subrange(lo as int, n as int);
    assert(trim_start(front) == front) by {
        if front.len() > 0 {
            assert(front[0] == chars@[lo as int]);
        }
    }
    let mut hi: usize = n;
    assert(front.subrange(0, n - lo) =~= front);
    while hi > lo && is_whitespace(chars[hi - 1])
        invariant
            lo <= hi <= n == chars@.len(),
            front == chars@.subrange(lo as int, n as int),
            trim_end(front) == trim_end(front.subrange(0, hi - lo)),
        decreases hi,
    {
        proof {
            assert(front[hi - lo - 1] == chars@[hi - 1]);
            lemma_trim_end_skip(front, hi - lo);
        }
        hi = hi - 1;
    }
    let ghost back = front.subrange(0, hi - lo);
    assert(trim_end(back) == back) by {
        if back.len() > 0 {
            assert(back.last() == chars@[hi - 1]);
        }
    }
    assert(back =~= chars@.subrange(lo as int, hi as int));
    assert(front.subrange(0, n - lo) =~= front);
    (lo, hi)
}

proof fn lemma_digits_push(s: Seq<char>, c: char)
    ensures
        digits_value(s.push(c)) == digits_value(s) * 10 + digit_value(c),
{
    assert(s.push(c).drop_last() =~= s);
}

/// Whether `chars[lo..hi]` is an unsigned decimal literal (an optional `+`,
/// then at least one ASCII digit), whatever its size.
pub fn is_decimal_literal_range(chars: &Vec<char>, lo: usize, hi: usize) -> (literal: bool)
    requires
        lo <= hi <= chars@.len(),
    ensures
        literal == decimal_literal(chars@.subrange(lo as int, hi as int)) is Some,
{
    let ghost s = chars@.subrange(lo as int, hi as int);
    let mut start = lo;
    if lo < hi && chars[lo] == '+' {
        start = lo + 1;
    }
    let ghost body = chars@.subrange(start as int, hi as int);
    assert(body =~= unsigned_body(s));
    if start == hi {
        return false;
    }
    let mut i = start;
    while i < hi
        invariant
            lo <= start <= i <= hi <= chars@.len(),
            body == chars@.subrange(start as int, hi as int),
            body == unsigned_body(s),
            s == chars@.subrange(lo as int, hi as int),
            forall|j: int| start <= j < i ==> is_digit(#[trigger] chars@[j]),
        decreases hi - i,
    {
        let c = chars[i];
        if !('0' <= c && c <= '9') {
            assert(body[i - start] == c);
            assert(!is_digit(body[i - start]));
            return false;
        }
        i = i + 1;
    }
    assert(forall|j: int| 0 <= j < body.len() ==> is_digit(#[trigger] body[j])) by {
        assert forall|j: int| 0 <= j < body.len() implies is_digit(#[trigger] body[j]) by {
            assert(body[j] == chars@[start + j]);
        }
    }
    true
}

/// `str::parse` of an unsigned integer whose largest value is `max`, over
/// `chars[lo..hi]`.
pub fn parse_unsigned_range(chars: &Vec<char>, lo: usize, hi: usize, max: u64) -> (value: Option<u64>)
    requires
        lo <= hi <= chars@.len(),
    ensures
        match value {
            Some(v) => parse_unsigned(chars@.subrange(lo as int, hi as int), max as nat) == Some(
                v as nat,
            ),
            None => parse_unsigned(chars@.subrange(lo as int, hi as int), max as nat) is None,
        },
{
    let ghost s = chars@.subrange(lo as int, hi as int);
    let mut start = lo;
    if lo < hi && chars[lo] == '+' {
        start = lo + 1;
    }
    let ghost body = chars@.subrange(start as int, hi as int);
    assert(body =~= unsigned_body(s));
    if start == hi {
        assert(unsigned_body(s).len() == 0);
        assert(decimal_literal(s) is None);
        return None;
    }
    let mut acc: u64 = 0;
    let mut overflow = false;
    let mut i = start;
    while i < hi
        invariant
            lo <= start <= i <= hi <= chars@.len(),
            body == chars@.subrange(start as int, hi as int),
            body == unsigned_body(s),
            s == chars@.subrange(lo as int, hi as int),
            forall|j: int| start <= j < i ==> is_digit(#[trigger] chars@[j]),
            !overflow ==> acc as nat == digits_value(chars@.subrange(start as int, i as int)),
            !overflow ==> acc <= max,
            overflow ==> digits_value(chars@.subrange(start as int, i as int)) > max,
        decreases hi - i,
    {
        let c = chars[i];
        if !('0' <= c && c <= '9') {
            assert(body[i - start] == c);
            assert(!is_digit(body[i - start]));
            return None;
        }
        let d = (c as u32 - '0' as u32) as u64;
        proof {
            assert(chars@.subrange(start as int, i + 1) =~= chars@.subrange(start as int, i as int).push(c));
            lemma_digits_push(chars@.subrange(start as int, i as int), c);
        }
        if !overflow {
            match acc.checked_mul(10) {
                Some(t) => match t.checked_add(d) {
                    Some(u) => {
                        if u <= max {
                            acc = u;
                        } else {
                            overflow = true;
                        }
                    },
                    None => {
                        overflow = true;
                    },
                },
                None => {
                    overflow = true;
                },
            }
        }
        i = i + 1;
    }
    assert(chars@.subrange(start as int, hi as int) == body);
    assert(forall|j: int| 0 <= j < body.len() ==> is_digit(#[trigger] body[j])) by {
        assert forall|j: int| 0 <= j < body.len() implies is_digit(#[trigger] body[j]) by {
            assert(body[j] == chars@[start + j]);
        }
    }
    if overflow {
        None
    } else {
        Some(acc)
    }
}

pub open spec fn all_ws(s: Seq<char>) -> bool {
    forall|i: int| 0 <= i < s.len() ==> is_ws(#[trigger] s[i])
}

proof fn lemma_trim_start_ws_prefix(w: Seq<char>, x: Seq<char>)
    requires
        all_ws(w),
    ensures
        trim_start(w + x) == trim_start(x),
    decreases w.len(),
{
    if w.len() > 0 {
        assert((w + x)[0] == w[0]);
        assert((w + x).drop_first() =~= w.drop_first() + x);
        lemma_trim_start_ws_prefix(w.drop_first(), x);
    } else {
        assert(w + x =~= x);
    }
}

proof fn lemma_trim_end_ws_suffix(x: Seq<char>, w: Seq<char>)
    requires
        all_ws(w),
    ensures
        trim_end(x + w) == trim_end(x),
    decreases w.len(),
{
    if w.len() > 0 {
        assert((x + w).last() == w.last());
        assert((x + w).drop_last() =~= x + w.drop_last());
        lemma_trim_end_ws_suffix(x, w.drop_last());
    } else {
        assert(x + w =~= x);
    }
}

proof fn lemma_trim_start_all_ws(s: Seq<char>)
    requires
        all_ws(s),
    ensures
        trim_start(s).len() == 0,
    decreases s.len(),
{
    if s.len() > 0 {
        lemma_trim_start_all_ws(s.drop_first());
    }
}

proof fn lemma_trim_start_keeps_suffix(x: Seq<char>, w: Seq<char>)
    requires
        !all_ws(x),
    ensures
        trim_start(x + w) == trim_start(x) + w,
    decreases x.len(),
{
    assert((x + w)[0] == x[0]);
    if is_ws(x[0]) {
        assert((x + w).drop_first() =~= x.drop_first() + w);
        assert(!all_ws(x.drop_first())) by {
            let i = choose|i: int| 0 <= i < x.len() && !is_ws(#[trigger] x[i]);
            assert(x.drop_first()[i - 1] == x[i]);
        }
        lemma_trim_start_keeps_suffix(x.drop_first(), w);
    }
}

/// Whitespace around a value never reaches what `trim` keeps.
pub proof fn trim_ignores_padding(w1: Seq<char>, s: Seq<char>, w2: Seq<char>)
    requires
        all_ws(w1),
        all_ws(w2),
    ensures
        trim(w1 + s + w2) == trim(s),
{
    assert(w1 + s + w2 =~= w1 + (s + w2));
    lemma_trim_start_ws_prefix(w1, s + w2);
    if all_ws(s) {
        assert(all_ws(s + w2)) by {
            assert forall|i: int| 0 <= i < (s + w2).len() implies is_ws(#[trigger] (s + w2)[i]) by {
                if i < s.len() {
                    assert((s + w2)[i] == s[i]);
                } else {
                    assert((s + w2)[i] == w2[i - s.len()]);
                }
            }
        }
        lemma_trim_start_all_ws(s + w2);
        lemma_trim_start_all_ws(s);
        assert(trim_start(s + w2) =~= trim_start(s));
    } else {
        lemma_trim_start_keeps_suffix(s, w2);
        lemma_trim_end_ws_suffix(trim_start(s), w2);
    }
}

pub proof fn lemma_decimal_digits(n: nat)
    ensures
        decimal(n).len() > 0,
        forall|i: int| 0 <= i < decimal(n).len() ==> is_digit(#[trigger] decimal(n)[i]),
        digits_value(decimal(n)) == n,
    decreases n,
{
    if n >= 10 {
        lemma_decimal_digits(n / 10);
        let head = decimal(n / 10);
        assert(decimal(n).drop_last() =~= head);
        assert(digit_value(digit_char(n % 10)) == n % 10);
        assert(n == (n / 10) * 10 + n % 10) by (nonlinear_arith);
        assert(decimal(n).last() == digit_char(n % 10));
        assert(digits_value(decimal(n)) == digits_value(head) * 10 + digit_value(digit_char(n % 10)));
        assert forall|i: int| 0 <= i < decimal(n).len() implies is_digit(#[trigger] decimal(n)[i]) by {
            if i < head.len() {
                assert(decimal(n)[i] == head[i]);
            }
        }
    } else {
        assert(seq![digit_char(n)].drop_last() =~= Seq::<char>::empty());
        assert(digit_value(digit_char(n)) == n);
        assert(digits_value(Seq::<char>::empty()) == 0);
        assert(digits_value(seq![digit_char(n)]) == digit_value(digit_char(n)));
    }
}

/// Text made of digits only has nothing to trim.
pub proof fn lemma_trim_digits(s: Seq<char>)
    requires
        s.len() > 0,
        forall|i: int| 0 <= i < s.len() ==> is_digit(#[trigger] s[i]),
    ensures
        trim(s) == s,
{
    assert(!is_ws(s[0]));
    assert(!is_ws(s.last()));
}

/// The decimal rendering of a number parses back to that number wherever
/// it fits the target width.
pub proof fn decimal_parses_back(n: nat, max: nat)
    requires
        n <= max,
    ensures
        parse_unsigned(decimal(n), max) == Some(n),
        parse_unsigned(seq!['+'] + decimal(n), max) == Some(n),
{
    lemma_decimal_digits(n);
    assert(decimal(n)[0] != '+');
    assert(unsigned_body(decimal(n)) == decimal(n));
    assert((seq!['+'] + decimal(n)).drop_first() =~= decimal(n));
}

} // verus!
