//! Readouts for the stats panel: thousands-grouped counts and the short
//! mesh-hash label.

use vstd::prelude::*;
use vstd::arithmetic::power::pow;
use vstd::arithmetic::div_mod::{lemma_div_denominator, lemma_fundamental_div_mod};
use crate::text::{decimal, digit, digit_char, push_char, push_decimal};

verus! {

/// Three-digit zero-padded rendering of `n < 1000`.
pub open spec fn three_digits(n: nat) -> Seq<char> {
    seq![digit_char(n / 100), digit_char(n / 10 % 10), digit_char(n % 10)]
}

/// Decimal rendering of `n` with a `,` between groups of three digits,
/// counted from the right (`40962` → `"40,962"`).
pub open spec fn grouped(n: nat) -> Seq<char>
    decreases n,
{
    if n < 1000 {
        decimal(n)
    } else {
        grouped(n / 1000) + seq![','] + three_digits(n % 1000)
    }
}

fn push_grouped(out: &mut String, n: u64)
    ensures
        final(out)@ == old(out)@ + grouped(n as nat),
    decreases n,
{
    if n < 1000 {
        push_decimal(out, n);
    } else {
        push_grouped(out, n / 1000);
        push_char(out, ',');
        let rest = n % 1000;
        push_char(out, digit(rest / 100));
        push_char(out, digit(rest / 10 % 10));
        push_char(out, digit(rest % 10));
    }
}

/// Thousands separator for stats (`40962` → `"40,962"`).
pub fn fmt_int(n: usize) -> (text: String)
    ensures
        text@ == grouped(n as nat),
{
    let mut out = String::new();
    push_grouped(&mut out, n as u64);
    out
}

/// `s` with every `,` removed.
pub open spec fn strip_commas(s: Seq<char>) -> Seq<char> {
    s.filter(|c: char| c != ',')
}

proof fn lemma_strip_no_commas(s: Seq<char>)
    requires
        forall|i: int| 0 <= i < s.len() ==> s[i] != ',',
    ensures
        strip_commas(s) == s,
    decreases s.len(),
{
    reveal(Seq::filter);
    if s.len() > 0 {
        lemma_strip_no_commas(s.drop_last());
        assert(s.drop_last().push(s.last()) =~= s);
    }
}

proof fn lemma_decimal_no_commas(n: nat)
    ensures
        forall|i: int| 0 <= i < decimal(n).len() ==> decimal(n)[i] != ',',
    decreases n,
{
    if n >= 10 {
        lemma_decimal_no_commas(n / 10);
        let head = decimal(n / 10);
        assert forall|i: int| 0 <= i < decimal(n).len() implies decimal(n)[i] != ',' by {
            if i < head.len() {
                assert(decimal(n)[i] == head[i]);
            } else {
                assert(decimal(n)[i] == digit_char(n % 10));
            }
        }
    }
}

proof fn lemma_decimal_split(n: nat)
    requires
        n >= 1000,
    ensures
        decimal(n) == decimal(n / 1000) + three_digits(n % 1000),
{
    assert(n / 10 / 10 == n / 100) by (nonlinear_arith);
    assert(n / 100 / 10 == n / 1000) by (nonlinear_arith);
    assert(n / 100 % 10 == n % 1000 / 100) by (nonlinear_arith);
    assert(n / 10 % 10 == n % 1000 / 10 % 10) by (nonlinear_arith);
    assert(n % 10 == n % 1000 % 10) by (nonlinear_arith);
    assert(n / 10 >= 100 && n / 100 >= 10) by (nonlinear_arith)
        requires
            n >= 1000,
    ;
    let d0 = digit_char(n % 10);
    let d1 = digit_char(n / 10 % 10);
    let d2 = digit_char(n / 100 % 10);
    assert(decimal(n) == decimal(n / 10).push(d0));
    assert(decimal(n / 10) == decimal(n / 100).push(d1));
    assert(decimal(n / 100) == decimal(n / 1000).push(d2));
    assert(decimal(n) =~= decimal(n / 1000) + three_digits(n % 1000));
}

/// Grouping only inserts separators: with the commas taken out, the grouped
/// rendering is the plain decimal rendering of the same number.
pub proof fn grouping_only_adds_commas(n: nat)
    ensures
        strip_commas(grouped(n)) == decimal(n),
    decreases n,
{
    if n < 1000 {
        lemma_decimal_no_commas(n);
        lemma_strip_no_commas(decimal(n));
    } else {
        grouping_only_adds_commas(n / 1000);
        lemma_decimal_split(n);
        let head = grouped(n / 1000);
        let tail = three_digits(n % 1000);
        let pred = |c: char| c != ',';
        Seq::filter_distributes_over_add(head + seq![','], tail, pred);
        Seq::filter_distributes_over_add(head, seq![','], pred);
        assert(seq![','].filter(pred) =~= Seq::<char>::empty()) by {
            reveal_with_fuel(Seq::filter, 2);
        }
        lemma_strip_no_commas(tail);
        assert(head + seq![','] + Seq::<char>::empty() =~= head + seq![',']);
    }
}

/// Where the separators go: counting from the right end, every fourth
/// character is a `,` and no other is, so each group of three digits below
/// the leading group is set off by a comma (`2562` → `2,562`,
/// `1000001` → `1,000,001`). With the commas taken out the digits are the
/// plain decimal rendering ([`grouping_only_adds_commas`]).
pub proof fn separators_every_three_digits(n: nat)
    ensures
        forall|i: int|
            0 <= i < grouped(n).len() ==> (#[trigger] grouped(n)[i] == ',' <==> (grouped(n).len() - i)
                % 4 == 0),
        n >= 1000 ==> grouped(n).len() >= 5,
    decreases n,
{
    if n < 1000 {
        lemma_decimal_no_commas(n);
        assert(decimal(n).len() <= 3) by {
            reveal_with_fuel(decimal, 4);
        }
    } else {
        separators_every_three_digits(n / 1000);
        let g = grouped(n / 1000);
        let t = three_digits(n % 1000);
        let s = grouped(n);
        assert(s == g + seq![','] + t);
        assert(g.len() > 0) by {
            if n / 1000 < 1000 {
                reveal_with_fuel(decimal, 2);
            }
        }
        assert forall|i: int| 0 <= i < s.len() implies (#[trigger] s[i] == ',' <==> (s.len() - i) % 4
            == 0) by {
            if i < g.len() {
                assert(s[i] == g[i]);
                assert((s.len() - i) % 4 == (g.len() - i) % 4);
            } else if i == g.len() {
                assert(s[i] == ',');
            } else {
                assert(s[i] == t[i - g.len() - 1]);
                assert(t[i - g.len() - 1] != ',');
            }
        }
    }
}

/// Lower-case hexadecimal digit for `d < 16`.
pub open spec fn hex_digit(d: nat) -> char {
    if d < 10 {
        digit_char(d)
    } else {
        (d - 10 + 'a' as nat) as char
    }
}

/// Base-16 digit of `h` that stands `k` places from the right.
pub open spec fn nibble(h: nat, k: nat) -> nat {
    ((h as int / pow(16, k)) % 16) as nat
}

/// `{:016x}` of a 64-bit value: sixteen lower-case hex digits, most
/// significant first, zero-padded.
pub open spec fn hex16(h: nat) -> Seq<char> {
    Seq::new(16, |i: int| hex_digit(nibble(h, (15 - i) as nat)))
}

fn hex_char(d: u64) -> (c: char)
    requires
        d < 16,
    ensures
        c == hex_digit(d as nat),
{
    if d < 10 {
        digit(d)
    } else {
        ((d as u8) - 10 + 97u8) as char
    }
}

proof fn lemma_pow16_step(k: nat)
    ensures
        pow(16, k + 1) == 16 * pow(16, k),
        pow(16, k) >= 1,
{
    reveal(pow);
    vstd::arithmetic::power::lemma_pow_positive(16, k);
}

/// First 8 hex chars of a mesh hash (`{hash:016x}` prefix).
pub fn short_hash(hash: u64) -> (text: String)
    ensures
        text@ == hex16(hash as nat).take(8),
{
    let mut d: u64 = 1;
    let mut k: u64 = 0;
    proof {
        reveal(pow);
    }
    while k < 15
        invariant
            k <= 15,
            d == pow(16, k as nat),
        decreases 15 - k,
    {
        proof {
            lemma_pow16_step(k as nat);
            vstd::arithmetic::power::lemma_pow_increases(16, (k + 1) as nat, 15);
            assert(pow(16, 15) == 0x1000_0000_0000_0000) by {
                reveal_with_fuel(pow, 16);
            }
        }
        d = d * 16;
        k = k + 1;
    }
    let mut out = String::new();
    for i in 0..8
        invariant
            d == pow(16, (15 - i) as nat),
            out@ == hex16(hash as nat).take(i as int),
    {
        proof {
            lemma_pow16_step((15 - i - 1) as nat);
        }
        let nib = (hash / d) % 16;
        assert(nib == nibble(hash as nat, (15 - i) as nat));
        push_char(&mut out, hex_char(nib));
        assert(out@ =~= hex16(hash as nat).take(i + 1));
        d = d / 16;
    }
    out
}

/// Lower-case hexadecimal digit characters.
pub open spec fn is_lower_hex(c: char) -> bool {
    ('0' <= c && c <= '9') || ('a' <= c && c <= 'f')
}

/// Value of a hexadecimal digit character.
pub open spec fn hex_value(c: char) -> int {
    if '0' <= c && c <= '9' {
        c as int - '0' as int
    } else {
        c as int - 'a' as int + 10
    }
}

/// Value of a run of hexadecimal digits, most significant first.
pub open spec fn hex_number(s: Seq<char>) -> int
    decreases s.len(),
{
    if s.len() == 0 {
        0
    } else {
        hex_number(s.drop_last()) * 16 + hex_value(s.last())
    }
}

proof fn lemma_hex_prefix(h: u64, k: nat)
    requires
        k <= 16,
    ensures
        hex_number(hex16(h as nat).take(k as int)) == h as int / pow(16, (16 - k) as nat),
        forall|i: int| 0 <= i < k ==> is_lower_hex(#[trigger] hex16(h as nat)[i]),
    decreases k,
{
    let x = hex16(h as nat);
    if k == 0 {
        assert(pow(16, 16) == 0x1_0000_0000_0000_0000) by {
            reveal_with_fuel(pow, 17);
        }
        assert(x.take(0) =~= Seq::<char>::empty());
    } else {
        lemma_hex_prefix(h, (k - 1) as nat);
        let p = pow(16, (16 - k) as nat);
        lemma_pow16_step((16 - k) as nat);
        assert(x.take(k as int).drop_last() =~= x.take(k - 1));
        let d = nibble(h as nat, (16 - k) as nat);
        assert(x[k - 1] == hex_digit(d));
        assert(hex_value(hex_digit(d)) == d);
        lemma_div_denominator(h as int, p, 16);
        lemma_fundamental_div_mod(h as int / p, 16);
        assert(p * 16 == 16 * p);
    }
}

/// The short hash is the high half of the mesh hash: its eight characters
/// are lower-case hex digits whose value is the hash's top 32 bits.
pub proof fn short_hash_reads_high_half(h: u64)
    ensures
        hex16(h as nat).take(8).len() == 8,
        forall|i: int| 0 <= i < 8 ==> is_lower_hex(#[trigger] hex16(h as nat).take(8)[i]),
        hex_number(hex16(h as nat).take(8)) == h as int / 0x1_0000_0000,
{
    lemma_hex_prefix(h, 8);
    assert(pow(16, 8) == 0x1_0000_0000) by {
        reveal_with_fuel(pow, 9);
    }
    assert forall|i: int| 0 <= i < 8 implies is_lower_hex(#[trigger] hex16(h as nat).take(8)[i]) by {
        assert(hex16(h as nat).take(8)[i] == hex16(h as nat)[i]);
    }
}

} // verus!
