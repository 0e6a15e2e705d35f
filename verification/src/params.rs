//! Inputs-panel validation: parse and range checks for the subdivisions
//! field, the inline hints under both fields, the live cost hint, and the
//! Regenerate gate. The mesh generator is only ever reached with fields
//! that pass [`validate_fields`].
//!
//! The radius field is a floating-point value; its parse and its
//! finiteness/positivity checks live with the windowed shell, which hands
//! the outcome (`Ok(radius)` or the [`RadiusError`]) to the functions here.

use vstd::prelude::*;
use vstd::arithmetic::power::pow;
use crate::text::{
    all_ws, chars_of, decimal, decimal_literal, decimal_parses_back, is_decimal_literal_range,
    parse_unsigned_range, trim, trim_bounds, trim_ignores_padding,
};

verus! {

/// Slider/field range: subdivisions are clamped to 0–8.
pub const MIN_SUBDIVISIONS: u32 = 0;

/// Slider/field range: subdivisions are clamped to 0–8.
pub const MAX_SUBDIVISIONS: u32 = 8;

/// Warning styling kicks in above this (default N=6).
pub const WARN_SUBDIVISIONS: u32 = 6;

/// Cell count of the dual mesh at subdivision level `n`: `10·4^n + 2`.
pub open spec fn cell_count(n: nat) -> int {
    10 * pow(4, n) + 2
}

proof fn lemma_pow4_step(n: nat)
    ensures
        pow(4, n + 1) == 4 * pow(4, n),
        pow(4, n) >= 1,
{
    reveal(pow);
    vstd::arithmetic::power::lemma_pow_positive(4, n);
}

/// The cell counts grow as subdividing does: 12 cells (the pentagons) at
/// level 0, and each level quadruples the cells less six.
pub proof fn cell_count_levels(n: nat)
    ensures
        cell_count(0) == 12,
        cell_count(n + 1) == 4 * cell_count(n) - 6,
{
    reveal_with_fuel(pow, 1);
    lemma_pow4_step(n);
}

/// Live cost hint: resulting cell count for a subdivision level.
pub fn cell_count_hint(subdivisions: u32) -> (cells: usize)
    requires
        cell_count(subdivisions as nat) <= usize::MAX,
    ensures
        cells == cell_count(subdivisions as nat),
{
    let mut p: usize = 1;
    let mut i: u32 = 0;
    proof {
        reveal(pow);
    }
    while i < subdivisions
        invariant
            i <= subdivisions,
            p == pow(4, i as nat),
            cell_count(subdivisions as nat) <= usize::MAX,
        decreases subdivisions - i,
    {
        proof {
            lemma_pow4_step(i as nat);
            vstd::arithmetic::power::lemma_pow_increases(4, (i + 1) as nat, subdivisions as nat);
        }
        p = p * 4;
        i = i + 1;
    }
    10 * p + 2
}

/// True when the level needs the ">N=6 cost" warning styling.
pub fn subdiv_warning(subdivisions: u32) -> (warn: bool)
    ensures
        warn == (subdivisions > WARN_SUBDIVISIONS),
{
    subdivisions > WARN_SUBDIVISIONS
}

/// Why a subdivisions field value was rejected.
#[derive(Clone, Copy, Debug, PartialEq, Eq, Structural)]
pub enum SubdivError {
    /// Empty input.
    Empty,
    /// Not an integer.
    NotInteger,
    /// Integer outside 0–8.
    OutOfRange,
}

pub open spec fn subdiv_hint_text(e: SubdivError) -> Seq<char> {
    match e {
        SubdivError::Empty => "enter subdivisions 0–8"@,
        SubdivError::NotInteger => "not an integer (0–8)"@,
        SubdivError::OutOfRange => "out of range (0–8)"@,
    }
}

impl SubdivError {
    /// Inline hint shown under the field.
    pub fn hint(self) -> (text: &'static str)
        ensures
            text@ == subdiv_hint_text(self),
    {
        match self {
            SubdivError::Empty => "enter subdivisions 0–8",
            SubdivError::NotInteger => "not an integer (0–8)",
            SubdivError::OutOfRange => "out of range (0–8)",
        }
    }
}

/// Why a radius field value was rejected (the value must be `> 0` and
/// finite).
#[derive(Clone, Copy, Debug, PartialEq, Eq, Structural)]
pub enum RadiusError {
    /// Empty input.
    Empty,
    /// Not a number.
    NotANumber,
    /// `<= 0` (would panic the generator).
    NotPositive,
    /// NaN or infinite (would panic the generator).
    NotFinite,
}

pub open spec fn radius_hint_text(e: RadiusError) -> Seq<char> {
    match e {
        RadiusError::Empty => "enter a radius > 0"@,
        RadiusError::NotANumber => "not a number"@,
        RadiusError::NotPositive => "must be > 0"@,
        RadiusError::NotFinite => "must be finite"@,
    }
}

impl RadiusError {
    /// Inline hint shown under the field.
    pub fn hint(self) -> (text: &'static str)
        ensures
            text@ == radius_hint_text(self),
    {
        match self {
            RadiusError::Empty => "enter a radius > 0",
            RadiusError::NotANumber => "not a number",
            RadiusError::NotPositive => "must be > 0",
            RadiusError::NotFinite => "must be finite",
        }
    }
}

/// Every inline hint, for either field, is non-empty text.
pub proof fn hints_are_nonempty(s: SubdivError, r: RadiusError)
    ensures
        subdiv_hint_text(s).len() > 0,
        radius_hint_text(r).len() > 0,
{
    reveal_strlit("enter subdivisions 0–8");
    reveal_strlit("not an integer (0–8)");
    reveal_strlit("out of range (0–8)");
    reveal_strlit("enter a radius > 0");
    reveal_strlit("not a number");
    reveal_strlit("must be > 0");
    reveal_strlit("must be finite");
}

/// What the subdivisions field holds: after trimming whitespace, an
/// unsigned decimal integer (an optional `+`, then ASCII digits) that is at
/// most 8. Any other integer, however large, is out of range.
pub open spec fn subdivisions_outcome(text: Seq<char>) -> Result<u32, SubdivError> {
    let t = trim(text);
    if t.len() == 0 {
        Err(SubdivError::Empty)
    } else {
        match decimal_literal(t) {
            None => Err(SubdivError::NotInteger),
            Some(v) => if v > MAX_SUBDIVISIONS {
                Err(SubdivError::OutOfRange)
            } else {
                Ok(v as u32)
            },
        }
    }
}

/// Parse and range-check a subdivisions field value.
pub fn parse_subdivisions(text: &str) -> (parsed: Result<u32, SubdivError>)
    ensures
        parsed == subdivisions_outcome(text@),
{
    let chars = chars_of(text);
    let (lo, hi) = trim_bounds(&chars);
    if lo == hi {
        return Err(SubdivError::Empty);
    }
    match parse_unsigned_range(&chars, lo, hi, 0xffff_ffff) {
        None => {
            if is_decimal_literal_range(&chars, lo, hi) {
                Err(SubdivError::OutOfRange)
            } else {
                Err(SubdivError::NotInteger)
            }
        },
        Some(v) => {
            if v > MAX_SUBDIVISIONS as u64 {
                Err(SubdivError::OutOfRange)
            } else {
                Ok(v as u32)
            }
        },
    }
}

/// Whitespace around a subdivisions value never changes how the field
/// reads it.
pub proof fn subdivisions_ignore_padding(w1: Seq<char>, text: Seq<char>, w2: Seq<char>)
    requires
        all_ws(w1),
        all_ws(w2),
    ensures
        subdivisions_outcome(w1 + text + w2) == subdivisions_outcome(text),
{
    trim_ignores_padding(w1, text, w2);
}

/// The field accepts every level of the slider range written in decimal
/// (with or without a leading `+`),
/// and nothing it accepts lies outside that range.
pub proof fn subdivisions_accept_slider_range(n: nat, text: Seq<char>)
    ensures
        n <= MAX_SUBDIVISIONS ==> subdivisions_outcome(decimal(n)) == Ok::<u32, SubdivError>(n as u32),
        n <= MAX_SUBDIVISIONS ==> subdivisions_outcome(seq!['+'] + decimal(n)) == Ok::<u32, SubdivError>(
            n as u32,
        ),
        subdivisions_outcome(text) matches Ok(v) ==> MIN_SUBDIVISIONS <= v <= MAX_SUBDIVISIONS,
{
    if n <= MAX_SUBDIVISIONS {
        decimal_parses_back(n, u32::MAX as nat);
        trim_ignores_padding(Seq::empty(), decimal(n), Seq::empty());
        assert(Seq::<char>::empty() + decimal(n) + Seq::<char>::empty() =~= decimal(n));
        assert(decimal(n).len() > 0);
        assert(trim(decimal(n)) == decimal(n)) by {
            assert(decimal(n) =~= seq![crate::text::digit_char(n)]);
        }
        let plus = seq!['+'] + decimal(n);
        assert(plus =~= seq!['+', crate::text::digit_char(n)]);
        assert(trim(plus) == plus);
    }
}

/// How the field rejects text: an integer above 8, of any size, is out
/// of range; text whose first character is neither a digit nor `+`, or that
/// holds a non-digit after its first character, or that is a lone `+`, is
/// not an integer.
pub proof fn subdivisions_rejections(n: nat, text: Seq<char>)
    ensures
        n > MAX_SUBDIVISIONS ==> subdivisions_outcome(decimal(n)) == Err::<u32, SubdivError>(
            SubdivError::OutOfRange,
        ),
        trim(text).len() > 0 && !crate::text::is_digit(trim(text)[0]) && trim(text)[0] != '+'
            ==> subdivisions_outcome(text) == Err::<u32, SubdivError>(SubdivError::NotInteger),
        (exists|i: int| 0 < i < trim(text).len() && !crate::text::is_digit(#[trigger] trim(text)[i]))
            ==> subdivisions_outcome(text) == Err::<u32, SubdivError>(SubdivError::NotInteger),
        trim(text) == seq!['+'] ==> subdivisions_outcome(text) == Err::<u32, SubdivError>(
            SubdivError::NotInteger,
        ),
{
    if n > MAX_SUBDIVISIONS {
        decimal_parses_back(n, n);
        crate::text::lemma_decimal_digits(n);
        trim_ignores_padding(Seq::empty(), decimal(n), Seq::empty());
        assert(Seq::<char>::empty() + decimal(n) + Seq::<char>::empty() =~= decimal(n));
        crate::text::lemma_trim_digits(decimal(n));
    }
    let t = trim(text);
    if exists|i: int| 0 < i < t.len() && !crate::text::is_digit(#[trigger] t[i]) {
        let i = choose|i: int| 0 < i < t.len() && !crate::text::is_digit(#[trigger] t[i]);
        let body = crate::text::unsigned_body(t);
        if t[0] == '+' {
            assert(body[i - 1] == t[i]);
        } else {
            assert(body[i] == t[i]);
        }
    }
    if t.len() > 0 && !crate::text::is_digit(t[0]) && t[0] != '+' {
        assert(crate::text::unsigned_body(t)[0] == t[0]);
    }
}

/// Which field rejected the input.
#[derive(Clone, Copy, Debug, PartialEq, Eq, Structural)]
pub enum ParamsError {
    Subdiv(SubdivError),
    Radius(RadiusError),
}

/// Outcome of validating both fields: the subdivisions field is checked
/// first, then the radius outcome.
pub open spec fn fields_outcome<R>(subdivisions: Seq<char>, radius: Result<R, RadiusError>) -> Result<
    (u32, R),
    ParamsError,
> {
    match subdivisions_outcome(subdivisions) {
        Err(e) => Err(ParamsError::Subdiv(e)),
        Ok(n) => match radius {
            Err(e) => Err(ParamsError::Radius(e)),
            Ok(r) => Ok((n, r)),
        },
    }
}

/// Validate both fields at once; `Ok` means Regenerate is enabled. The
/// radius comes in as the outcome of its own field check.
pub fn validate_fields<R>(subdivisions: &str, radius: Result<R, RadiusError>) -> (checked: Result<
    (u32, R),
    ParamsError,
>)
    ensures
        checked == fields_outcome(subdivisions@, radius),
{
    match parse_subdivisions(subdivisions) {
        Err(e) => Err(ParamsError::Subdiv(e)),
        Ok(n) => match radius {
            Err(e) => Err(ParamsError::Radius(e)),
            Ok(r) => Ok((n, r)),
        },
    }
}

/// Validation passes the field values through untouched: when both fields
/// are valid the result is exactly the parsed level and the radius; when
/// the result is valid both fields were, with those values; otherwise it
/// names the first field that failed and why.
pub proof fn validation_passes_values_through<R>(subdivisions: Seq<char>, radius: Result<R, RadiusError>)
    ensures
        subdivisions_outcome(subdivisions) is Ok && radius is Ok ==> fields_outcome(
            subdivisions,
            radius,
        ) == Ok::<(u32, R), ParamsError>((subdivisions_outcome(subdivisions)->Ok_0, radius->Ok_0)),
        fields_outcome(subdivisions, radius) matches Ok(v) ==> subdivisions_outcome(subdivisions)
            == Ok::<u32, SubdivError>(v.0) && radius == Ok::<R, RadiusError>(v.1),
        subdivisions_outcome(subdivisions) matches Err(e) ==> fields_outcome(subdivisions, radius)
            == Err::<(u32, R), ParamsError>(ParamsError::Subdiv(e)),
        radius matches Err(e) ==> (subdivisions_outcome(subdivisions) is Ok ==> fields_outcome(
            subdivisions,
            radius,
        ) == Err::<(u32, R), ParamsError>(ParamsError::Radius(e))),
{
}

/// Regenerate is enabled only while both fields are valid.
pub fn can_regenerate<R>(subdivisions: &str, radius: Result<R, RadiusError>) -> (enabled: bool)
    ensures
        enabled == fields_outcome(subdivisions@, radius) is Ok,
        enabled == (subdivisions_outcome(subdivisions@) is Ok && radius is Ok),
{
    validate_fields(subdivisions, radius).is_ok()
}

} // verus!
