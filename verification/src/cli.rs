//! Command-line scanning for the viewer binary: `--headless`, `--seed N`,
//! `--capture OUT.png`, `--view PRESET`, `--size WxH`, `--help`.
//!
//! The scan is a step machine: each [`CliScan::step`] consumes one flag
//! (and its value). The preset and size values of `--view` and `--size`
//! belong to the capture harness, so the scan hands those values back
//! ([`CliStep::View`], [`CliStep::Size`]) for the caller to parse, and the
//! caller reports a rejected value through [`with_usage`]. Every failure
//! message ends with the usage line.

use vstd::prelude::*;
use crate::text::{chars_of, decimal, decimal_parses_back, parse_unsigned, parse_unsigned_range, str_eq};

verus! {

pub open spec fn usage_text() -> Seq<char> {
    "usage: game_debug [--headless] [--seed N] [--capture OUT.png --view inspector|slab|demo|vista --size WxH]"@
}

pub fn usage() -> (text: &'static str)
    ensures
        text@ == usage_text(),
{
    "usage: game_debug [--headless] [--seed N] [--capture OUT.png --view inspector|slab|demo|vista --size WxH]"
}

/// What `{:?}` renders for a string: the text in double quotes with
/// escapes.
pub uninterp spec fn debug_str(s: Seq<char>) -> Seq<char>;

/// `<str as Debug>::fmt` through `format!("{:?}")`: the quoted, escaped
/// form of `s`. Only that it is a function of `s` alone is stated.
#[verifier::external_body]
fn debug_quoted(s: &str) -> (quoted: String)
    ensures
        quoted@ == debug_str(s@),
{
    format!("{s:?}")
}

/// `message`, a line break, then the usage line.
pub open spec fn usage_error(message: Seq<char>) -> Seq<char> {
    message + "\n"@ + usage_text()
}

/// A rejected value's message followed by the usage line (the form every
/// command-line failure takes).
pub fn with_usage(message: &str) -> (text: String)
    ensures
        text@ == usage_error(message@),
{
    let mut text = String::from_str(message);
    text.append("\n");
    text.append(usage());
    text
}

/// Scan state: flags seen so far and the index of the next argument
/// (`argv[0]`, the program name, is skipped).
#[derive(Debug)]
pub struct CliScan {
    pub headless: bool,
    pub seed: Option<u64>,
    pub capture_path: Option<String>,
    pub next: usize,
}

pub struct ScanModel {
    pub headless: bool,
    pub seed: Option<u64>,
    pub capture_path: Option<Seq<char>>,
    pub next: nat,
}

pub open spec fn opt_view(s: Option<String>) -> Option<Seq<char>> {
    match s {
        Some(v) => Some(v@),
        None => None,
    }
}

impl View for CliScan {
    type V = ScanModel;

    open spec fn view(&self) -> ScanModel {
        ScanModel {
            headless: self.headless,
            seed: self.seed,
            capture_path: opt_view(self.capture_path),
            next: self.next as nat,
        }
    }
}

/// What one scan step did.
#[derive(Debug)]
pub enum CliStep {
    /// No arguments left.
    Done,
    /// A flag (and its value) was consumed and recorded.
    Handled,
    /// `--view` with this value: the caller parses the preset.
    View(String),
    /// `--size` with this value: the caller parses the size.
    Size(String),
    /// The command line is rejected with this message.
    Fail(String),
}

pub enum StepModel {
    Done,
    Handled,
    View(Seq<char>),
    Size(Seq<char>),
    Fail(Seq<char>),
}

impl View for CliStep {
    type V = StepModel;

    open spec fn view(&self) -> StepModel {
        match self {
            CliStep::Done => StepModel::Done,
            CliStep::Handled => StepModel::Handled,
            CliStep::View(v) => StepModel::View(v@),
            CliStep::Size(v) => StepModel::Size(v@),
            CliStep::Fail(m) => StepModel::Fail(m@),
        }
    }
}

pub open spec fn args_view(argv: Seq<String>) -> Seq<Seq<char>> {
    argv.map_values(|a: String| a@)
}

/// One scan step over the argument texts `args`: the new state and what
/// the step did.
pub open spec fn step_spec(s: ScanModel, args: Seq<Seq<char>>) -> (ScanModel, StepModel) {
    if s.next >= args.len() {
        (s, StepModel::Done)
    } else {
        let arg = args[s.next as int];
        let i = s.next + 1;
        let has_value = i < args.len();
        let value = args[i as int];
        let after_flag = ScanModel { next: i, ..s };
        let after_value = ScanModel { next: i + 1, ..s };
        if arg == "--headless"@ {
            (ScanModel { headless: true, ..after_flag }, StepModel::Handled)
        } else if arg == "--help"@ || arg == "-h"@ {
            (after_flag, StepModel::Fail(usage_text()))
        } else if arg == "--seed"@ {
            if !has_value {
                (after_flag, StepModel::Fail(usage_error("--seed needs a value"@)))
            } else {
                match parse_unsigned(value, u64::MAX as nat) {
                    Some(n) => (
                        ScanModel { seed: Some(n as u64), ..after_value },
                        StepModel::Handled,
                    ),
                    None => (
                        after_value,
                        StepModel::Fail(
                            usage_error("--seed needs a u64 seed, got "@ + debug_str(value)),
                        ),
                    ),
                }
            }
        } else if arg == "--capture"@ {
            if !has_value {
                (after_flag, StepModel::Fail(usage_error("--capture needs a path"@)))
            } else {
                (ScanModel { capture_path: Some(value), ..after_value }, StepModel::Handled)
            }
        } else if arg == "--view"@ {
            if !has_value {
                (after_flag, StepModel::Fail(usage_error("--view needs a preset"@)))
            } else {
                (after_value, StepModel::View(value))
            }
        } else if arg == "--size"@ {
            if !has_value {
                (after_flag, StepModel::Fail(usage_error("--size needs a WxH value"@)))
            } else {
                (after_value, StepModel::Size(value))
            }
        } else {
            (after_flag, StepModel::Fail(usage_error("unknown argument "@ + debug_str(arg))))
        }
    }
}

/// Parsed command line, minus the capture preset and size (which the
/// caller collected from the [`CliStep::View`] and [`CliStep::Size`]
/// steps).
#[derive(Debug)]
pub struct CliArgs {
    pub headless: bool,
    pub seed: Option<u64>,
    pub capture_path: Option<String>,
}

/// The end of the scan: a capture needs a GPU, so it cannot be combined
/// with `--headless`.
pub open spec fn finish_spec(s: ScanModel) -> Result<(bool, Option<u64>, Option<Seq<char>>), Seq<char>> {
    if s.capture_path is Some && s.headless {
        Err(usage_error("--capture needs a GPU; --headless is GPU-free"@))
    } else {
        Ok((s.headless, s.seed, s.capture_path))
    }
}

fn text(s: &str) -> (out: String)
    ensures
        out@ == s@,
{
    String::from_str(s)
}

fn fail_with(message: &str) -> (step: CliStep)
    ensures
        step@ == StepModel::Fail(usage_error(message@)),
{
    CliStep::Fail(with_usage(message))
}

fn fail_quoting(prefix: &str, quoted: &str) -> (step: CliStep)
    ensures
        step@ == StepModel::Fail(usage_error(prefix@ + debug_str(quoted@))),
{
    let mut message = text(prefix);
    let q = debug_quoted(quoted);
    message.append(q.as_str());
    let step = CliStep::Fail(with_usage(message.as_str()));
    step
}

/// `str::parse::<u64>` of a whole argument (no trimming).
fn parse_u64(s: &str) -> (value: Option<u64>)
    ensures
        match value {
            Some(v) => parse_unsigned(s@, u64::MAX as nat) == Some(v as nat),
            None => parse_unsigned(s@, u64::MAX as nat) is None,
        },
{
    let chars = chars_of(s);
    assert(chars@.subrange(0, chars@.len() as int) == s@);
    parse_unsigned_range(&chars, 0, chars.len(), 0xffff_ffff_ffff_ffff)
}

impl CliScan {
    /// Fresh scan positioned after the program name.
    pub fn new() -> (scan: CliScan)
        ensures
            scan@ == (ScanModel { headless: false, seed: None, capture_path: None, next: 1 }),
    {
        CliScan { headless: false, seed: None, capture_path: None, next: 1 }
    }

    /// Consume the next flag (and its value) of `argv`.
    pub fn step(&mut self, argv: &[String]) -> (step: CliStep)
        ensures
            (final(self)@, step@) == step_spec(old(self)@, args_view(argv@)),
    {
        let ghost args = args_view(argv@);
        if self.next >= argv.len() {
            return CliStep::Done;
        }
        let arg = argv[self.next].as_str();
        assert(arg@ == args[self.next as int]);
        self.next = self.next + 1;
        let has_value = self.next < argv.len();
        if str_eq(arg, "--headless") {
            self.headless = true;
            CliStep::Handled
        } else if str_eq(arg, "--help") || str_eq(arg, "-h") {
            CliStep::Fail(text(usage()))
        } else if str_eq(arg, "--seed") {
            if !has_value {
                return fail_with("--seed needs a value");
            }
            let value = argv[self.next].as_str();
            assert(value@ == args[self.next as int]);
            self.next = self.next + 1;
            match parse_u64(value) {
                Some(n) => {
                    self.seed = Some(n);
                    CliStep::Handled
                },
                None => fail_quoting("--seed needs a u64 seed, got ", value),
            }
        } else if str_eq(arg, "--capture") {
            if !has_value {
                return fail_with("--capture needs a path");
            }
            let value = argv[self.next].as_str();
            assert(value@ == args[self.next as int]);
            self.next = self.next + 1;
            self.capture_path = Some(text(value));
            CliStep::Handled
        } else if str_eq(arg, "--view") {
            if !has_value {
                return fail_with("--view needs a preset");
            }
            let value = argv[self.next].as_str();
            assert(value@ == args[self.next as int]);
            self.next = self.next + 1;
            CliStep::View(text(value))
        } else if str_eq(arg, "--size") {
            if !has_value {
                return fail_with("--size needs a WxH value");
            }
            let value = argv[self.next].as_str();
            assert(value@ == args[self.next as int]);
            self.next = self.next + 1;
            CliStep::Size(text(value))
        } else {
            fail_quoting("unknown argument ", arg)
        }
    }

    /// End of the scan: the collected flags, or the GPU conflict error.
    pub fn finish(self) -> (parsed: Result<CliArgs, String>)
        ensures
            match (parsed, finish_spec(self@)) {
                (Ok(a), Ok(m)) => a.headless == m.0 && a.seed == m.1 && opt_view(a.capture_path)
                    == m.2,
                (Err(e), Err(m)) => e@ == m,
                _ => false,
            },
    {
        if self.capture_path.is_some() && self.headless {
            Err(with_usage("--capture needs a GPU; --headless is GPU-free"))
        } else {
            Ok(CliArgs { headless: self.headless, seed: self.seed, capture_path: self.capture_path })
        }
    }
}

/// Every failure the scan reports, and the final conflict check, ends with
/// the usage line, which starts with `usage:`.
pub proof fn failures_carry_usage(s: ScanModel, args: Seq<Seq<char>>)
    ensures
        step_spec(s, args).1 matches StepModel::Fail(m) ==> m.len() >= usage_text().len() && m.subrange(
            m.len() - usage_text().len(),
            m.len() as int,
        ) == usage_text(),
        finish_spec(s) matches Err(m) ==> m.len() >= usage_text().len() && m.subrange(
            m.len() - usage_text().len(),
            m.len() as int,
        ) == usage_text(),
        usage_text().take(6) == "usage:"@,
{
    reveal_strlit("usage:");
    reveal_strlit(
        "usage: game_debug [--headless] [--seed N] [--capture OUT.png --view inspector|slab|demo|vista --size WxH]",
    );
    assert forall|m: Seq<char>|
        #[trigger] usage_error(m).subrange(
            usage_error(m).len() - usage_text().len(),
            usage_error(m).len() as int,
        ) == usage_text() by {
        assert(usage_error(m).subrange(
            usage_error(m).len() - usage_text().len(),
            usage_error(m).len() as int,
        ) =~= usage_text());
    }
    let u = usage_text();
    assert(u.subrange(0, u.len() as int) =~= u);
}

/// `--seed` takes every 64-bit seed written in decimal.
pub proof fn seed_flag_takes_every_seed(s: ScanModel, args: Seq<Seq<char>>, seed: u64)
    requires
        s.next + 1 < args.len(),
        args[s.next as int] == "--seed"@,
        args[s.next + 1 as int] == decimal(seed as nat),
    ensures
        step_spec(s, args) == (ScanModel { seed: Some(seed), next: s.next + 2, ..s }, StepModel::Handled),
{
    reveal_strlit("--seed");
    reveal_strlit("--headless");
    reveal_strlit("--help");
    reveal_strlit("-h");
    decimal_parses_back(seed as nat, u64::MAX as nat);
    assert("--seed"@[2] != "--headless"@[2]);
    assert("--seed"@[2] != "--help"@[2]);
    assert("--seed"@[1] != "-h"@[1]);
    assert(parse_unsigned(args[s.next + 1 as int], u64::MAX as nat) == Some(seed as nat));
}

/// Flags do not interfere: a step changes only what its own flag records,
/// so a value recorded earlier survives every later flag but its own (a
/// `--seed` followed by `--headless` keeps the seed), and each step moves
/// past one argument, or two when the flag takes a value.
pub proof fn flags_keep_other_fields(s: ScanModel, args: Seq<Seq<char>>)
    requires
        s.next < args.len(),
    ensures
        ({
            let t = step_spec(s, args).0;
            let arg = args[s.next as int];
            &&& arg != "--headless"@ ==> t.headless == s.headless
            &&& arg == "--headless"@ ==> t.headless
            &&& arg != "--seed"@ ==> t.seed == s.seed
            &&& arg != "--capture"@ ==> t.capture_path == s.capture_path
            &&& t.next == s.next + 1 || t.next == s.next + 2
        }),
{
}

/// What each flag does to the scan: `--help`/`-h` stop it with the usage
/// text alone; `--capture P` records the path `P`; `--view V` and
/// `--size S` hand their value back untouched; a flag that needs a value
/// and has none fails; and an argument that is no flag fails, quoting it.
pub proof fn flag_outcomes(s: ScanModel, args: Seq<Seq<char>>)
    requires
        s.next < args.len(),
    ensures
        ({
            let arg = args[s.next as int];
            let has_value = s.next + 1 < args.len();
            let value = args[s.next + 1 as int];
            let t = step_spec(s, args).0;
            let step = step_spec(s, args).1;
            &&& (arg == "--help"@ || arg == "-h"@) ==> step == StepModel::Fail(usage_text())
            &&& arg == "--capture"@ && has_value ==> t.capture_path == Some(value) && step
                == StepModel::Handled
            &&& arg == "--view"@ && has_value ==> step == StepModel::View(value)
            &&& arg == "--size"@ && has_value ==> step == StepModel::Size(value)
            &&& (arg == "--seed"@ || arg == "--capture"@ || arg == "--view"@ || arg == "--size"@)
                && !has_value ==> step is Fail
            &&& (arg != "--headless"@ && arg != "--help"@ && arg != "-h"@ && arg != "--seed"@ && arg
                != "--capture"@ && arg != "--view"@ && arg != "--size"@) ==> step == StepModel::Fail(
                usage_error("unknown argument "@ + debug_str(arg)),
            )
        }),
{
    reveal_strlit("--headless");
    reveal_strlit("--help");
    reveal_strlit("-h");
    reveal_strlit("--seed");
    reveal_strlit("--capture");
    reveal_strlit("--view");
    reveal_strlit("--size");
    assert("--help"@[4] != "--headless"@[4]);
    assert("-h"@[1] != "--headless"@[1]);
    assert("--capture"@[2] != "--headless"@[2]);
    assert("--capture"@[2] != "--help"@[2]);
    assert("--capture"@[1] != "-h"@[1]);
    assert("--capture"@[2] != "--seed"@[2]);
    assert("--view"@[2] != "--headless"@[2]);
    assert("--view"@[2] != "--help"@[2]);
    assert("--view"@[1] != "-h"@[1]);
    assert("--view"@[2] != "--seed"@[2]);
    assert("--view"@[2] != "--capture"@[2]);
    assert("--size"@[2] != "--headless"@[2]);
    assert("--size"@[2] != "--help"@[2]);
    assert("--size"@[1] != "-h"@[1]);
    assert("--size"@[3] != "--seed"@[3]);
    assert("--size"@[2] != "--capture"@[2]);
    assert("--size"@[2] != "--view"@[2]);
    assert("--seed"@[2] != "--headless"@[2]);
    assert("--seed"@[2] != "--help"@[2]);
    assert("--seed"@[1] != "-h"@[1]);
}

/// Every step either ends the scan (`Done`, `Fail`) or moves past at least
/// one argument, so driving the scan always terminates.
pub proof fn scan_progresses(s: ScanModel, args: Seq<Seq<char>>)
    ensures
        match step_spec(s, args).1 {
            StepModel::Done => step_spec(s, args).0 == s && s.next >= args.len(),
            StepModel::Fail(_) => true,
            _ => step_spec(s, args).0.next > s.next,
        },
{
}

} // verus!
