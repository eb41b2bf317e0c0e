//! Command-line options: the option grammar, durations and modes, and the
//! configuration they build.
use vstd::prelude::*;
use crate::number::{all_digits, decimal_digits, decimal_value, is_digit, lemma_decimal_digits, parse_i32, parse_u64, spec_parse_i32, spec_parse_u64};
use crate::text::{ascii_lowercase, find_char, first_index, str_eq, to_ascii_lower, trim, trim_str};

verus! {

/// The usage text.
pub const HELP: &'static str = "\
mouse-jiggler \u{2014} keep the cursor (and your session) alive

USAGE:
    mouse-jiggler [OPTIONS]

OPTIONS:
  -m, --mode <MODE>          Pattern: pixel | circle | random   [default: pixel]
  -i, --interval <DURATION>  Time between jiggles               [default: 30s]
  -d, --distance <PIXELS>    Movement amplitude in pixels       [default: 1]
      --max-runtime <DUR>    Stop after this total duration     [default: unlimited]
      --once                 Jiggle once and exit
  -q, --quiet                Suppress output
  -v, --verbose              Per-iteration logging
  -h, --help                 Print help
  -V, --version              Print version

DURATION format: integer with optional suffix s (seconds, default), m (minutes), h (hours).
                 e.g. 30s, 5m, 2h, 90 (= 90s)

MODES:
  pixel    Move <distance> pixels right then back. Imperceptible at distance=1.
  circle   Trace a small circle of radius <distance> over 8 steps and return.
  random   Random offset in [-distance,+distance]^2, then return to origin.

EXAMPLES:
  mouse-jiggler                              # default: pixel mode every 30s
  mouse-jiggler -m circle -d 3 -i 1m         # 3px circle every minute
  mouse-jiggler --once -m random -d 5        # one random nudge then exit
  mouse-jiggler --max-runtime 8h             # auto-stop after 8 hours
";

/// The movement pattern of one jiggle.
#[derive(Debug, Clone, Copy, PartialEq, Eq, Structural)]
pub enum Mode {
    Pixel,
    Circle,
    Random,
}

/// What a run does. Durations are whole seconds.
#[derive(Debug, Clone, Copy, PartialEq, Eq, Structural)]
pub struct Config {
    pub mode: Mode,
    /// Seconds between jiggles.
    pub interval: u64,
    pub distance: i32,
    /// Seconds after which the run stops; `None` runs without limit.
    pub max_runtime: Option<u64>,
    pub once: bool,
    pub verbose: bool,
    pub quiet: bool,
}

/// What the command line asks for.
#[derive(Debug, Clone, Copy, PartialEq, Eq, Structural)]
pub enum Action {
    Run(Config),
    Help,
    Version,
}

/// The configuration before any option: pixel mode every 30 s, distance 1,
/// no time limit, repeating, normal output.
pub open spec fn default_config() -> Config {
    Config {
        mode: Mode::Pixel,
        interval: 30,
        distance: 1,
        max_runtime: None,
        once: false,
        verbose: false,
        quiet: false,
    }
}

/// The mode that a `--mode` value names, compared without ASCII case, or the
/// message that rejects it.
pub open spec fn spec_parse_mode(s: Seq<char>) -> Result<Mode, Seq<char>> {
    let lower = to_ascii_lower(s);
    if lower == "pixel"@ || lower == "p"@ {
        Ok(Mode::Pixel)
    } else if lower == "circle"@ || lower == "c"@ {
        Ok(Mode::Circle)
    } else if lower == "random"@ || lower == "r"@ {
        Ok(Mode::Random)
    } else {
        Err("unknown mode: "@ + lower + " (valid: pixel, circle, random)"@)
    }
}

/// Seconds per unit of a duration suffix: `s`, `m` or `h`.
pub open spec fn suffix_seconds(c: char) -> Option<u64> {
    if c == 's' {
        Some(1)
    } else if c == 'm' {
        Some(60)
    } else if c == 'h' {
        Some(3600)
    } else {
        None
    }
}

/// `a * b`, or `u64::MAX` where the product does not fit.
pub open spec fn saturating_product(a: u64, b: u64) -> u64 {
    if a * b > u64::MAX {
        u64::MAX
    } else {
        (a * b) as u64
    }
}

/// The seconds that a duration names, or the message that rejects it. The
/// text, trimmed of whitespace, is an integer (as `u64` parsing reads it)
/// followed by an optional unit `s`, `m` or `h`; no unit means seconds. The
/// count is multiplied by the unit's seconds, saturating at `u64::MAX`.
pub open spec fn spec_parse_duration(s: Seq<char>) -> Result<u64, Seq<char>> {
    let t = trim(s);
    if t.len() == 0 {
        Err("empty duration"@)
    } else if is_digit(t.last()) || suffix_seconds(t.last()) is Some {
        let (digits, unit) = if is_digit(t.last()) {
            (t, 1u64)
        } else {
            (t.drop_last(), suffix_seconds(t.last())->0)
        };
        match spec_parse_u64(digits) {
            Some(n) => Ok(saturating_product(n, unit)),
            None => Err("bad duration: '"@ + t + "'"@),
        }
    } else {
        Err("bad duration suffix in '"@ + t + "' (use s/m/h)"@)
    }
}

/// An argument split at its first `=`: the key before it and the inline
/// value after it, or the whole argument and no value.
pub open spec fn split_arg(raw: Seq<char>) -> (Seq<char>, Option<Seq<char>>) {
    match first_index(raw, '=') {
        Some(eq) => (raw.take(eq), Some(raw.skip(eq + 1))),
        None => (raw, None),
    }
}

/// The value of an option (its inline value, else the first of the
/// arguments `after` it), together with the arguments left to read.
pub open spec fn take_value(after: Seq<Seq<char>>, inline: Option<Seq<char>>) -> Option<
    (Seq<char>, Seq<Seq<char>>),
> {
    match inline {
        Some(v) => Some((v, after)),
        None => if after.len() > 0 {
            Some((after[0], after.drop_first()))
        } else {
            None
        },
    }
}

/// The outcome once every argument is read: a run, unless `--quiet` and
/// `--verbose` were both given.
pub open spec fn finish(cfg: Config) -> Result<Action, Seq<char>> {
    if cfg.quiet && cfg.verbose {
        Err("--quiet and --verbose are mutually exclusive"@)
    } else {
        Ok(Action::Run(cfg))
    }
}

/// The outcome of reading the arguments `args`, with `cfg` built from the
/// arguments before them.
pub open spec fn parse_args(args: Seq<Seq<char>>, cfg: Config) -> Result<Action, Seq<char>>
    decreases args.len(),
{
    if args.len() == 0 {
        finish(cfg)
    } else {
        let (key, inline) = split_arg(args[0]);
        let after = args.drop_first();
        let missing = Err(key + " requires a value"@);
        if key == "-h"@ || key == "--help"@ {
            Ok(Action::Help)
        } else if key == "-V"@ || key == "--version"@ {
            Ok(Action::Version)
        } else if key == "-m"@ || key == "--mode"@ {
            match take_value(after, inline) {
                None => missing,
                Some((v, more)) => match spec_parse_mode(v) {
                    Ok(m) => parse_args(more, Config { mode: m, ..cfg }),
                    Err(e) => Err(e),
                },
            }
        } else if key == "-i"@ || key == "--interval"@ {
            match take_value(after, inline) {
                None => missing,
                Some((v, more)) => match spec_parse_duration(v) {
                    Ok(d) => parse_args(more, Config { interval: d, ..cfg }),
                    Err(e) => Err(e),
                },
            }
        } else if key == "-d"@ || key == "--distance"@ {
            match take_value(after, inline) {
                None => missing,
                Some((v, more)) => match spec_parse_i32(v) {
                    None => Err("--distance: not an integer: "@ + v),
                    Some(d) => if d < 1 {
                        Err("--distance must be >= 1"@)
                    } else {
                        parse_args(more, Config { distance: d, ..cfg })
                    },
                },
            }
        } else if key == "--max-runtime"@ {
            match take_value(after, inline) {
                None => missing,
                Some((v, more)) => match spec_parse_duration(v) {
                    Ok(d) => parse_args(more, Config { max_runtime: Some(d), ..cfg }),
                    Err(e) => Err(e),
                },
            }
        } else if key == "--once"@ {
            parse_args(after, Config { once: true, ..cfg })
        } else if key == "-q"@ || key == "--quiet"@ {
            parse_args(after, Config { quiet: true, ..cfg })
        } else if key == "-v"@ || key == "--verbose"@ {
            parse_args(after, Config { verbose: true, ..cfg })
        } else {
            Err("unknown argument: "@ + key)
        }
    }
}

/// The outcome of a whole command line (the arguments after the program name).
pub open spec fn spec_parse(args: Seq<Seq<char>>) -> Result<Action, Seq<char>> {
    parse_args(args, default_config())
}

/// A string that starts and ends without whitespace is its own trim.
proof fn lemma_trim_unchanged(s: Seq<char>)
    requires
        s.len() > 0,
        !crate::text::is_white_space(s[0]),
        !crate::text::is_white_space(s.last()),
    ensures
        trim(s) == s,
{
}

/// A duration count without a unit means seconds (`90` is `90s`); the unit
/// `m` multiplies it by 60 and `h` by 3600, saturating at `u64::MAX`.
pub proof fn law_duration_units(digits: Seq<char>)
    requires
        all_digits(digits),
        decimal_value(digits) <= u64::MAX,
    ensures
        spec_parse_duration(digits) == Ok::<u64, Seq<char>>(decimal_value(digits) as u64),
        spec_parse_duration(digits.push('s')) == Ok::<u64, Seq<char>>(decimal_value(digits) as u64),
        spec_parse_duration(digits.push('m')) == Ok::<u64, Seq<char>>(
            saturating_product(decimal_value(digits) as u64, 60),
        ),
        spec_parse_duration(digits.push('h')) == Ok::<u64, Seq<char>>(
            saturating_product(decimal_value(digits) as u64, 3600),
        ),
{
    assert(is_digit(digits[0]));
    assert(is_digit(digits.last()));
    lemma_trim_unchanged(digits);
    let unit_chars = seq!['s', 'm', 'h'];
    assert forall|k: int| 0 <= k < 3 implies spec_parse_duration(digits.push(#[trigger] unit_chars[k]))
        == Ok::<u64, Seq<char>>(saturating_product(decimal_value(digits) as u64, suffix_seconds(unit_chars[k])->0)) by {
        let t = digits.push(unit_chars[k]);
        assert(t[0] == digits[0]);
        assert(t.last() == unit_chars[k]);
        lemma_trim_unchanged(t);
        assert(t.drop_last() =~= digits);
    }
    assert(unit_chars[0] == 's');
    assert(unit_chars[1] == 'm');
    assert(unit_chars[2] == 'h');
}

/// A saturating product is the product where it fits in a `u64`, and
/// `u64::MAX` where it does not.
pub proof fn law_saturating_product(a: u64, b: u64)
    ensures
        a * b <= u64::MAX ==> saturating_product(a, b) == a * b,
        a * b > u64::MAX ==> saturating_product(a, b) == u64::MAX,
{
}

/// A saturating product grows with its first factor.
proof fn lemma_saturating_monotone(a: u64, b: u64, k: u64)
    requires
        a <= b,
    ensures
        saturating_product(a, k) <= saturating_product(b, k),
{
    assert(a * k <= b * k) by (nonlinear_arith)
        requires
            a <= b,
    {
    }
}

/// Durations grow with their count: for counts `a <= b` written in decimal,
/// with no unit or with the same unit `s`, `m` or `h`, `a` names no more
/// seconds than `b`.
pub proof fn law_duration_monotone_in_count(a: u64, b: u64)
    requires
        a <= b,
    ensures
        spec_parse_duration(decimal_digits(a as nat)) matches Ok(x) && spec_parse_duration(
            decimal_digits(b as nat),
        ) matches Ok(y) && x <= y,
        spec_parse_duration(decimal_digits(a as nat).push('s')) matches Ok(x)
            && spec_parse_duration(decimal_digits(b as nat).push('s')) matches Ok(y) && x <= y,
        spec_parse_duration(decimal_digits(a as nat).push('m')) matches Ok(x)
            && spec_parse_duration(decimal_digits(b as nat).push('m')) matches Ok(y) && x <= y,
        spec_parse_duration(decimal_digits(a as nat).push('h')) matches Ok(x)
            && spec_parse_duration(decimal_digits(b as nat).push('h')) matches Ok(y) && x <= y,
{
    lemma_decimal_digits(a as nat);
    lemma_decimal_digits(b as nat);
    law_duration_units(decimal_digits(a as nat));
    law_duration_units(decimal_digits(b as nat));
    lemma_saturating_monotone(a, b, 60);
    lemma_saturating_monotone(a, b, 3600);
}

/// For one count, seconds name no more time than minutes, and minutes no
/// more than hours.
pub proof fn law_duration_unit_order(n: u64)
    ensures
        spec_parse_duration(decimal_digits(n as nat).push('s')) matches Ok(s)
            && spec_parse_duration(decimal_digits(n as nat).push('m')) matches Ok(m)
            && spec_parse_duration(decimal_digits(n as nat).push('h')) matches Ok(h) && s <= m
            && m <= h,
{
    lemma_decimal_digits(n as nat);
    law_duration_units(decimal_digits(n as nat));
    assert(n * 1 <= n * 60 <= n * 3600) by (nonlinear_arith);
}

/// Whitespace around a duration does not matter; a duration of only
/// whitespace is refused as empty, and one whose last character is neither
/// a digit nor `s`, `m` or `h` is refused for its unit.
pub proof fn law_duration_whitespace_and_units(s: Seq<char>)
    ensures
        spec_parse_duration(trim(s)) == spec_parse_duration(s),
        trim(s).len() == 0 ==> spec_parse_duration(s) == Err::<u64, Seq<char>>("empty duration"@),
        trim(s).len() > 0 && !is_digit(trim(s).last()) && trim(s).last() != 's' && trim(s).last()
            != 'm' && trim(s).last() != 'h' ==> spec_parse_duration(s) == Err::<u64, Seq<char>>(
            "bad duration suffix in '"@ + trim(s) + "' (use s/m/h)"@,
        ),
{
    crate::text::law_trim_idempotent(s);
}

/// The options that take a value.
pub open spec fn takes_value(key: Seq<char>) -> bool {
    ||| key == "-m"@
    ||| key == "--mode"@
    ||| key == "-i"@
    ||| key == "--interval"@
    ||| key == "-d"@
    ||| key == "--distance"@
    ||| key == "--max-runtime"@
}

/// The options that take no value.
pub open spec fn is_flag(key: Seq<char>) -> bool {
    ||| key == "-h"@
    ||| key == "--help"@
    ||| key == "-V"@
    ||| key == "--version"@
    ||| key == "--once"@
    ||| key == "-q"@
    ||| key == "--quiet"@
    ||| key == "-v"@
    ||| key == "--verbose"@
}

/// The characters of each option name.
proof fn lemma_option_names()
    ensures
        "-m"@ == seq!['-', 'm'],
        "--mode"@ == seq!['-', '-', 'm', 'o', 'd', 'e'],
        "-i"@ == seq!['-', 'i'],
        "--interval"@ == seq!['-', '-', 'i', 'n', 't', 'e', 'r', 'v', 'a', 'l'],
        "-d"@ == seq!['-', 'd'],
        "--distance"@ == seq!['-', '-', 'd', 'i', 's', 't', 'a', 'n', 'c', 'e'],
        "--max-runtime"@ == seq!['-', '-', 'm', 'a', 'x', '-', 'r', 'u', 'n', 't', 'i', 'm', 'e'],
        "-h"@ == seq!['-', 'h'],
        "--help"@ == seq!['-', '-', 'h', 'e', 'l', 'p'],
        "-V"@ == seq!['-', 'V'],
        "--version"@ == seq!['-', '-', 'v', 'e', 'r', 's', 'i', 'o', 'n'],
        "--once"@ == seq!['-', '-', 'o', 'n', 'c', 'e'],
        "-q"@ == seq!['-', 'q'],
        "--quiet"@ == seq!['-', '-', 'q', 'u', 'i', 'e', 't'],
        "-v"@ == seq!['-', 'v'],
        "--verbose"@ == seq!['-', '-', 'v', 'e', 'r', 'b', 'o', 's', 'e'],
{
    reveal_strlit("-m");
    reveal_strlit("--mode");
    reveal_strlit("-i");
    reveal_strlit("--interval");
    reveal_strlit("-d");
    reveal_strlit("--distance");
    reveal_strlit("--max-runtime");
    reveal_strlit("-h");
    reveal_strlit("--help");
    reveal_strlit("-V");
    reveal_strlit("--version");
    reveal_strlit("--once");
    reveal_strlit("-q");
    reveal_strlit("--quiet");
    reveal_strlit("-v");
    reveal_strlit("--verbose");
}

/// No option name holds an `=`.
proof fn lemma_option_has_no_equals(key: Seq<char>)
    requires
        takes_value(key) || is_flag(key),
    ensures
        forall|i: int| 0 <= i < key.len() ==> key[i] != '=',
        split_arg(key) == (key, None::<Seq<char>>),
{
    lemma_option_names();
    assert forall|i: int| !crate::text::is_first_index(key, '=', i) by {
        if 0 <= i < key.len() {
            assert(key[i] != '=');
        }
    }
}

/// `-h`/`--help` first on the command line asks for help, whatever follows.
/// Likewise `-V`/`--version` asks for the version.
pub proof fn law_help_and_version_first(key: Seq<char>, rest: Seq<Seq<char>>)
    requires
        key == "-h"@ || key == "--help"@ || key == "-V"@ || key == "--version"@,
    ensures
        key == "-h"@ || key == "--help"@ ==> spec_parse(seq![key] + rest) == Ok::<Action, Seq<char>>(Action::Help),
        key == "-V"@ || key == "--version"@ ==> spec_parse(seq![key] + rest) == Ok::<Action, Seq<char>>(Action::Version),
{
    lemma_option_names();
    lemma_option_has_no_equals(key);
    assert((seq![key] + rest)[0] == key);
}

/// What `-h`/`--help` (help) or `-V`/`--version` (the version) asks for.
pub open spec fn stop_request(key: Seq<char>) -> Action {
    if key == "-h"@ || key == "--help"@ {
        Action::Help
    } else {
        Action::Version
    }
}

/// Reading `-h`/`--help` or `-V`/`--version`, with any configuration and
/// whatever follows, asks for help or the version.
proof fn lemma_stop_option_here(key: Seq<char>, rest: Seq<Seq<char>>, cfg: Config)
    requires
        key == "-h"@ || key == "--help"@ || key == "-V"@ || key == "--version"@,
    ensures
        parse_args(seq![key] + rest, cfg) == Ok::<Action, Seq<char>>(stop_request(key)),
{
    lemma_option_names();
    lemma_option_has_no_equals(key);
    assert((seq![key] + rest)[0] == key);
}

/// The first option of arguments that read through to a run: reading it
/// leaves `more` to read with configuration `c`, whatever arguments `tail`
/// follow.
proof fn lemma_first_step(pre: Seq<Seq<char>>, tail: Seq<Seq<char>>, cfg: Config) -> (r: (
    Seq<Seq<char>>,
    Config,
))
    requires
        pre.len() > 0,
        parse_args(pre, cfg) matches Ok(Action::Run(_)),
    ensures
        r.0.len() < pre.len(),
        parse_args(pre, cfg) == parse_args(r.0, r.1),
        parse_args(pre + tail, cfg) == parse_args(r.0 + tail, r.1),
{
    lemma_option_names();
    let a = pre + tail;
    let after = pre.drop_first();
    let k = split_arg(pre[0]).0;
    let inline = split_arg(pre[0]).1;
    assert(a[0] == pre[0]);
    assert(a.drop_first() =~= after + tail);
    if k == "--once"@ {
        (after, Config { once: true, ..cfg })
    } else if k == "-q"@ || k == "--quiet"@ {
        (after, Config { quiet: true, ..cfg })
    } else if k == "-v"@ || k == "--verbose"@ {
        (after, Config { verbose: true, ..cfg })
    } else {
        let (v, more) = take_value(after, inline)->0;
        if inline is None {
            assert((after + tail)[0] == after[0]);
            assert((after + tail).drop_first() =~= more + tail);
        }
        assert(take_value(after + tail, inline) == Some((v, more + tail)));
        if k == "-m"@ || k == "--mode"@ {
            (more, Config { mode: spec_parse_mode(v)->Ok_0, ..cfg })
        } else if k == "-i"@ || k == "--interval"@ {
            (more, Config { interval: spec_parse_duration(v)->Ok_0, ..cfg })
        } else if k == "-d"@ || k == "--distance"@ {
            (more, Config { distance: spec_parse_i32(v)->0, ..cfg })
        } else {
            (more, Config { max_runtime: Some(spec_parse_duration(v)->Ok_0), ..cfg })
        }
    }
}

/// Behind arguments that read through to a run, `-h`/`--help` or
/// `-V`/`--version` asks for help or the version.
proof fn lemma_stop_option_after(
    pre: Seq<Seq<char>>,
    key: Seq<char>,
    rest: Seq<Seq<char>>,
    cfg: Config,
)
    requires
        key == "-h"@ || key == "--help"@ || key == "-V"@ || key == "--version"@,
        parse_args(pre, cfg) matches Ok(Action::Run(_)),
    ensures
        parse_args(pre + seq![key] + rest, cfg) == Ok::<Action, Seq<char>>(stop_request(key)),
    decreases pre.len(),
{
    let tail = seq![key] + rest;
    assert(pre + seq![key] + rest =~= pre + tail);
    if pre.len() == 0 {
        assert(pre + tail =~= tail);
        lemma_stop_option_here(key, rest, cfg);
    } else {
        let (more, c) = lemma_first_step(pre, tail, cfg);
        lemma_stop_option_after(more, key, rest, c);
        assert(more + seq![key] + rest =~= more + tail);
    }
}

/// `-h`/`--help` asks for help, and `-V`/`--version` for the version,
/// wherever it stands, once the arguments before it are well formed: for
/// any arguments `pre` that by themselves read through to a run, and any
/// arguments after it.
pub proof fn law_help_and_version_anywhere(
    pre: Seq<Seq<char>>,
    key: Seq<char>,
    rest: Seq<Seq<char>>,
)
    requires
        key == "-h"@ || key == "--help"@ || key == "-V"@ || key == "--version"@,
        spec_parse(pre) matches Ok(Action::Run(_)),
    ensures
        key == "-h"@ || key == "--help"@ ==> spec_parse(pre + seq![key] + rest) == Ok::<
            Action,
            Seq<char>,
        >(Action::Help),
        key == "-V"@ || key == "--version"@ ==> spec_parse(pre + seq![key] + rest) == Ok::<
            Action,
            Seq<char>,
        >(Action::Version),
{
    lemma_option_names();
    lemma_stop_option_after(pre, key, rest, default_config());
}

/// A `--mode` value names a mode exactly when, in ASCII lower case, it is
/// `pixel` or `p` (pixel), `circle` or `c` (circle), or `random` or `r`
/// (random); any other value is refused with a message that shows it in
/// lower case.
pub proof fn law_mode_names(s: Seq<char>)
    ensures
        to_ascii_lower(s) == "pixel"@ || to_ascii_lower(s) == "p"@ <==> spec_parse_mode(s) == Ok::<
            Mode,
            Seq<char>,
        >(Mode::Pixel),
        to_ascii_lower(s) == "circle"@ || to_ascii_lower(s) == "c"@ <==> spec_parse_mode(s) == Ok::<
            Mode,
            Seq<char>,
        >(Mode::Circle),
        to_ascii_lower(s) == "random"@ || to_ascii_lower(s) == "r"@ <==> spec_parse_mode(s) == Ok::<
            Mode,
            Seq<char>,
        >(Mode::Random),
        !(to_ascii_lower(s) == "pixel"@ || to_ascii_lower(s) == "p"@ || to_ascii_lower(s)
            == "circle"@ || to_ascii_lower(s) == "c"@ || to_ascii_lower(s) == "random"@
            || to_ascii_lower(s) == "r"@) <==> spec_parse_mode(s) == Err::<Mode, Seq<char>>(
            "unknown mode: "@ + to_ascii_lower(s) + " (valid: pixel, circle, random)"@,
        ),
{
    reveal_strlit("pixel");
    reveal_strlit("p");
    reveal_strlit("circle");
    reveal_strlit("c");
    reveal_strlit("random");
    reveal_strlit("r");
    let l = to_ascii_lower(s);
    if l.len() > 0 {
        if l[0] == 'p' {
            assert(l != "circle"@ && l != "c"@ && l != "random"@ && l != "r"@) by {
                assert("circle"@[0] == 'c' && "c"@[0] == 'c' && "random"@[0] == 'r' && "r"@[0] == 'r');
            }
        } else if l[0] == 'c' {
            assert(l != "pixel"@ && l != "p"@ && l != "random"@ && l != "r"@) by {
                assert("pixel"@[0] == 'p' && "p"@[0] == 'p' && "random"@[0] == 'r' && "r"@[0] == 'r');
            }
        } else {
            assert(l != "pixel"@ && l != "p"@ && l != "circle"@ && l != "c"@) by {
                assert("pixel"@[0] == 'p' && "p"@[0] == 'p' && "circle"@[0] == 'c' && "c"@[0] == 'c');
            }
        }
    }
}

/// A command line is read from the defaults: pixel mode, a 30 s interval,
/// distance 1, no time limit, repeating, normal output.
pub proof fn law_defaults(args: Seq<Seq<char>>)
    ensures
        spec_parse(args) == parse_args(
            args,
            Config {
                mode: Mode::Pixel,
                interval: 30,
                distance: 1,
                max_runtime: None,
                once: false,
                verbose: false,
                quiet: false,
            },
        ),
{
}

/// After the last argument, the configuration read so far is run, unless it
/// is both quiet and verbose.
pub proof fn law_end_of_arguments(cfg: Config)
    ensures
        !(cfg.quiet && cfg.verbose) ==> parse_args(Seq::empty(), cfg) == Ok::<Action, Seq<char>>(
            Action::Run(cfg),
        ),
        cfg.quiet && cfg.verbose ==> parse_args(Seq::empty(), cfg) == Err::<Action, Seq<char>>(
            "--quiet and --verbose are mutually exclusive"@,
        ),
{
}

/// Each option with a value sets its own field from the value, and reading
/// goes on with the arguments after the value; a malformed value is refused
/// with the message for it. A later option of the same kind so overrides
/// an earlier one.
pub proof fn law_value_options(key: Seq<char>, v: Seq<char>, rest: Seq<Seq<char>>, cfg: Config)
    requires
        takes_value(key),
    ensures
        (key == "-m"@ || key == "--mode"@) ==> (parse_args(seq![key, v] + rest, cfg) == match spec_parse_mode(v) {
            Ok(m) => parse_args(rest, Config { mode: m, ..cfg }),
            Err(e) => Err(e),
        }),
        (key == "-i"@ || key == "--interval"@) ==> (parse_args(seq![key, v] + rest, cfg) == match spec_parse_duration(v) {
            Ok(d) => parse_args(rest, Config { interval: d, ..cfg }),
            Err(e) => Err(e),
        }),
        (key == "-d"@ || key == "--distance"@) ==> (parse_args(seq![key, v] + rest, cfg) == match spec_parse_i32(v) {
            Some(n) => if n >= 1 {
                parse_args(rest, Config { distance: n, ..cfg })
            } else {
                Err("--distance must be >= 1"@)
            },
            None => Err("--distance: not an integer: "@ + v),
        }),
        key == "--max-runtime"@ ==> (parse_args(seq![key, v] + rest, cfg) == match spec_parse_duration(v) {
            Ok(d) => parse_args(rest, Config { max_runtime: Some(d), ..cfg }),
            Err(e) => Err(e),
        }),
        parse_args(seq![key], cfg) == Err::<Action, Seq<char>>(key + " requires a value"@),
{
    lemma_option_names();
    lemma_option_has_no_equals(key);
    let a = seq![key, v] + rest;
    assert(a[0] == key);
    assert(a.drop_first()[0] == v);
    assert(a.drop_first().drop_first() =~= rest);
    assert(seq![key][0] == key);
    assert(seq![key].drop_first() =~= Seq::<Seq<char>>::empty());
}

/// Each option without a value sets its own flag and reading goes on.
pub proof fn law_flag_options(key: Seq<char>, rest: Seq<Seq<char>>, cfg: Config)
    requires
        key == "--once"@ || key == "-q"@ || key == "--quiet"@ || key == "-v"@ || key == "--verbose"@,
    ensures
        key == "--once"@ ==> parse_args(seq![key] + rest, cfg) == parse_args(rest, (Config { once: true, ..cfg })),
        (key == "-q"@ || key == "--quiet"@) ==> parse_args(seq![key] + rest, cfg) == parse_args(rest, (Config { quiet: true, ..cfg })),
        (key == "-v"@ || key == "--verbose"@) ==> parse_args(seq![key] + rest, cfg) == parse_args(rest, (Config { verbose: true, ..cfg })),
{
    lemma_option_names();
    lemma_option_has_no_equals(key);
    let a = seq![key] + rest;
    assert(a[0] == key);
    assert(a.drop_first() =~= rest);
}

/// An argument whose key (the part before any `=`) names no option is
/// refused, whatever follows.
pub proof fn law_unknown_argument(raw: Seq<char>, rest: Seq<Seq<char>>, cfg: Config)
    requires
        !takes_value(split_arg(raw).0),
        !is_flag(split_arg(raw).0),
    ensures
        parse_args(seq![raw] + rest, cfg) == Err::<Action, Seq<char>>(
            "unknown argument: "@ + split_arg(raw).0,
        ),
{
    assert((seq![raw] + rest)[0] == raw);
}

/// An option's value may stand inline (`--mode=circle`) or as the next
/// argument (`--mode circle`), with the same outcome.
pub proof fn law_inline_value(key: Seq<char>, value: Seq<char>, rest: Seq<Seq<char>>)
    requires
        takes_value(key),
    ensures
        spec_parse(seq![key + "="@ + value] + rest) == spec_parse(seq![key, value] + rest),
{
    reveal_strlit("=");
    lemma_option_has_no_equals(key);
    let raw = key + "="@ + value;
    let n = key.len() as int;
    assert(raw[n] == '=');
    assert forall|j: int| 0 <= j < n implies raw[j] != '=' by {
        assert(raw[j] == key[j]);
    }
    assert(crate::text::is_first_index(raw, '=', n));
    let k = choose|k: int| crate::text::is_first_index(raw, '=', k);
    crate::text::lemma_first_index_unique(raw, '=', n, k);
    assert(raw.take(n) =~= key);
    assert(raw.skip(n + 1) =~= value);
    let a = seq![raw] + rest;
    let b = seq![key, value] + rest;
    assert(a[0] == raw);
    assert(b[0] == key);
    assert(a.drop_first() =~= rest);
    assert(b.drop_first()[0] == value);
    assert(b.drop_first().drop_first() =~= rest);
}

/// The short and long names of an option that takes a value mean the same.
pub proof fn law_short_and_long_value_names(
    short: Seq<char>,
    long: Seq<char>,
    value: Seq<char>,
    rest: Seq<Seq<char>>,
)
    requires
        (short == "-m"@ && long == "--mode"@) || (short == "-i"@ && long == "--interval"@) || (
        short == "-d"@ && long == "--distance"@),
    ensures
        spec_parse(seq![short, value] + rest) == spec_parse(seq![long, value] + rest),
{
    lemma_option_names();
    lemma_option_has_no_equals(short);
    lemma_option_has_no_equals(long);
    let a = seq![short, value] + rest;
    let b = seq![long, value] + rest;
    assert(a[0] == short);
    assert(b[0] == long);
    assert(a.drop_first() =~= b.drop_first());
    assert(a.drop_first()[0] == value);
    assert(a.drop_first().drop_first() =~= rest);
}

/// The short and long names of an option without a value mean the same.
pub proof fn law_short_and_long_flag_names(short: Seq<char>, long: Seq<char>, rest: Seq<Seq<char>>)
    requires
        (short == "-q"@ && long == "--quiet"@) || (short == "-v"@ && long == "--verbose"@) || (
        short == "-h"@ && long == "--help"@) || (short == "-V"@ && long == "--version"@),
    ensures
        spec_parse(seq![short] + rest) == spec_parse(seq![long] + rest),
{
    lemma_option_names();
    lemma_option_has_no_equals(short);
    lemma_option_has_no_equals(long);
    let a = seq![short] + rest;
    let b = seq![long] + rest;
    assert(a[0] == short);
    assert(b[0] == long);
    assert(a.drop_first() =~= rest);
    assert(b.drop_first() =~= rest);
}

/// The characters of each argument.
pub open spec fn args_view(args: Seq<String>) -> Seq<Seq<char>> {
    args.map_values(|s: String| s@)
}

/// A result with its error message taken as characters.
pub open spec fn result_view<T>(r: Result<T, String>) -> Result<T, Seq<char>> {
    match r {
        Ok(v) => Ok(v),
        Err(e) => Err(e@),
    }
}

/// Reads a `--mode` value: `pixel`, `circle` or `random`, or its first
/// letter, in any ASCII case.
pub fn parse_mode(s: &str) -> (r: Result<Mode, String>)
    ensures
        result_view(r) == spec_parse_mode(s@),
{
    let lower = ascii_lowercase(s);
    let l = lower.as_str();
    if str_eq(l, "pixel") || str_eq(l, "p") {
        Ok(Mode::Pixel)
    } else if str_eq(l, "circle") || str_eq(l, "c") {
        Ok(Mode::Circle)
    } else if str_eq(l, "random") || str_eq(l, "r") {
        Ok(Mode::Random)
    } else {
        Err(String::from_str("unknown mode: ").concat(l).concat(" (valid: pixel, circle, random)"))
    }
}

/// Reads a duration (`30`, `30s`, `5m`, `2h`) as a number of seconds.
pub fn parse_duration(s: &str) -> (r: Result<u64, String>)
    ensures
        result_view(r) == spec_parse_duration(s@),
{
    let t = trim_str(s);
    let len = t.unicode_len();
    if len == 0 {
        return Err(String::from_str("empty duration"));
    }
    let last = t.get_char(len - 1);
    let digits: &str;
    let unit: u64;
    if last == 's' {
        digits = t.substring_char(0, len - 1);
        unit = 1;
    } else if last == 'm' {
        digits = t.substring_char(0, len - 1);
        unit = 60;
    } else if last == 'h' {
        digits = t.substring_char(0, len - 1);
        unit = 3600;
    } else if '0' <= last && last <= '9' {
        digits = t;
        unit = 1;
    } else {
        return Err(String::from_str("bad duration suffix in '").concat(t).concat("' (use s/m/h)"));
    }
    assert(t@.subrange(0, len - 1) =~= t@.drop_last());
    match parse_u64(digits) {
        Some(n) => match n.checked_mul(unit) {
            Some(p) => Ok(p),
            None => Ok(u64::MAX),
        },
        None => Err(String::from_str("bad duration: '").concat(t).concat("'")),
    }
}

/// An optional string taken as characters.
pub open spec fn opt_view(o: Option<&str>) -> Option<Seq<char>> {
    match o {
        Some(v) => Some(v@),
        None => None,
    }
}

/// Splits an argument at its first `=` into key and inline value.
fn split_at_equals(raw: &str) -> (r: (&str, Option<&str>))
    ensures
        r.0@ == split_arg(raw@).0,
        opt_view(r.1) == split_arg(raw@).1,
{
    let len = raw.unicode_len();
    match find_char(raw, '=') {
        Some(eq) => (raw.substring_char(0, eq), Some(raw.substring_char(eq + 1, len))),
        None => (raw, None),
    }
}

/// The value of an option: its inline value, else the argument at `next`.
/// Also gives the position where reading goes on.
fn next_value<'a>(args: &'a Vec<String>, next: usize, inline: Option<&'a str>) -> (r: Option<
    (&'a str, usize),
>)
    requires
        next <= args.len(),
    ensures
        match r {
            Some((v, j)) => {
                &&& next <= j <= args.len()
                &&& take_value(args_view(args@).skip(next as int), opt_view(inline)) == Some(
                    (v@, args_view(args@).skip(j as int)),
                )
            },
            None => take_value(args_view(args@).skip(next as int), opt_view(inline)) is None,
        },
{
    let ghost av = args_view(args@);
    match inline {
        Some(v) => Some((v, next)),
        None => if next < args.len() {
            assert(av.skip(next as int)[0] == args@[next as int]@);
            assert(av.skip(next as int).drop_first() =~= av.skip(next + 1));
            Some((args[next].as_str(), next + 1))
        } else {
            None
        },
    }
}

/// Where reading the arguments stands after one option.
enum Progress {
    /// Go on at this position with this configuration.
    Continue(usize, Config),
    /// Reading has ended with this outcome.
    Done(Result<Action, String>),
}

/// Reads the option at position `i`, and its value where it takes one.
fn parse_step(args: &Vec<String>, i: usize, cfg: Config) -> (r: Progress)
    requires
        i < args.len(),
    ensures
        match r {
            Progress::Continue(j, c) => {
                &&& i < j <= args.len()
                &&& parse_args(args_view(args@).skip(j as int), c) == parse_args(
                    args_view(args@).skip(i as int),
                    cfg,
                )
                &&& cfg.distance >= 1 ==> c.distance >= 1
            },
            Progress::Done(res) => {
                &&& result_view(res) == parse_args(args_view(args@).skip(i as int), cfg)
                &&& !(res matches Ok(Action::Run(_)))
            },
        },
{
    let ghost av = args_view(args@);
    assert(av.skip(i as int)[0] == args@[i as int]@);
    assert(av.skip(i as int).drop_first() =~= av.skip(i + 1));
    let (key, inline) = split_at_equals(args[i].as_str());
    let next = i + 1;
    if str_eq(key, "-h") || str_eq(key, "--help") {
        Progress::Done(Ok(Action::Help))
    } else if str_eq(key, "-V") || str_eq(key, "--version") {
        Progress::Done(Ok(Action::Version))
    } else if str_eq(key, "-m") || str_eq(key, "--mode") {
        match next_value(args, next, inline) {
            None => Progress::Done(Err(String::from_str(key).concat(" requires a value"))),
            Some((v, j)) => match parse_mode(v) {
                Ok(m) => Progress::Continue(j, Config { mode: m, ..cfg }),
                Err(e) => Progress::Done(Err(e)),
            },
        }
    } else if str_eq(key, "-i") || str_eq(key, "--interval") {
        match next_value(args, next, inline) {
            None => Progress::Done(Err(String::from_str(key).concat(" requires a value"))),
            Some((v, j)) => match parse_duration(v) {
                Ok(d) => Progress::Continue(j, Config { interval: d, ..cfg }),
                Err(e) => Progress::Done(Err(e)),
            },
        }
    } else if str_eq(key, "-d") || str_eq(key, "--distance") {
        match next_value(args, next, inline) {
            None => Progress::Done(Err(String::from_str(key).concat(" requires a value"))),
            Some((v, j)) => match parse_i32(v) {
                None => Progress::Done(
                    Err(String::from_str("--distance: not an integer: ").concat(v)),
                ),
                Some(d) => if d < 1 {
                    Progress::Done(Err(String::from_str("--distance must be >= 1")))
                } else {
                    Progress::Continue(j, Config { distance: d, ..cfg })
                },
            },
        }
    } else if str_eq(key, "--max-runtime") {
        match next_value(args, next, inline) {
            None => Progress::Done(Err(String::from_str(key).concat(" requires a value"))),
            Some((v, j)) => match parse_duration(v) {
                Ok(d) => Progress::Continue(j, Config { max_runtime: Some(d), ..cfg }),
                Err(e) => Progress::Done(Err(e)),
            },
        }
    } else if str_eq(key, "--once") {
        Progress::Continue(next, Config { once: true, ..cfg })
    } else if str_eq(key, "-q") || str_eq(key, "--quiet") {
        Progress::Continue(next, Config { quiet: true, ..cfg })
    } else if str_eq(key, "-v") || str_eq(key, "--verbose") {
        Progress::Continue(next, Config { verbose: true, ..cfg })
    } else {
        Progress::Done(Err(String::from_str("unknown argument: ").concat(key)))
    }
}

/// Reads the command line (the arguments after the program name).
/// `-h`/`--help` and `-V`/`--version` end reading at once; any other option
/// changes the configuration, reading its value inline (`--mode=circle`) or
/// from the next argument. The first malformed option gives an error that
/// names it, and so does `--quiet` together with `--verbose` at the end.
pub fn parse(args: Vec<String>) -> (r: Result<Action, String>)
    ensures
        result_view(r) == spec_parse(args_view(args@)),
        r matches Ok(Action::Run(c)) ==> c.distance >= 1 && !(c.quiet && c.verbose),
{
    let mut cfg = Config {
        mode: Mode::Pixel,
        interval: 30,
        distance: 1,
        max_runtime: None,
        once: false,
        verbose: false,
        quiet: false,
    };
    let mut i: usize = 0;
    assert(args_view(args@).skip(0) =~= args_view(args@));
    while i < args.len()
        invariant
            i <= args.len(),
            parse_args(args_view(args@).skip(i as int), cfg) == spec_parse(args_view(args@)),
            cfg.distance >= 1,
        decreases args.len() - i,
    {
        match parse_step(&args, i, cfg) {
            Progress::Continue(j, c) => {
                i = j;
                cfg = c;
            },
            Progress::Done(res) => {
                return res;
            },
        }
    }
    assert(args_view(args@).skip(i as int) =~= Seq::<Seq<char>>::empty());
    if cfg.quiet && cfg.verbose {
        return Err(String::from_str("--quiet and --verbose are mutually exclusive"));
    }
    Ok(Action::Run(cfg))
}

} // verus!
