use lib::cli::{parse, parse_duration, parse_mode, Action, Config, Mode, HELP};
use std::time::Duration;

fn args(items: &[&str]) -> Vec<String> {
    items.iter().map(|s| s.to_string()).collect()
}

fn run_config(items: &[&str]) -> Config {
    match parse(args(items)).unwrap() {
        Action::Run(c) => c,
        _ => panic!(),
    }
}

fn error_of(items: &[&str]) -> String {
    match parse(args(items)) {
        Err(e) => e,
        Ok(_) => panic!("expected an error"),
    }
}

#[test]
fn defaults() {
    let cfg = match parse(vec![]).unwrap() {
        Action::Run(c) => c,
        _ => panic!(),
    };
    assert_eq!(cfg.mode, Mode::Pixel);
    assert_eq!(Duration::from_secs(cfg.interval), Duration::from_secs(30));
    assert_eq!(cfg.distance, 1);
    assert!(!cfg.once);
}

#[test]
fn long_and_short_forms() {
    let cfg = match parse(vec![
        "--mode=circle".into(),
        "-i".into(),
        "5m".into(),
        "-d".into(),
        "4".into(),
        "--once".into(),
    ])
    .unwrap()
    {
        Action::Run(c) => c,
        _ => panic!(),
    };
    assert_eq!(cfg.mode, Mode::Circle);
    assert_eq!(Duration::from_secs(cfg.interval), Duration::from_secs(300));
    assert_eq!(cfg.distance, 4);
    assert!(cfg.once);
}

#[test]
fn duration_suffixes() {
    assert_eq!(Duration::from_secs(parse_duration("30").unwrap()), Duration::from_secs(30));
    assert_eq!(Duration::from_secs(parse_duration("30s").unwrap()), Duration::from_secs(30));
    assert_eq!(Duration::from_secs(parse_duration("2m").unwrap()), Duration::from_secs(120));
    assert_eq!(Duration::from_secs(parse_duration("1h").unwrap()), Duration::from_secs(3600));
    assert!(parse_duration("3x").is_err());
}

#[test]
fn rejects_unknown() {
    assert!(parse(vec!["--bogus".into()]).is_err());
}

#[test]
fn rejects_zero_distance() {
    assert!(parse(vec!["-d".into(), "0".into()]).is_err());
}

#[test]
fn quiet_and_verbose_conflict() {
    assert!(parse(vec!["-q".into(), "-v".into()]).is_err());
}

#[test]
fn all_defaults_in_full() {
    let cfg = run_config(&[]);
    assert_eq!(
        cfg,
        Config {
            mode: Mode::Pixel,
            interval: 30,
            distance: 1,
            max_runtime: None,
            once: false,
            verbose: false,
            quiet: false,
        }
    );
}

#[test]
fn every_option_in_long_form() {
    let cfg = run_config(&[
        "--mode", "random", "--interval", "2h", "--distance", "7", "--max-runtime", "8h", "--once",
        "--verbose",
    ]);
    assert_eq!(
        cfg,
        Config {
            mode: Mode::Random,
            interval: 7200,
            distance: 7,
            max_runtime: Some(28800),
            once: true,
            verbose: true,
            quiet: false,
        }
    );
}

#[test]
fn every_option_inline() {
    let cfg = run_config(&["-m=c", "-i=90", "-d=+3", "--max-runtime=1m", "-q"]);
    assert_eq!(cfg.mode, Mode::Circle);
    assert_eq!(cfg.interval, 90);
    assert_eq!(cfg.distance, 3);
    assert_eq!(cfg.max_runtime, Some(60));
    assert!(cfg.quiet);
    assert!(!cfg.verbose);
}

#[test]
fn later_option_overrides_earlier() {
    let cfg = run_config(&["-m", "circle", "--mode", "RANDOM", "-d", "2", "-d", "9"]);
    assert_eq!(cfg.mode, Mode::Random);
    assert_eq!(cfg.distance, 9);
}

#[test]
fn help_and_version() {
    assert_eq!(parse(args(&["-h"])).unwrap(), Action::Help);
    assert_eq!(parse(args(&["--help", "--bogus"])).unwrap(), Action::Help);
    assert_eq!(parse(args(&["-V"])).unwrap(), Action::Version);
    assert_eq!(parse(args(&["-q", "-v", "--version"])).unwrap(), Action::Version);
    assert_eq!(parse(args(&["--help=yes"])).unwrap(), Action::Help);
    // An error before the help option wins.
    assert_eq!(error_of(&["--bogus", "-h"]), "unknown argument: --bogus");
}

#[test]
fn flags_ignore_inline_values() {
    let cfg = run_config(&["--once=no", "-v=0"]);
    assert!(cfg.once);
    assert!(cfg.verbose);
}

#[test]
fn value_may_look_like_an_option() {
    // The argument after `-m` is its value, even where it starts with `-`.
    assert_eq!(error_of(&["-m", "-q"]), "unknown mode: -q (valid: pixel, circle, random)");
}

#[test]
fn error_messages() {
    assert_eq!(error_of(&["--bogus=1"]), "unknown argument: --bogus");
    assert_eq!(error_of(&["-m"]), "-m requires a value");
    assert_eq!(error_of(&["--interval"]), "--interval requires a value");
    assert_eq!(error_of(&["--max-runtime"]), "--max-runtime requires a value");
    assert_eq!(error_of(&["-d", "x"]), "--distance: not an integer: x");
    assert_eq!(error_of(&["--distance=2147483648"]), "--distance: not an integer: 2147483648");
    assert_eq!(error_of(&["-d", "0"]), "--distance must be >= 1");
    assert_eq!(error_of(&["-d", "-5"]), "--distance must be >= 1");
    assert_eq!(error_of(&["-q", "--verbose"]), "--quiet and --verbose are mutually exclusive");
    assert_eq!(error_of(&["-m", "Square"]), "unknown mode: square (valid: pixel, circle, random)");
    assert_eq!(error_of(&["-i", "  "]), "empty duration");
    assert_eq!(error_of(&["-i", " 5d "]), "bad duration suffix in '5d' (use s/m/h)");
    assert_eq!(error_of(&["-i", "m"]), "bad duration: 'm'");
}

#[test]
fn distance_limits() {
    assert_eq!(run_config(&["-d", "2147483647"]).distance, i32::MAX);
    assert_eq!(run_config(&["-d", "1"]).distance, 1);
}

#[test]
fn modes_by_name_and_letter() {
    assert_eq!(parse_mode("pixel"), Ok(Mode::Pixel));
    assert_eq!(parse_mode("P"), Ok(Mode::Pixel));
    assert_eq!(parse_mode("Circle"), Ok(Mode::Circle));
    assert_eq!(parse_mode("c"), Ok(Mode::Circle));
    assert_eq!(parse_mode("rAnDoM"), Ok(Mode::Random));
    assert_eq!(parse_mode("r"), Ok(Mode::Random));
    assert_eq!(parse_mode(" pixel"), Err("unknown mode:  pixel (valid: pixel, circle, random)".to_string()));
    assert_eq!(parse_mode("ÉCLAIR"), Err("unknown mode: Éclair (valid: pixel, circle, random)".to_string()));
}

#[test]
fn durations_in_detail() {
    assert_eq!(parse_duration(" 90 "), Ok(90));
    assert_eq!(parse_duration("\t5m\n"), Ok(300));
    assert_eq!(parse_duration("+2h"), Ok(7200));
    assert_eq!(parse_duration("007s"), Ok(7));
    assert_eq!(parse_duration("0"), Ok(0));
    assert_eq!(parse_duration("18446744073709551615"), Ok(u64::MAX));
    assert_eq!(parse_duration("18446744073709551615h"), Ok(u64::MAX));
    assert_eq!(parse_duration("5124095576030431h"), Ok(5124095576030431 * 3600));
    assert_eq!(parse_duration("5124095576030432h"), Ok(u64::MAX));
    assert_eq!(parse_duration("18446744073709551616"), Err("bad duration: '18446744073709551616'".to_string()));
    assert_eq!(parse_duration("-5"), Err("bad duration: '-5'".to_string()));
    assert_eq!(parse_duration("5 m"), Err("bad duration: '5 m'".to_string()));
    assert_eq!(parse_duration("s"), Err("bad duration: 's'".to_string()));
    assert_eq!(parse_duration(""), Err("empty duration".to_string()));
    assert_eq!(parse_duration("5M"), Err("bad duration suffix in '5M' (use s/m/h)".to_string()));
    assert_eq!(parse_duration("5\u{00e9}"), Err("bad duration suffix in '5\u{00e9}' (use s/m/h)".to_string()));
    assert_eq!(parse_duration("\u{3000}12\u{2003}"), Ok(12));
}

#[test]
fn inline_and_separate_values_agree() {
    assert_eq!(parse(args(&["--mode=circle", "-q"])), parse(args(&["--mode", "circle", "-q"])));
    assert_eq!(parse(args(&["-i=bad"])), parse(args(&["-i", "bad"])));
    assert_eq!(parse(args(&["-d=a=b"])), parse(args(&["-d", "a=b"])));
}

#[test]
fn short_and_long_names_agree() {
    assert_eq!(parse(args(&["-m", "r", "-v"])), parse(args(&["--mode", "r", "-v"])));
    assert_eq!(parse(args(&["-i", "4"])), parse(args(&["--interval", "4"])));
    assert_eq!(parse(args(&["-d", "0"])), parse(args(&["--distance", "0"])));
    assert_eq!(parse(args(&["-q", "-v"])), parse(args(&["--quiet", "-v"])));
}

#[test]
fn help_text_mentions_every_option() {
    for name in ["--mode", "--interval", "--distance", "--max-runtime", "--once", "--quiet", "--verbose", "--help", "--version"] {
        assert!(HELP.contains(name));
    }
}

#[test]
fn bare_count_means_seconds() {
    for n in ["0", "1", "90", "86400", "18446744073709551615"] {
        assert_eq!(parse_duration(n), parse_duration(&format!("{n}s")));
    }
    assert_eq!(parse_duration("3m"), Ok(180));
    assert_eq!(parse_duration("3h"), Ok(10800));
}
