use lib::cli::{Config, Mode};
use lib::jiggler::{banner, iteration_line, limit_reached, pixel, random, Jiggler, Plan, Round, Step};
use lib::rng::SmallRng;

fn config(mode: Mode) -> Config {
    Config {
        mode,
        interval: 30,
        distance: 3,
        max_runtime: None,
        once: false,
        verbose: false,
        quiet: false,
    }
}

fn net(steps: &[Step]) -> (i64, i64) {
    let mut x = 0i64;
    let mut y = 0i64;
    for s in steps {
        if let Step::Move { dx, dy } = s {
            x += *dx as i64;
            y += *dy as i64;
        }
    }
    (x, y)
}

#[test]
fn pixel_goes_right_and_back() {
    assert_eq!(
        pixel(1),
        vec![Step::Move { dx: 1, dy: 0 }, Step::Pause { millis: 50 }, Step::Move { dx: -1, dy: 0 }]
    );
    assert_eq!(net(&pixel(i32::MAX)), (0, 0));
}

#[test]
fn random_jiggle_from_a_known_state() {
    let mut r = SmallRng { state: 7 };
    let steps = random(5, &mut r);
    assert_eq!(
        steps,
        vec![Step::Move { dx: 0, dy: 2 }, Step::Pause { millis: 50 }, Step::Move { dx: 0, dy: -2 }]
    );
}

#[test]
fn random_jiggle_never_stands_still() {
    // From state 0 both draws in -1..=1 are 0: the pixel jiggle is made instead.
    let mut r = SmallRng { state: 0 };
    assert_eq!(random(1, &mut r), pixel(1));
    assert_eq!(r.state, 1876011003808476466);
    let mut g = SmallRng { state: 4242 };
    for _ in 0..2000 {
        let steps = random(2, &mut g);
        match steps[0] {
            Step::Move { dx, dy } => {
                assert!((dx, dy) != (0, 0));
                assert!((-2..=2).contains(&dx) && (-2..=2).contains(&dy));
            }
            _ => panic!(),
        }
        assert_eq!(net(&steps), (0, 0));
    }
}

#[test]
fn rounds_of_a_repeating_run() {
    let mut cfg = config(Mode::Pixel);
    cfg.verbose = true;
    let mut j = Jiggler::new(cfg, SmallRng { state: 1 });
    for k in 0..3u64 {
        match j.begin_round(1_000_000_000_000) {
            Round::Jiggle { iteration, announce, plan: Plan::Steps(steps) } => {
                assert_eq!(iteration, k);
                assert!(announce);
                assert_eq!(steps, pixel(3));
            }
            _ => panic!(),
        }
        assert_eq!(j.end_round(), Some(30));
    }
    assert_eq!(j.iteration, 3);
    assert_eq!(j.rng.state, 1);
}

#[test]
fn once_ends_after_the_first_round() {
    let mut cfg = config(Mode::Circle);
    cfg.once = true;
    let mut j = Jiggler::new(cfg, SmallRng { state: 1 });
    match j.begin_round(0) {
        Round::Jiggle { iteration: 0, announce: false, plan: Plan::Circle { radius: 3 } } => {}
        _ => panic!(),
    }
    assert_eq!(j.end_round(), None);
}

#[test]
fn time_limit_stops_the_run() {
    let mut cfg = config(Mode::Random);
    cfg.max_runtime = Some(2);
    let mut j = Jiggler::new(cfg, SmallRng { state: 7 });
    match j.begin_round(1_999_999_999) {
        Round::Jiggle { plan: Plan::Steps(steps), .. } => assert_eq!(net(&steps), (0, 0)),
        _ => panic!(),
    }
    let state = j.rng.state;
    assert!(matches!(j.begin_round(2_000_000_000), Round::Stop));
    assert_eq!(j.rng.state, state);
    assert_eq!(j.iteration, 0);
}

#[test]
fn start_up_line() {
    let mut cfg = config(Mode::Random);
    assert_eq!(
        banner(&cfg).unwrap(),
        "mouse-jiggler: mode=Random interval=30s distance=3px"
    );
    cfg.once = true;
    cfg.max_runtime = Some(28800);
    cfg.mode = Mode::Circle;
    cfg.interval = 60;
    assert_eq!(
        banner(&cfg).unwrap(),
        "mouse-jiggler: mode=Circle interval=60s distance=3px once=true max-runtime=28800s"
    );
    assert_eq!(
        banner(&cfg).unwrap(),
        format!(
            "mouse-jiggler: mode={:?} interval={}s distance={}px{}{}",
            cfg.mode, cfg.interval, cfg.distance, " once=true", " max-runtime=28800s"
        )
    );
    cfg.quiet = true;
    assert_eq!(banner(&cfg), None);
}

#[test]
fn verbose_line() {
    assert_eq!(iteration_line(0), "[0] jiggle");
    assert_eq!(iteration_line(1234), "[1234] jiggle");
}

#[test]
fn limit_is_reached_exactly() {
    assert!(!limit_reached(None, u128::MAX));
    assert!(limit_reached(Some(0), 0));
    assert!(!limit_reached(Some(3), 2_999_999_999));
    assert!(limit_reached(Some(3), 3_000_000_000));
    assert!(!limit_reached(Some(u64::MAX), u64::MAX as u128));
}

#[test]
fn large_random_distances() {
    for d in [1_073_741_824, 2_000_000_000, i32::MAX] {
        let mut g = SmallRng { state: d as u64 };
        for _ in 0..200 {
            let steps = random(d, &mut g);
            match steps[0] {
                Step::Move { dx, dy } => {
                    assert!((dx, dy) != (0, 0));
                    assert!((-d..=d).contains(&dx) && (-d..=d).contains(&dy));
                }
                _ => panic!(),
            }
            assert_eq!(net(&steps), (0, 0));
        }
    }
}

#[test]
fn zero_limit_stops_before_any_jiggle() {
    let mut cfg = config(Mode::Random);
    cfg.distance = 1_073_741_824;
    cfg.max_runtime = Some(0);
    let mut j = Jiggler::new(cfg, SmallRng { state: 5 });
    assert!(matches!(j.begin_round(0), Round::Stop));
    assert_eq!(j.rng.state, 5);
}
