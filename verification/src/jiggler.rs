//! The jiggle loop's decisions: which motions make up one jiggle, when a run
//! stops, and how long it waits between jiggles. The caller moves the
//! pointer, sleeps and reads the clock; this module decides.
use vstd::prelude::*;
use crate::cli::{Config, Mode};
use crate::number::{
    all_digits, decimal_digits, decimal_value, lemma_decimal_digits, push_decimal,
    push_signed_decimal, signed_decimal,
};
use crate::rng::{lcg_next, pick_in_range, SmallRng};

verus! {

/// Milliseconds between the outward motion of a jiggle and the motion back.
pub const SETTLE_MILLIS: u64 = 50;

/// One thing the pointer driver does: a relative motion, or a pause.
#[derive(Debug, Clone, Copy, PartialEq, Eq, Structural)]
pub enum Step {
    Move { dx: i32, dy: i32 },
    Pause { millis: u64 },
}

/// Move by `(dx, dy)`, settle, and move back by `(-dx, -dy)`.
pub open spec fn out_and_back(dx: i32, dy: i32) -> Seq<Step> {
    seq![
        Step::Move { dx, dy },
        Step::Pause { millis: SETTLE_MILLIS },
        Step::Move { dx: (-dx) as i32, dy: (-dy) as i32 },
    ]
}

/// The offset that a random jiggle of amplitude `d` draws from generator
/// outputs `x` and `y`, with the pixel jiggle's offset in place of `(0, 0)`.
pub open spec fn random_offset(x: u64, y: u64, d: i32) -> (i32, i32) {
    let dx = pick_in_range(x, (-d) as i32, d) as i32;
    let dy = pick_in_range(y, (-d) as i32, d) as i32;
    if dx == 0 && dy == 0 {
        (d, 0)
    } else {
        (dx, dy)
    }
}

/// The steps of a random jiggle of amplitude `d` from generator state `state`.
pub open spec fn random_steps(state: u64, d: i32) -> Seq<Step> {
    let (dx, dy) = random_offset(lcg_next(state), lcg_next(lcg_next(state)), d);
    out_and_back(dx, dy)
}

/// The amplitudes that a jiggle in `mode` can take without overflow.
pub open spec fn distance_fits(mode: Mode, d: i32) -> bool {
    match mode {
        Mode::Pixel => d != i32::MIN,
        Mode::Circle => true,
        Mode::Random => 0 <= d,
    }
}

/// The sum of the motions in `steps`.
pub open spec fn displacement(steps: Seq<Step>) -> (int, int)
    decreases steps.len(),
{
    if steps.len() == 0 {
        (0, 0)
    } else {
        let (x, y) = displacement(steps.drop_last());
        match steps.last() {
            Step::Move { dx, dy } => (x + dx, y + dy),
            Step::Pause { .. } => (x, y),
        }
    }
}

/// A jiggle ends where it began: the motion back cancels the motion out.
pub proof fn law_jiggle_returns_to_start(dx: i32, dy: i32)
    requires
        dx != i32::MIN,
        dy != i32::MIN,
    ensures
        displacement(out_and_back(dx, dy)) == (0int, 0int),
{
    let s = out_and_back(dx, dy);
    assert(s.drop_last().drop_last().drop_last() =~= Seq::<Step>::empty());
    assert(displacement(s.drop_last().drop_last().drop_last()) == (0int, 0int));
    assert(s.drop_last().drop_last().last() == Step::Move { dx, dy });
    assert(s.drop_last().last() == Step::Pause { millis: SETTLE_MILLIS });
    assert(s.last() == Step::Move { dx: (-dx) as i32, dy: (-dy) as i32 });
    assert(displacement(s.drop_last().drop_last()) == (dx as int, dy as int));
    assert(displacement(s.drop_last()) == (dx as int, dy as int));
}

/// A random jiggle of amplitude `d` moves out by an offset in `[-d, d]` on
/// each axis, never by `(0, 0)` where `d` is at least 1, and comes back to
/// where it began.
pub proof fn law_random_jiggle(state: u64, d: i32)
    requires
        0 <= d,
    ensures
        random_steps(state, d).len() == 3,
        random_steps(state, d)[0] matches Step::Move { dx, dy } && -d <= dx <= d && -d <= dy
            <= d && (d >= 1 ==> (dx != 0 || dy != 0)),
        displacement(random_steps(state, d)) == (0int, 0int),
{
    let x = lcg_next(state);
    let y = lcg_next(lcg_next(state));
    let span = (2 * d + 1) as u64;
    assert(d - (-d) + 1 == 2 * d + 1);
    assert(span as int == 2 * d + 1);
    assert(x % span < span);
    assert(y % span < span);
    let (dx, dy) = random_offset(x, y, d);
    assert(-d <= dx <= d && -d <= dy <= d);
    law_jiggle_returns_to_start(dx, dy);
}

/// The planned jiggles of the pixel and random modes, for every distance
/// they accept, end where they began. (The circle is traced in floating
/// point outside this library.)
pub proof fn law_planned_steps_return(mode: Mode, d: i32, state: u64)
    requires
        mode != Mode::Circle,
        distance_fits(mode, d),
    ensures
        displacement(
            match mode {
                Mode::Random => random_steps(state, d),
                _ => out_and_back(d, 0),
            },
        ) == (0int, 0int),
{
    match mode {
        Mode::Random => law_random_jiggle(state, d),
        _ => law_jiggle_returns_to_start(d, 0),
    }
}

/// A random jiggle moves by the two draws of `range_inclusive(-d, d)`, unchanged,
/// then settles and moves back by their negation; only where both draws
/// are 0 does it make the pixel jiggle (`d` right, then back) instead.
pub proof fn law_random_offset_is_the_draws(state: u64, d: i32)
    requires
        0 <= d,
    ensures
        ({
            let dx = pick_in_range(lcg_next(state), (-d) as i32, d);
            let dy = pick_in_range(lcg_next(lcg_next(state)), (-d) as i32, d);
            &&& -d <= dx <= d
            &&& -d <= dy <= d
            &&& (dx != 0 || dy != 0) ==> random_steps(state, d) == seq![
                Step::Move { dx: dx as i32, dy: dy as i32 },
                Step::Pause { millis: 50 },
                Step::Move { dx: (-dx) as i32, dy: (-dy) as i32 },
            ]
            &&& (dx == 0 && dy == 0) ==> random_steps(state, d) == seq![
                Step::Move { dx: d, dy: 0 },
                Step::Pause { millis: 50 },
                Step::Move { dx: (-d) as i32, dy: 0 },
            ]
        }),
{
    let span = (2 * d + 1) as u64;
    assert(d - (-d) + 1 == 2 * d + 1);
    assert(span as int == 2 * d + 1);
    assert(lcg_next(state) % span < span);
    assert(lcg_next(lcg_next(state)) % span < span);
}

/// The first motion of a list of steps, `(0, 0)` where it is no motion.
pub open spec fn first_motion(steps: Seq<Step>) -> (int, int) {
    match steps[0] {
        Step::Move { dx, dy } => (dx as int, dy as int),
        Step::Pause { .. } => (0, 0),
    }
}

/// A random jiggle of amplitude at least 1 can go left and can go up: some
/// states draw `-d` across, and some draw `-d` down.
pub proof fn law_random_reaches_negative_offsets(d: i32)
    requires
        1 <= d,
    ensures
        exists|state: u64| first_motion(#[trigger] random_steps(state, d)).0 == -d,
        exists|state: u64| first_motion(#[trigger] random_steps(state, d)).1 == -d,
{
    let s1: u64 = 11066951453180645397;
    let s2: u64 = 826681497476871582;
    assert(lcg_next(s1) == 0);
    assert(lcg_next(s2) == s1);
    law_random_offset_is_the_draws(s1, d);
    law_random_offset_is_the_draws(s2, d);
    let span = (2 * d + 1) as u64;
    assert(span as int == 2 * d + 1);
    assert(0u64 % span == 0);
    assert(first_motion(random_steps(s1, d)).0 == -d);
    assert(first_motion(random_steps(s2, d)).1 == -d);
}

/// The pixel jiggle moves `d` pixels right (`d` across, 0 down), settles
/// for 50 ms, and moves `d` pixels back.
pub proof fn law_pixel_steps(d: i32)
    requires
        d != i32::MIN,
    ensures
        out_and_back(d, 0) == seq![
            Step::Move { dx: d, dy: 0 },
            Step::Pause { millis: 50 },
            Step::Move { dx: (-d) as i32, dy: 0 },
        ],
{
}

/// The pixel jiggle: `d` pixels right, then back.
pub fn pixel(d: i32) -> (steps: Vec<Step>)
    requires
        d != i32::MIN,
    ensures
        steps@ == out_and_back(d, 0),
{
    let back = -d;
    let steps = vec![
        Step::Move { dx: d, dy: 0 },
        Step::Pause { millis: SETTLE_MILLIS },
        Step::Move { dx: back, dy: 0 },
    ];
    assert(steps@ =~= out_and_back(d, 0));
    steps
}

/// The random jiggle: an offset drawn in `[-d, d]` on each axis, then back to
/// the start. Where both draws are zero it makes the pixel jiggle instead,
/// so that the pointer always moves.
pub fn random(d: i32, rng: &mut SmallRng) -> (steps: Vec<Step>)
    requires
        0 <= d,
    ensures
        final(rng).state == lcg_next(lcg_next(old(rng).state)),
        steps@ == random_steps(old(rng).state, d),
{
    let dx = rng.range_inclusive(-d, d);
    let dy = rng.range_inclusive(-d, d);
    if dx == 0 && dy == 0 {
        return pixel(d);
    }
    let back_x = -dx;
    let back_y = -dy;
    let steps = vec![
        Step::Move { dx, dy },
        Step::Pause { millis: SETTLE_MILLIS },
        Step::Move { dx: back_x, dy: back_y },
    ];
    assert(steps@ =~= out_and_back(dx, dy));
    steps
}

/// The motions of one jiggle. The circle is traced with trigonometry on
/// floating point, so the driver computes it from the radius.
pub enum Plan {
    Steps(Vec<Step>),
    Circle { radius: i32 },
}

/// What to do at the start of a round.
pub enum Round {
    /// The time limit is reached: the run ends.
    Stop,
    /// Jiggle once: log the iteration number first where `announce` holds.
    Jiggle { iteration: u64, announce: bool, plan: Plan },
}

/// The time limit `max_runtime` (in seconds) is reached after
/// `elapsed_nanos` nanoseconds.
pub open spec fn expired(max_runtime: Option<u64>, elapsed_nanos: u128) -> bool {
    match max_runtime {
        Some(secs) => elapsed_nanos >= secs * 1_000_000_000,
        None => false,
    }
}

/// The name of a mode as the start-up line shows it.
pub open spec fn mode_name(mode: Mode) -> Seq<char> {
    match mode {
        Mode::Pixel => "Pixel"@,
        Mode::Circle => "Circle"@,
        Mode::Random => "Random"@,
    }
}

/// The start-up line of a run: its mode, interval, distance, and where set,
/// `--once` and the time limit.
pub open spec fn banner_text(cfg: Config) -> Seq<char> {
    "mouse-jiggler: mode="@ + mode_name(cfg.mode) + " interval="@ + decimal_digits(
        cfg.interval as nat,
    ) + "s distance="@ + signed_decimal(cfg.distance as int) + "px"@ + (if cfg.once {
        " once=true"@
    } else {
        Seq::<char>::empty()
    }) + match cfg.max_runtime {
        Some(secs) => " max-runtime="@ + decimal_digits(secs as nat) + "s"@,
        None => Seq::<char>::empty(),
    }
}

/// The line logged before the jiggle numbered `iteration` in verbose runs.
pub open spec fn iteration_text(iteration: u64) -> Seq<char> {
    "["@ + decimal_digits(iteration as nat) + "] jiggle"@
}

/// The start-up line is the line for the mode, interval and distance alone,
/// followed by ` once=true` where the run jiggles once, and then by
/// ` max-runtime=<secs>s` wherever a time limit is set, whatever `--once`
/// says. The first part shows the mode by its name, and the interval and
/// distance as decimal text that reads back as their values.
pub proof fn law_banner_parts(cfg: Config)
    ensures
        banner_text(cfg) == banner_text(Config { once: false, max_runtime: None, ..cfg }) + (if cfg.once {
            " once=true"@
        } else {
            Seq::<char>::empty()
        }) + (match cfg.max_runtime {
            Some(secs) => " max-runtime="@ + decimal_digits(secs as nat) + "s"@,
            None => Seq::<char>::empty(),
        }),
        banner_text(Config { once: false, max_runtime: None, ..cfg }) == "mouse-jiggler: mode="@
            + mode_name(cfg.mode) + " interval="@ + decimal_digits(cfg.interval as nat)
            + "s distance="@ + signed_decimal(cfg.distance as int) + "px"@,
        cfg.mode == Mode::Pixel ==> mode_name(cfg.mode) == "Pixel"@,
        cfg.mode == Mode::Circle ==> mode_name(cfg.mode) == "Circle"@,
        cfg.mode == Mode::Random ==> mode_name(cfg.mode) == "Random"@,
        all_digits(decimal_digits(cfg.interval as nat)),
        decimal_value(decimal_digits(cfg.interval as nat)) == cfg.interval,
        cfg.distance >= 0 ==> signed_decimal(cfg.distance as int) == decimal_digits(
            cfg.distance as nat,
        ),
        cfg.distance < 0 ==> signed_decimal(cfg.distance as int) == seq!['-'] + decimal_digits(
            (-cfg.distance) as nat,
        ),
        all_digits(decimal_digits(cfg.distance as nat)),
        cfg.distance >= 0 ==> decimal_value(decimal_digits(cfg.distance as nat)) == cfg.distance,
        cfg.distance < 0 ==> decimal_value(decimal_digits((-cfg.distance) as nat)) == -cfg.distance,
        cfg.max_runtime matches Some(secs) ==> decimal_value(decimal_digits(secs as nat)) == secs,
{
    let base = Config { once: false, max_runtime: None, ..cfg };
    let once_part = if cfg.once {
        " once=true"@
    } else {
        Seq::<char>::empty()
    };
    let limit_part = match cfg.max_runtime {
        Some(secs) => " max-runtime="@ + decimal_digits(secs as nat) + "s"@,
        None => Seq::<char>::empty(),
    };
    assert(banner_text(base) =~= banner_text(base) + Seq::<char>::empty() + Seq::<char>::empty());
    assert(banner_text(cfg) =~= banner_text(base) + once_part + limit_part);
    lemma_decimal_digits(cfg.interval as nat);
    lemma_decimal_digits(cfg.distance as nat);
    if cfg.distance < 0 {
        lemma_decimal_digits((-cfg.distance) as nat);
    }
    if let Some(secs) = cfg.max_runtime {
        lemma_decimal_digits(secs as nat);
    }
}

/// The verbose line of a jiggle is `[`, the jiggle's number as decimal
/// text that reads back as it, and `] jiggle`.
pub proof fn law_iteration_text(iteration: u64)
    ensures
        iteration_text(iteration) == "["@ + decimal_digits(iteration as nat) + "] jiggle"@,
        all_digits(decimal_digits(iteration as nat)),
        decimal_value(decimal_digits(iteration as nat)) == iteration,
{
    lemma_decimal_digits(iteration as nat);
}

/// The start-up line to log, or `None` for a quiet run.
pub fn banner(cfg: &Config) -> (r: Option<String>)
    ensures
        match r {
            Some(line) => !cfg.quiet && line@ == banner_text(*cfg),
            None => cfg.quiet,
        },
{
    if cfg.quiet {
        return None;
    }
    let mut line = String::from_str("mouse-jiggler: mode=");
    let name = match cfg.mode {
        Mode::Pixel => "Pixel",
        Mode::Circle => "Circle",
        Mode::Random => "Random",
    };
    line.append(name);
    line.append(" interval=");
    push_decimal(&mut line, cfg.interval);
    line.append("s distance=");
    push_signed_decimal(&mut line, cfg.distance);
    line.append("px");
    let ghost fixed = line@;
    if cfg.once {
        line.append(" once=true");
    }
    let ghost with_once = line@;
    assert(with_once =~= fixed + (if cfg.once {
        " once=true"@
    } else {
        Seq::<char>::empty()
    }));
    match cfg.max_runtime {
        Some(secs) => {
            line.append(" max-runtime=");
            push_decimal(&mut line, secs);
            line.append("s");
        },
        None => {},
    }
    assert(line@ =~= banner_text(*cfg));
    Some(line)
}

/// The line logged before the jiggle numbered `iteration`: `[n] jiggle`.
pub fn iteration_line(iteration: u64) -> (r: String)
    ensures
        r@ == iteration_text(iteration),
{
    let mut line = String::from_str("[");
    push_decimal(&mut line, iteration);
    line.append("] jiggle");
    line
}

/// Whether the time limit `max_runtime` (in seconds) is reached after
/// `elapsed_nanos` nanoseconds.
pub fn limit_reached(max_runtime: Option<u64>, elapsed_nanos: u128) -> (r: bool)
    ensures
        r == expired(max_runtime, elapsed_nanos),
{
    match max_runtime {
        Some(secs) => elapsed_nanos >= (secs as u128) * 1_000_000_000,
        None => false,
    }
}

/// A time limit of `secs` seconds is reached exactly when at least
/// `secs * 10^9` nanoseconds have passed, counted without bound; without a
/// limit it is never reached. Once reached, it stays reached.
pub proof fn law_time_limit(max_runtime: Option<u64>, e1: u128, e2: u128)
    ensures
        max_runtime matches Some(secs) ==> (expired(max_runtime, e1) <==> e1 as int >= secs as int
            * 1_000_000_000),
        max_runtime is None ==> !expired(max_runtime, e1),
        expired(max_runtime, e1) && e1 <= e2 ==> expired(max_runtime, e2),
        max_runtime matches Some(secs) ==> secs as int * 1_000_000_000 <= u128::MAX && expired(
            max_runtime,
            (secs as int * 1_000_000_000) as u128,
        ),
        max_runtime matches Some(secs) ==> secs > 0 ==> !expired(
            max_runtime,
            (secs as int * 1_000_000_000 - 1) as u128,
        ),
{
}

/// The state of a run: its configuration, how many jiggles it has made, and
/// its random generator.
pub struct Jiggler {
    pub config: Config,
    pub iteration: u64,
    pub rng: SmallRng,
}

impl Jiggler {
    /// A run that has not jiggled yet.
    pub fn new(config: Config, rng: SmallRng) -> (r: Jiggler)
        ensures
            r.config == config,
            r.iteration == 0,
            r.rng == rng,
    {
        Jiggler { config, iteration: 0, rng }
    }

    /// Starts a round after `elapsed_nanos` nanoseconds of the run: stops at
    /// the time limit, else plans the jiggle of the configured mode. Only a
    /// random jiggle draws from the generator.
    pub fn begin_round(&mut self, elapsed_nanos: u128) -> (r: Round)
        requires
            !expired(old(self).config.max_runtime, elapsed_nanos) ==> distance_fits(
                old(self).config.mode,
                old(self).config.distance,
            ),
        ensures
            final(self).config == old(self).config,
            final(self).iteration == old(self).iteration,
            expired(old(self).config.max_runtime, elapsed_nanos) ==> {
                &&& r is Stop
                &&& final(self).rng == old(self).rng
            },
            !expired(old(self).config.max_runtime, elapsed_nanos) ==> match r {
                Round::Stop => false,
                Round::Jiggle { iteration, announce, plan } => {
                    &&& iteration == old(self).iteration
                    &&& announce == old(self).config.verbose
                    &&& match old(self).config.mode {
                        Mode::Pixel => {
                            &&& plan matches Plan::Steps(steps)
                            &&& steps@ == out_and_back(old(self).config.distance, 0)
                            &&& final(self).rng == old(self).rng
                        },
                        Mode::Circle => {
                            &&& plan matches Plan::Circle { radius }
                            &&& radius == old(self).config.distance
                            &&& final(self).rng == old(self).rng
                        },
                        Mode::Random => {
                            &&& plan matches Plan::Steps(steps)
                            &&& steps@ == random_steps(
                                old(self).rng.state,
                                old(self).config.distance,
                            )
                            &&& final(self).rng.state == lcg_next(lcg_next(old(self).rng.state))
                        },
                    }
                },
            },
    {
        if limit_reached(self.config.max_runtime, elapsed_nanos) {
            return Round::Stop;
        }
        let d = self.config.distance;
        let plan = match self.config.mode {
            Mode::Pixel => Plan::Steps(pixel(d)),
            Mode::Circle => Plan::Circle { radius: d },
            Mode::Random => Plan::Steps(random(d, &mut self.rng)),
        };
        Round::Jiggle { iteration: self.iteration, announce: self.config.verbose, plan }
    }

    /// Ends a round whose motions were all made: counts the jiggle, then
    /// gives the seconds to wait before the next round, or `None` where the
    /// run jiggles once only.
    pub fn end_round(&mut self) -> (r: Option<u64>)
        requires
            old(self).iteration < u64::MAX,
        ensures
            final(self).config == old(self).config,
            final(self).rng == old(self).rng,
            final(self).iteration == old(self).iteration + 1,
            r == (if old(self).config.once {
                None
            } else {
                Some(old(self).config.interval)
            }),
    {
        self.iteration = self.iteration + 1;
        if self.config.once {
            None
        } else {
            Some(self.config.interval)
        }
    }
}

} // verus!
