//! Quadrature decoding of a rotary encoder's two phase lines, with a
//! debounced, rate-limited push button.
use vstd::prelude::*;

verus! {

/// What the user asked for.
#[derive(Clone, Copy, Debug, PartialEq, Eq, Structural)]
pub enum InputEvent {
    Up,
    Down,
    Select,
    Quit,
}

/// A source of input events, polled at the caller's cadence.
pub trait MenuInput {
    fn poll(&mut self) -> Option<InputEvent>;
}

/// Bits of a phase history that the decoder looks at: the last two samples.
pub const PIN_MASK: u8 = 0x03;

/// A phase line that was high on the previous sample and is low now.
pub const PIN_EDGE: u8 = 0x02;

/// Shortest time between two accepted button presses.
pub const MIN_CLICK_INTERVAL_MS: u64 = 700;

/// One reading of the encoder's lines, and when it was taken.
#[derive(Clone, Copy, Debug, PartialEq, Eq, Structural)]
pub struct Sample {
    /// Phase line A (DT) is high.
    pub dt_high: bool,
    /// Phase line B (CLK) is high.
    pub clk_high: bool,
    /// The active-low switch line is low: the button is closed.
    pub sw_low: bool,
    /// Time of the reading, in milliseconds.
    pub now_ms: u64,
}

/// Shift registers of the three lines, newest sample in the lowest bit, and
/// the time of the last accepted press.
#[derive(Clone, Copy, Debug, PartialEq, Eq, Structural)]
pub struct EncoderState {
    pub dt_history: u8,
    pub clk_history: u8,
    /// One bit per sample, 0 while the button is closed.
    pub sw_history: u8,
    pub last_click_ms: u64,
    pub min_click_interval_ms: u64,
}

/// `reg` with `bit` shifted in at the bottom.
pub open spec fn shift_in(reg: u8, bit: bool) -> u8 {
    ((reg << 1u8) | (if bit { 1u8 } else { 0u8 })) as u8
}

/// Direction read from the last two samples of both phase lines: line A
/// falling while B stays low is a step down, B falling while A stays low a
/// step up; any other pattern is taken for contact bounce.
pub open spec fn direction(dt_history: u8, clk_history: u8) -> Option<InputEvent> {
    let a = dt_history & PIN_MASK;
    let b = clk_history & PIN_MASK;
    if a == PIN_EDGE && b == 0 {
        Some(InputEvent::Down)
    } else if b == PIN_EDGE && a == 0 {
        Some(InputEvent::Up)
    } else {
        None
    }
}

/// Time since `last`, zero when `now` is earlier.
pub open spec fn elapsed(now: u64, last: u64) -> int {
    if now >= last {
        now - last
    } else {
        0
    }
}

/// One poll: the registers take the sample; a direction wins; otherwise a
/// button held closed for the whole register and not pressed within the
/// minimum interval gives `Select` and restarts the interval.
pub open spec fn step(s: EncoderState, x: Sample) -> (EncoderState, Option<InputEvent>) {
    let dt = shift_in(s.dt_history, x.dt_high);
    let clk = shift_in(s.clk_history, x.clk_high);
    let sw = shift_in(s.sw_history, !x.sw_low);
    let moved = EncoderState { dt_history: dt, clk_history: clk, sw_history: sw, ..s };
    if direction(dt, clk) is Some {
        (moved, direction(dt, clk))
    } else if sw == 0 && elapsed(x.now_ms, s.last_click_ms) >= s.min_click_interval_ms {
        (EncoderState { last_click_ms: x.now_ms, ..moved }, Some(InputEvent::Select))
    } else {
        (moved, None)
    }
}

/// Events of a run of polls from `s`, one per sample.
pub open spec fn run_events(s: EncoderState, xs: Seq<Sample>) -> Seq<Option<InputEvent>>
    decreases xs.len(),
{
    if xs.len() == 0 {
        seq![]
    } else {
        let (t, e) = step(s, xs[0]);
        seq![e] + run_events(t, xs.drop_first())
    }
}

/// State after a run of polls from `s`.
pub open spec fn run_state(s: EncoderState, xs: Seq<Sample>) -> EncoderState
    decreases xs.len(),
{
    if xs.len() == 0 {
        s
    } else {
        run_state(step(s, xs[0]).0, xs.drop_first())
    }
}

/// Decoder of a rotary encoder with push button. The lines are read by the
/// caller and handed in one sample per poll.
pub struct RotaryEncoder {
    pin_state: [u8; 3],
    last_click_time: u64,
    min_click_interval: u64,
}

impl View for RotaryEncoder {
    type V = EncoderState;

    closed spec fn view(&self) -> EncoderState {
        EncoderState {
            dt_history: self.pin_state@[0],
            clk_history: self.pin_state@[1],
            sw_history: self.pin_state@[2],
            last_click_ms: self.last_click_time,
            min_click_interval_ms: self.min_click_interval,
        }
    }
}

impl RotaryEncoder {
    /// A decoder whose registers have seen the phase lines low and the
    /// button open; the first press is accepted no earlier than the minimum
    /// interval after `now_ms`.
    pub fn new(now_ms: u64) -> (r: Self)
        ensures
            r@ == (EncoderState {
                dt_history: 0,
                clk_history: 0,
                sw_history: 0xff,
                last_click_ms: now_ms,
                min_click_interval_ms: MIN_CLICK_INTERVAL_MS,
            }),
    {
        RotaryEncoder {
            pin_state: [0u8, 0u8, 0xffu8],
            last_click_time: now_ms,
            min_click_interval: MIN_CLICK_INTERVAL_MS,
        }
    }

    /// Like [`RotaryEncoder::new`], with presses at least
    /// `min_click_interval_ms` apart.
    pub fn with_min_click_interval(now_ms: u64, min_click_interval_ms: u64) -> (r: Self)
        ensures
            r@ == (EncoderState {
                dt_history: 0,
                clk_history: 0,
                sw_history: 0xff,
                last_click_ms: now_ms,
                min_click_interval_ms,
            }),
    {
        RotaryEncoder {
            pin_state: [0u8, 0u8, 0xffu8],
            last_click_time: now_ms,
            min_click_interval: min_click_interval_ms,
        }
    }

    /// Takes one sample of the lines and returns the event it completes, if
    /// any.
    pub fn update(&mut self, sample: Sample) -> (r: Option<InputEvent>)
        ensures
            (final(self)@, r) == step(old(self)@, sample),
    {
        let dt_bit: u8 = if sample.dt_high { 1 } else { 0 };
        let clk_bit: u8 = if sample.clk_high { 1 } else { 0 };
        let sw_bit: u8 = if sample.sw_low { 0 } else { 1 };
        let dt = (self.pin_state[0] << 1u8) | dt_bit;
        let clk = (self.pin_state[1] << 1u8) | clk_bit;
        let sw = (self.pin_state[2] << 1u8) | sw_bit;
        self.pin_state = [dt, clk, sw];
        let a = dt & PIN_MASK;
        let b = clk & PIN_MASK;
        let mut event: Option<InputEvent> = None;
        if a == PIN_EDGE && b == 0x00 {
            event = Some(InputEvent::Down);
        } else if b == PIN_EDGE && a == 0x00 {
            event = Some(InputEvent::Up);
        } else {
            let since = if sample.now_ms >= self.last_click_time {
                sample.now_ms - self.last_click_time
            } else {
                0
            };
            if sw == 0x00 && since >= self.min_click_interval {
                self.last_click_time = sample.now_ms;
                event = Some(InputEvent::Select);
            }
        }
        proof {
            assert(self.pin_state@[0] == dt && self.pin_state@[1] == clk && self.pin_state@[2] == sw);
        }
        event
    }
}

/// One event per sample.
pub proof fn lemma_run_events_len(s: EncoderState, xs: Seq<Sample>)
    ensures
        run_events(s, xs).len() == xs.len(),
    decreases xs.len(),
{
    if xs.len() > 0 {
        lemma_run_events_len(step(s, xs[0]).0, xs.drop_first());
    }
}

/// Event `k + 1` of a run is event `k` of the run from the second sample.
proof fn lemma_run_events_tail(s: EncoderState, xs: Seq<Sample>, k: int)
    requires
        0 <= k,
        k + 1 < xs.len(),
    ensures
        run_events(s, xs)[k + 1] == run_events(step(s, xs[0]).0, xs.drop_first())[k],
{
    lemma_run_events_len(step(s, xs[0]).0, xs.drop_first());
}

/// Whether sample `i` of a run from `s` completes a transition pattern on
/// the phase lines.
pub open spec fn completes_transition(s: EncoderState, xs: Seq<Sample>, i: int) -> bool {
    let before = run_state(s, xs.take(i));
    direction(
        shift_in(before.dt_history, xs[i].dt_high),
        shift_in(before.clk_history, xs[i].clk_high),
    ) is Some
}

proof fn lemma_completes_tail(s: EncoderState, xs: Seq<Sample>, i: int)
    requires
        0 <= i,
        i + 1 < xs.len(),
    ensures
        completes_transition(s, xs, i + 1) == completes_transition(
            step(s, xs[0]).0,
            xs.drop_first(),
            i,
        ),
{
    assert(xs.take(i + 1).drop_first() =~= xs.drop_first().take(i));
    assert(xs.take(i + 1)[0] == xs[0]);
}

/// Phase lines that bounce without ever completing a transition pattern,
/// with the button left open, give no event on any poll.
pub proof fn lemma_bounce_gives_no_event(s: EncoderState, xs: Seq<Sample>)
    requires
        forall|i: int| 0 <= i < xs.len() ==> !completes_transition(s, xs, i),
        forall|i: int| 0 <= i < xs.len() ==> !(#[trigger] xs[i]).sw_low,
    ensures
        run_events(s, xs).len() == xs.len(),
        forall|i: int| 0 <= i < xs.len() ==> run_events(s, xs)[i] is None,
    decreases xs.len(),
{
    lemma_run_events_len(s, xs);
    if xs.len() > 0 {
        let t = step(s, xs[0]).0;
        let tail = xs.drop_first();
        assert(xs.take(0) =~= Seq::<Sample>::empty());
        assert(!completes_transition(s, xs, 0));
        let h = s.sw_history;
        let sw = shift_in(h, !xs[0].sw_low);
        assert(sw != 0) by (bit_vector)
            requires sw == ((h << 1u8) | 1u8) as u8;
        assert forall|i: int| 0 <= i < tail.len() implies !completes_transition(t, tail, i) by {
            lemma_completes_tail(s, xs, i);
            assert(!completes_transition(s, xs, i + 1));
        }
        assert forall|i: int| 0 <= i < tail.len() implies !(#[trigger] tail[i]).sw_low by {
            assert(tail[i] == xs[i + 1]);
        }
        lemma_bounce_gives_no_event(t, tail);
        assert forall|i: int| 0 <= i < xs.len() implies run_events(s, xs)[i] is None by {
            if i > 0 {
                lemma_run_events_tail(s, xs, i - 1);
            }
        }
    }
}

/// A press accepted on a run from `s` comes at least the minimum interval
/// after the last press that `s` accepted.
proof fn lemma_press_after_last(s: EncoderState, xs: Seq<Sample>, j: int)
    requires
        s.min_click_interval_ms > 0,
        0 <= j < xs.len(),
        run_events(s, xs)[j] == Some(InputEvent::Select),
    ensures
        xs[j].now_ms >= s.last_click_ms + s.min_click_interval_ms,
    decreases j,
{
    let t = step(s, xs[0]).0;
    if j > 0 {
        lemma_run_events_tail(s, xs, j - 1);
        lemma_press_after_last(t, xs.drop_first(), j - 1);
    }
}

/// Two presses accepted on one run are at least the minimum interval apart:
/// a second closure within the interval gives no second `Select`.
pub proof fn lemma_presses_keep_interval(s: EncoderState, xs: Seq<Sample>, i: int, j: int)
    requires
        s.min_click_interval_ms > 0,
        0 <= i < j < xs.len(),
        run_events(s, xs)[i] == Some(InputEvent::Select),
        run_events(s, xs)[j] == Some(InputEvent::Select),
    ensures
        xs[j].now_ms >= xs[i].now_ms + s.min_click_interval_ms,
    decreases i,
{
    let t = step(s, xs[0]).0;
    lemma_run_events_tail(s, xs, j - 1);
    if i == 0 {
        lemma_press_after_last(t, xs.drop_first(), j - 1);
    } else {
        lemma_run_events_tail(s, xs, i - 1);
        lemma_presses_keep_interval(t, xs.drop_first(), i - 1, j - 1);
    }
}

} // verus!
