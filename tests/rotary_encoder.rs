use scope_ui::position::Position;
use scope_ui::rotary_encoder::{InputEvent, RotaryEncoder, Sample};

fn sample(dt: u8, clk: u8, sw_low: bool, now_ms: u64) -> Sample {
    Sample { dt_high: dt == 1, clk_high: clk == 1, sw_low, now_ms }
}

fn run(enc: &mut RotaryEncoder, phases: &[(u8, u8)]) -> Vec<Option<InputEvent>> {
    phases.iter().map(|&(dt, clk)| enc.update(sample(dt, clk, false, 0))).collect()
}

#[test]
fn clockwise_detent_gives_one_down() {
    let mut enc = RotaryEncoder::new(0);
    let events = run(&mut enc, &[(1, 1), (1, 1), (1, 0), (0, 0), (0, 1), (1, 1), (1, 1)]);
    let downs = events.iter().filter(|e| **e == Some(InputEvent::Down)).count();
    let others = events.iter().filter(|e| e.is_some() && **e != Some(InputEvent::Down)).count();
    assert_eq!(downs, 1);
    assert_eq!(others, 0);
}

#[test]
fn counter_clockwise_detent_gives_one_up() {
    let mut enc = RotaryEncoder::new(0);
    let events = run(&mut enc, &[(1, 1), (0, 1), (0, 0), (1, 0), (1, 1)]);
    assert_eq!(events, vec![None, None, Some(InputEvent::Up), None, None]);
}

#[test]
fn bouncing_phase_gives_nothing() {
    let mut enc = RotaryEncoder::new(0);
    let events = run(&mut enc, &[(1, 1), (0, 1), (1, 1), (0, 1), (1, 1), (1, 0), (1, 1), (1, 0)]);
    assert!(events.iter().all(|e| e.is_none()));
}

#[test]
fn held_button_selects_once_within_interval() {
    let mut enc = RotaryEncoder::new(0);
    let mut selects = 0;
    // first closure: 10 polls from t = 1000 ms
    for i in 0..10 {
        if enc.update(sample(1, 1, true, 1000 + i)) == Some(InputEvent::Select) {
            selects += 1;
        }
    }
    // released, then closed again 300 ms later
    for i in 0..3 {
        assert_eq!(enc.update(sample(1, 1, false, 1100 + i)), None);
    }
    for i in 0..10 {
        if enc.update(sample(1, 1, true, 1300 + i)) == Some(InputEvent::Select) {
            selects += 1;
        }
    }
    assert_eq!(selects, 1);
}

#[test]
fn button_accepted_again_after_interval() {
    let mut enc = RotaryEncoder::new(0);
    let mut at = Vec::new();
    for t in (1000..3000).step_by(10) {
        if enc.update(sample(1, 1, true, t)) == Some(InputEvent::Select) {
            at.push(t);
        }
    }
    assert_eq!(at, vec![1070, 1770, 2470]);
}

#[test]
fn button_ignored_right_after_start() {
    let mut enc = RotaryEncoder::new(1000);
    for i in 0..20 {
        assert_eq!(enc.update(sample(1, 1, true, 1000 + i)), None);
    }
}

#[test]
fn direction_wins_over_button() {
    let mut enc = RotaryEncoder::new(0);
    for i in 0..8 {
        assert_eq!(enc.update(sample(1, 0, true, 600 + i)), None);
    }
    // both a step and a held button are due: the step comes first
    assert_eq!(enc.update(sample(0, 0, true, 700)), Some(InputEvent::Down));
    assert_eq!(enc.update(sample(0, 0, true, 701)), Some(InputEvent::Select));
}

#[test]
fn position_text_follows_value() {
    let mut p = Position::new(-42);
    assert_eq!(p.value(), -42);
    assert_eq!(p.string_repr(), "-42");
    p.set_value(3329);
    assert_eq!(p.value(), 3329);
    assert_eq!(p.string_repr(), "3329");
    assert_eq!(p.clone().string_repr(), "3329");
}

#[test]
fn configured_interval_applies() {
    let mut enc = RotaryEncoder::with_min_click_interval(0, 100);
    let mut at = Vec::new();
    for t in (200..500).step_by(10) {
        if enc.update(sample(0, 0, true, t)) == Some(InputEvent::Select) {
            at.push(t);
        }
    }
    assert_eq!(at, vec![270, 370, 470]);
}
