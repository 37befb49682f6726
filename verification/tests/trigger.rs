use rsudp_rust::trigger::{clean_channel_id, event_message, AlertEventType, ChannelTrigger, TriggerManager, EVALUATION_PERIOD};
use rsudp_rust::trigger_new::{AlertEventType as ContinuousEvent, ContinuousTrigger};

const SEC: i128 = 1_000_000_000;
const T0: i128 = 1_732_525_283 * SEC + 500_000_000;

#[test]
fn channel_ids_are_cleaned() {
    assert_eq!(clean_channel_id("AM.R6E01.00.EHZ"), "EHZ");
    assert_eq!(clean_channel_id("'EHZ'"), "EHZ");
    assert_eq!(clean_channel_id("AM.R6E01.00.' EHZ '"), "EHZ");
    assert_eq!(clean_channel_id("noDots"), "noDots");
    assert_eq!(clean_channel_id("a."), "");
    assert_eq!(clean_channel_id("''''"), "");
}

#[test]
fn ratio_is_due_every_period_once_window_is_full() {
    let mut t: ChannelTrigger<f64> = ChannelTrigger::new(4);
    let mut due_at = Vec::new();
    for i in 0..60i128 {
        if t.push_sample(i as f64, T0 + i * 10_000_000) {
            due_at.push(i + 1);
        }
    }
    assert_eq!(due_at, vec![25, 50]);
    assert_eq!(EVALUATION_PERIOD, 25);
    assert_eq!(t.window(), &vec![56.0, 57.0, 58.0, 59.0]);
}

#[test]
fn window_waits_until_full() {
    let mut t: ChannelTrigger<f64> = ChannelTrigger::new(30);
    let mut due = 0;
    for i in 0..50i128 {
        if t.push_sample(1.0, T0 + i * 10_000_000) {
            due += 1;
        }
    }
    assert_eq!(due, 1);
    assert_eq!(t.window().len(), 30);
}

#[test]
fn gap_restarts_window() {
    let mut t: ChannelTrigger<f64> = ChannelTrigger::new(10);
    t.push_sample(1.0, T0);
    t.push_sample(2.0, T0 + SEC);
    assert_eq!(t.window(), &vec![1.0, 2.0]);
    t.push_sample(3.0, T0 + 2 * SEC + 1_000_000);
    assert_eq!(t.window(), &vec![3.0]);
    t.push_sample(4.0, T0 + 2 * SEC + 1_000_000 - 1_000_999_999);
    assert_eq!(t.window(), &vec![3.0, 4.0]);
}

#[test]
fn alarm_after_lasting_excess_then_reset() {
    let mut t: ChannelTrigger<f64> = ChannelTrigger::new(1);
    let t1 = T0 + 250_000_000;
    assert_eq!(t.excess_start(t1), t1);
    assert_eq!(t.step(t1, true, false, false), None);
    assert!(!t.is_triggered());
    let t2 = t1 + 250_000_000;
    assert_eq!(t.excess_start(t2), t1);
    assert_eq!(t.step(t2, true, true, true), Some(AlertEventType::Trigger));
    assert!(t.is_triggered());
    let t3 = t2 + 250_000_000;
    assert_eq!(t.step(t3, true, false, false), None);
    assert_eq!(t.step(t3 + 250_000_000, false, false, true), Some(AlertEventType::Reset));
    assert!(!t.is_triggered());
}

#[test]
fn quiet_ratio_ends_excess() {
    let mut t: ChannelTrigger<f64> = ChannelTrigger::new(1);
    let t1 = T0 + 250_000_000;
    t.step(t1, true, false, false);
    t.step(t1 + 250_000_000, false, false, false);
    let t3 = t1 + 500_000_000;
    assert_eq!(t.excess_start(t3), t3);
}

#[test]
fn status_near_whole_seconds() {
    let mut t: ChannelTrigger<f64> = ChannelTrigger::new(1);
    assert_eq!(t.step(T0 + 500_000_000 + 9_999_999, false, false, false), Some(AlertEventType::Status));
    assert_eq!(t.step(T0 + 500_000_000 + 10_000_000, false, false, false), None);
    assert_eq!(t.step(-SEC + 5_000_000, false, false, false), Some(AlertEventType::Status));
    assert_eq!(t.step(-5_000_000, false, false, false), None);
    t.step(T0 + 100_000_000, true, true, false);
    assert_eq!(t.step(2 * SEC, true, false, false), Some(AlertEventType::Status));
}

#[test]
fn continuous_trigger_jumps_restart_the_channel() {
    let mut c = ContinuousTrigger::new();
    assert!(!c.observe(T0));
    assert!(!c.observe(T0 + 10_000_000));
    assert!(c.warmed_up(2));
    assert!(!c.warmed_up(3));
    assert!(!c.observe(T0 + 1_020_000_000));
    assert!(!c.observe(T0 + 2_030_999_999));
    assert!(c.observe(T0 + 4_041_999_999));
    assert!(c.warmed_up(1));
    assert!(!c.warmed_up(2));
}

#[test]
fn continuous_trigger_alarm_and_reset() {
    let mut c = ContinuousTrigger::new();
    c.observe(T0);
    assert_eq!(c.step(T0, true, false, false), None);
    assert_eq!(c.excess_start(T0 + SEC), T0);
    assert_eq!(c.step(T0 + SEC, true, true, false), Some(ContinuousEvent::Trigger));
    assert!(c.is_triggered());
    assert_eq!(c.step(T0 + 2 * SEC, false, false, false), None);
    assert_eq!(c.step(T0 + 3 * SEC, false, false, true), Some(ContinuousEvent::Reset));
    assert!(!c.is_triggered());
    c.step(T0 + 4 * SEC, true, false, false);
    c.observe(T0 + 10 * SEC);
    assert_eq!(c.excess_start(T0 + 10 * SEC), T0 + 10 * SEC);
}

#[test]
fn evaluation_count_restarts_after_a_gap_over_a_run() {
    // Capacity 50: due when the count since the last gap is 50, 75, ...
    let mut t: ChannelTrigger<f64> = ChannelTrigger::new(50);
    let mut due_at = Vec::new();
    let mut now = T0;
    for i in 1..=130i128 {
        // A gap of two seconds before the 61st sample.
        now += if i == 61 { 2 * SEC } else { 10_000_000 };
        if t.push_sample(0.0, now) {
            due_at.push(i);
        }
    }
    // Before the gap: counts 50 (i = 50); after it the count restarts at
    // i = 61, so counts 50 and 75 fall on i = 110 and i = 135 (past the run).
    assert_eq!(due_at, vec![50, 110]);
    assert_eq!(t.window().len(), 50);
}

#[test]
fn alarms_and_resets_alternate_over_a_run() {
    let mut t: ChannelTrigger<f64> = ChannelTrigger::new(1);
    let mut alarms = Vec::new();
    let verdicts = [
        (true, true, false),
        (true, true, false),
        (false, false, true),
        (false, false, true),
        (true, false, false),
        (true, true, true),
        (false, false, true),
    ];
    let mut now = T0 + 250_000_000;
    for (above, reached, below) in verdicts {
        for _ in 0..25 {
            now += 10_000_000;
            if t.push_sample(0.0, now) {
                match t.step(now, above, reached, below) {
                    Some(AlertEventType::Trigger) => alarms.push("T"),
                    Some(AlertEventType::Reset) => alarms.push("R"),
                    _ => {}
                }
            }
        }
    }
    assert_eq!(alarms, vec!["T", "R", "T", "R"]);
    assert!(!t.is_triggered());
}

#[test]
fn manager_keeps_channels_apart_and_ignores_unwatched_ids() {
    let mut m: TriggerManager<f64> = TriggerManager::new("HZ".to_string(), 50);
    let mut due = Vec::new();
    let mut now = T0;
    for i in 1..=60i128 {
        now += 10_000_000;
        assert_eq!(m.take_sample("AM.R6E01.00.EHN", 1.0, now), None);
        if let Some(p) = m.take_sample("AM.R6E01.00.EHZ", 1.0, now) {
            due.push(("EHZ", i, p));
        }
        // A second id with the same key shares the channel every other time.
        if i % 2 == 0 {
            if let Some(p) = m.take_sample("XX.SIM.00.SHZ", 2.0, now) {
                due.push(("SHZ", i, p));
            }
        }
    }
    // EHZ reaches 50 samples at i = 50; SHZ has 30 samples by then, none due.
    assert_eq!(due, vec![("EHZ", 50, 0)]);
    assert_eq!(m.window(0).len(), 50);
    assert_eq!(m.window(1).len(), 30);
    // Alarm and reset on the EHZ channel only.
    assert_eq!(m.evaluate(0, now, true, true, false), Some(AlertEventType::Trigger));
    assert!(m.is_triggered(0));
    assert!(!m.is_triggered(1));
    assert_eq!(m.evaluate(0, now + 250_000_000, false, false, true), Some(AlertEventType::Reset));
    assert!(!m.is_triggered(0));
    assert_eq!(m.excess_start(0, now), now);
}

#[test]
fn event_messages() {
    assert_eq!(event_message(AlertEventType::Trigger), "ALARM");
    assert_eq!(event_message(AlertEventType::Reset), "RESET");
    assert_eq!(event_message(AlertEventType::Status), "STATUS");
}
