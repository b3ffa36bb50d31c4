use mocap_bridge::bridge::{Bridge, TickPlan};
use mocap_bridge::button::{hold_action, HoldAction};
use mocap_bridge::portal::Settings;

fn plan(heartbeat: bool, vpe: Option<u8>, acquired: bool, lost: bool) -> TickPlan {
    TickPlan { heartbeat, vpe_reset_counter: vpe, acquired, lost }
}

fn bridge(vpe: u16, hb: u16) -> Bridge {
    let mut s = Settings::default();
    s.vpe_rate_hz = vpe;
    s.heartbeat_rate_hz = hb;
    Bridge::new(&s, 0)
}

#[test]
fn heartbeat_every_vpe_over_hb_ticks() {
    let mut b = bridge(4, 2);
    let beats: Vec<bool> = (0..6).map(|t| b.step(t, false).heartbeat).collect();
    assert_eq!(beats, [true, false, true, false, true, false]);
}

#[test]
fn tracking_loss_and_reacquisition() {
    // default timeout: 200 ms
    let mut b = bridge(100, 1);
    assert_eq!(b.step(10_000, false), plan(true, None, false, false));
    // first fix: reset counter stays 0
    assert_eq!(b.step(20_000, true), plan(false, Some(0), true, false));
    assert!(b.tracking());
    assert_eq!(b.step(30_000, true), plan(false, Some(0), false, false));
    // no pose: not lost until more than 200 ms since the last valid one
    assert_eq!(b.step(230_000, false), plan(false, None, false, false));
    assert!(b.tracking());
    assert_eq!(b.step(230_001, false), plan(false, None, false, true));
    assert!(!b.tracking());
    assert_eq!(b.step(240_000, false), plan(false, None, false, false));
    // reacquired: counter bumps
    assert_eq!(b.step(250_000, true), plan(false, Some(1), true, false));
    assert_eq!(b.step(260_000, true), plan(false, Some(1), false, false));
}

#[test]
fn reset_counter_wraps() {
    let mut b = bridge(100, 100);
    let mut now = 0u64;
    b.step(now, true);
    let mut last = 0;
    for _ in 0..256 {
        now += 300_000;
        assert!(b.step(now, false).lost);
        now += 1;
        last = b.step(now, true).vpe_reset_counter.unwrap();
    }
    assert_eq!(last, 0);
}

#[test]
fn factory_reset_after_three_seconds() {
    assert_eq!(hold_action(true, 5000), HoldAction::Released);
    assert_eq!(hold_action(false, 2999), HoldAction::KeepPolling);
    assert_eq!(hold_action(false, 3000), HoldAction::FactoryReset);
}

#[test]
fn can_step_refuses_time_before_last_fix() {
    let mut b = bridge(100, 1);
    assert!(b.can_step(0));
    b.step(50_000, true);
    assert!(b.can_step(50_000));
    assert!(!b.can_step(49_999));
}
