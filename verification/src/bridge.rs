//! The bridge's transmit decisions, one VPE tick at a time: when to send a
//! HEARTBEAT, when to forward a pose, when tracking counts as lost, and the
//! `reset_counter` that tells EKF2 to restart vision fusion.
//!
//! The caller runs the ticker and the UART; each tick it reports the time and
//! whether a fresh, valid pose arrived, and performs the returned plan.

use vstd::prelude::*;

use crate::portal::{settings_check, Settings, SettingsView};

verus! {

/// What to do on one tick.
#[derive(Debug, Clone, Copy, PartialEq, Eq, Structural)]
pub struct TickPlan {
    /// Send a HEARTBEAT first
    pub heartbeat: bool,
    /// Send a VISION_POSITION_ESTIMATE of the fresh pose with this reset counter
    pub vpe_reset_counter: Option<u8>,
    /// Tracking was (re)acquired on this tick
    pub acquired: bool,
    /// Tracking was declared lost on this tick: stop sending so EKF2 coasts
    pub lost: bool,
}

/// Transmit state of the bridge.
pub struct Bridge {
    ticks_per_heartbeat: u64,
    track_timeout_us: u64,
    tick: u64,
    tracking_active: bool,
    ever_tracked: bool,
    last_valid_us: u64,
    reset_counter: u8,
}

pub struct BridgeView {
    pub ticks_per_heartbeat: u64,
    pub track_timeout_us: u64,
    pub tick: u64,
    pub tracking_active: bool,
    pub ever_tracked: bool,
    pub last_valid_us: u64,
    pub reset_counter: u8,
}

impl View for Bridge {
    type V = BridgeView;

    closed spec fn view(&self) -> BridgeView {
        BridgeView {
            ticks_per_heartbeat: self.ticks_per_heartbeat,
            track_timeout_us: self.track_timeout_us,
            tick: self.tick,
            tracking_active: self.tracking_active,
            ever_tracked: self.ever_tracked,
            last_valid_us: self.last_valid_us,
            reset_counter: self.reset_counter,
        }
    }
}

/// The counter after a reacquisition (wrapping after 255).
pub open spec fn bumped(c: u8) -> u8 {
    if c == 255 {
        0
    } else {
        (c + 1) as u8
    }
}

/// One tick: `now_us` is the time, `fresh` whether a new valid pose arrived
/// since the last tick.
pub open spec fn bridge_step(b: BridgeView, now_us: u64, fresh: bool) -> (BridgeView, TickPlan) {
    let heartbeat = b.tick % b.ticks_per_heartbeat == 0;
    let tick = (b.tick + 1) as u64;
    if fresh {
        let counter = if !b.tracking_active && b.ever_tracked {
            bumped(b.reset_counter)
        } else {
            b.reset_counter
        };
        (
            BridgeView {
                tick,
                tracking_active: true,
                ever_tracked: true,
                last_valid_us: now_us,
                reset_counter: counter,
                ..b
            },
            TickPlan {
                heartbeat,
                vpe_reset_counter: Some(counter),
                acquired: !b.tracking_active,
                lost: false,
            },
        )
    } else if b.tracking_active && now_us - b.last_valid_us > b.track_timeout_us {
        (
            BridgeView { tick, tracking_active: false, ..b },
            TickPlan { heartbeat, vpe_reset_counter: None, acquired: false, lost: true },
        )
    } else {
        (
            BridgeView { tick, ..b },
            TickPlan { heartbeat, vpe_reset_counter: None, acquired: false, lost: false },
        )
    }
}

/// The state a bridge starts in for settings `s`, at time `now_us`.
pub open spec fn bridge_start(
    vpe_rate_hz: u16,
    heartbeat_rate_hz: u16,
    track_timeout_ms: u32,
    now_us: u64,
) -> BridgeView {
    BridgeView {
        ticks_per_heartbeat: (vpe_rate_hz / heartbeat_rate_hz) as u64,
        track_timeout_us: (track_timeout_ms * 1000) as u64,
        tick: 0,
        tracking_active: false,
        ever_tracked: false,
        last_valid_us: now_us,
        reset_counter: 0,
    }
}

impl Bridge {
    pub closed spec fn wf(&self) -> bool {
        self.ticks_per_heartbeat > 0
    }

    /// A bridge for valid settings, started at `now_us`.
    pub fn new(s: &Settings, now_us: u64) -> (r: Self)
        requires
            settings_check(s@) is Ok,
        ensures
            r.wf(),
            r@ == bridge_start(s.vpe_rate_hz, s.heartbeat_rate_hz, s.track_timeout_ms, now_us),
    {
        let ticks: u64 = (s.vpe_rate_hz / s.heartbeat_rate_hz) as u64;
        assert(s.vpe_rate_hz / s.heartbeat_rate_hz >= 1) by (nonlinear_arith)
            requires
                s.heartbeat_rate_hz > 0,
                s.vpe_rate_hz >= s.heartbeat_rate_hz,
        ;
        Bridge {
            ticks_per_heartbeat: ticks,
            track_timeout_us: s.track_timeout_ms as u64 * 1000,
            tick: 0,
            tracking_active: false,
            ever_tracked: false,
            last_valid_us: now_us,
            reset_counter: 0,
        }
    }

    /// Decides one tick. `now_us` must not run backwards.
    pub fn step(&mut self, now_us: u64, fresh: bool) -> (r: TickPlan)
        requires
            old(self).wf(),
            now_us >= old(self)@.last_valid_us,
            old(self)@.tick < u64::MAX,
        ensures
            final(self).wf(),
            (final(self)@, r) == bridge_step(old(self)@, now_us, fresh),
    {
        let heartbeat: bool = self.tick % self.ticks_per_heartbeat == 0;
        self.tick = self.tick + 1;
        if fresh {
            // Recovered after a tracking gap -> tell EKF2 to reset vision fusion.
            let acquired: bool = !self.tracking_active;
            if !self.tracking_active {
                if self.ever_tracked {
                    self.reset_counter = self.reset_counter.wrapping_add(1);
                }
                self.tracking_active = true;
            }
            self.ever_tracked = true;
            self.last_valid_us = now_us;
            TickPlan {
                heartbeat,
                vpe_reset_counter: Some(self.reset_counter),
                acquired,
                lost: false,
            }
        } else if self.tracking_active && now_us - self.last_valid_us > self.track_timeout_us {
            // No fresh/valid pose for a while: stop sending, let EKF2 coast.
            self.tracking_active = false;
            TickPlan { heartbeat, vpe_reset_counter: None, acquired: false, lost: true }
        } else {
            TickPlan { heartbeat, vpe_reset_counter: None, acquired: false, lost: false }
        }
    }

    /// Whether `step` can take a tick at `now_us`: time has not run back
    /// before the last valid pose and the tick counter has room.
    pub fn can_step(&self, now_us: u64) -> (r: bool)
        ensures
            r == (now_us >= self@.last_valid_us && self@.tick < u64::MAX),
    {
        now_us >= self.last_valid_us && self.tick < u64::MAX
    }

    /// Whether the bridge is currently streaming poses.
    pub fn tracking(&self) -> (r: bool)
        ensures
            r == self@.tracking_active,
    {
        self.tracking_active
    }
}

/// On valid settings, a bridge sends one HEARTBEAT per `vpe / heartbeat`
/// ticks, a whole number of VPE ticks: heartbeats go out at exactly the
/// configured heartbeat rate.
pub proof fn lemma_heartbeat_period_exact(s: SettingsView, now_us: u64)
    requires
        settings_check(s) is Ok,
    ensures
        bridge_start(s.vpe_rate_hz, s.heartbeat_rate_hz, s.track_timeout_ms, now_us).ticks_per_heartbeat
            * s.heartbeat_rate_hz == s.vpe_rate_hz,
        bridge_start(s.vpe_rate_hz, s.heartbeat_rate_hz, s.track_timeout_ms, now_us).ticks_per_heartbeat
            >= 1,
{
    let v = s.vpe_rate_hz as int;
    let h = s.heartbeat_rate_hz as int;
    assert(h > 0 && v % h == 0 && v >= h);
    assert((v / h) * h == v && v / h >= 1) by (nonlinear_arith)
        requires
            h > 0,
            v % h == 0,
            v >= h,
    {
        vstd::arithmetic::div_mod::lemma_fundamental_div_mod(v, h);
    }
}

/// A pose goes out on a tick exactly when a fresh valid pose arrived on it.
pub proof fn lemma_pose_sent_only_when_fresh(b: BridgeView, now_us: u64, fresh: bool)
    ensures
        (bridge_step(b, now_us, fresh).1.vpe_reset_counter is Some) == fresh,
{
}

/// The first pose ever sent carries reset counter 0.
pub proof fn lemma_first_fix_keeps_counter(
    vpe_rate_hz: u16,
    heartbeat_rate_hz: u16,
    track_timeout_ms: u32,
    start_us: u64,
    now_us: u64,
)
    ensures
        bridge_step(
            bridge_start(vpe_rate_hz, heartbeat_rate_hz, track_timeout_ms, start_us),
            now_us,
            true,
        ).1.vpe_reset_counter == Some(0u8),
{
}

/// Reacquiring tracking after it was lost increments the reset counter (wrapping).
pub proof fn lemma_reacquisition_bumps_counter(b: BridgeView, now_us: u64)
    requires
        !b.tracking_active,
        b.ever_tracked,
    ensures
        bridge_step(b, now_us, true).1.vpe_reset_counter == Some(bumped(b.reset_counter)),
        bridge_step(b, now_us, true).1.acquired,
{
}

/// While tracking continues, the reset counter does not change.
pub proof fn lemma_steady_tracking_keeps_counter(b: BridgeView, now_us: u64, fresh: bool)
    requires
        b.tracking_active,
    ensures
        bridge_step(b, now_us, fresh).0.reset_counter == b.reset_counter,
{
}

/// Tracking is declared lost only when no fresh pose arrived and more than the
/// timeout passed since the last valid one; until then it stays active.
pub proof fn lemma_loss_needs_timeout(b: BridgeView, now_us: u64, fresh: bool)
    requires
        b.tracking_active,
    ensures
        bridge_step(b, now_us, fresh).1.lost <==> (!fresh && now_us - b.last_valid_us
            > b.track_timeout_us),
        bridge_step(b, now_us, fresh).0.tracking_active <==> !bridge_step(b, now_us, fresh).1.lost,
{
}

/// Once lost, no pose is sent and tracking stays lost until a fresh pose arrives.
pub proof fn lemma_lost_stays_silent(b: BridgeView, now_us: u64)
    requires
        !b.tracking_active,
    ensures
        bridge_step(b, now_us, false).1.vpe_reset_counter is None,
        !bridge_step(b, now_us, false).0.tracking_active,
{
}

/// Heartbeats go out on every `ticks_per_heartbeat`-th tick, starting with the first.
pub proof fn lemma_heartbeat_schedule(b: BridgeView, now_us: u64, fresh: bool)
    requires
        b.ticks_per_heartbeat > 0,
        b.tick < u64::MAX,
    ensures
        bridge_step(b, now_us, fresh).1.heartbeat <==> b.tick % b.ticks_per_heartbeat == 0,
        bridge_step(b, now_us, fresh).0.tick == b.tick + 1,
        bridge_step(b, now_us, fresh).0.ticks_per_heartbeat == b.ticks_per_heartbeat,
{
}

/// Whether a tick reacquires tracking: a fresh pose arrives after tracking
/// was lost (the very first fix does not count).
pub open spec fn reacquires(b: BridgeView, fresh: bool) -> bool {
    fresh && !b.tracking_active && b.ever_tracked
}

/// The bridge after a run of ticks, each a time and whether a fresh valid
/// pose arrived.
pub open spec fn bridge_run(b: BridgeView, ticks: Seq<(u64, bool)>) -> BridgeView
    decreases ticks.len(),
{
    if ticks.len() == 0 {
        b
    } else {
        bridge_run(bridge_step(b, ticks[0].0, ticks[0].1).0, ticks.drop_first())
    }
}

/// How many ticks of a run reacquire tracking.
pub open spec fn reacquisitions(b: BridgeView, ticks: Seq<(u64, bool)>) -> nat
    decreases ticks.len(),
{
    if ticks.len() == 0 {
        0
    } else {
        (if reacquires(b, ticks[0].1) {
            1nat
        } else {
            0nat
        }) + reacquisitions(bridge_step(b, ticks[0].0, ticks[0].1).0, ticks.drop_first())
    }
}

/// Over any run of ticks the reset counter moves on by the number of
/// reacquisitions, modulo 256; the tick counter by the number of ticks.
pub proof fn lemma_run_counts(b: BridgeView, ticks: Seq<(u64, bool)>)
    requires
        b.tick + ticks.len() <= u64::MAX,
    ensures
        bridge_run(b, ticks).reset_counter == (b.reset_counter + reacquisitions(b, ticks)) % 256,
        bridge_run(b, ticks).tick == b.tick + ticks.len(),
        bridge_run(b, ticks).ticks_per_heartbeat == b.ticks_per_heartbeat,
        bridge_run(b, ticks).track_timeout_us == b.track_timeout_us,
    decreases ticks.len(),
{
    if ticks.len() > 0 {
        let b1 = bridge_step(b, ticks[0].0, ticks[0].1).0;
        let rest = ticks.drop_first();
        lemma_run_counts(b1, rest);
        let c = b.reset_counter as int;
        let r1 = reacquisitions(b1, rest) as int;
        if reacquires(b, ticks[0].1) {
            assert(b1.reset_counter == (c + 1) % 256);
            vstd::arithmetic::div_mod::lemma_add_mod_noop(c + 1, r1, 256);
            vstd::arithmetic::div_mod::lemma_add_mod_noop_right((c + 1) % 256, r1, 256);
        } else {
            assert(b1.reset_counter == c);
        }
    }
}

/// From the start, every pose the bridge sends carries the number of
/// reacquisitions so far, modulo 256: 0 until tracking is first lost and
/// found again.
pub proof fn lemma_pose_counter_counts_reacquisitions(
    vpe_rate_hz: u16,
    heartbeat_rate_hz: u16,
    track_timeout_ms: u32,
    start_us: u64,
    ticks: Seq<(u64, bool)>,
    now_us: u64,
)
    requires
        ticks.len() < u64::MAX,
    ensures
        ({
            let b0 = bridge_start(vpe_rate_hz, heartbeat_rate_hz, track_timeout_ms, start_us);
            let before = bridge_run(b0, ticks);
            bridge_step(before, now_us, true).1.vpe_reset_counter == Some(
                ((reacquisitions(b0, ticks) + if reacquires(before, true) {
                    1nat
                } else {
                    0nat
                }) % 256) as u8,
            )
        }),
{
    let b0 = bridge_start(vpe_rate_hz, heartbeat_rate_hz, track_timeout_ms, start_us);
    lemma_run_counts(b0, ticks);
    let before = bridge_run(b0, ticks);
    let r = reacquisitions(b0, ticks) as int;
    assert(before.reset_counter == r % 256);
    if reacquires(before, true) {
        vstd::arithmetic::div_mod::lemma_add_mod_noop_right(1, r, 256);
        assert(bumped(before.reset_counter) == (r % 256 + 1) % 256);
    }
}

/// On valid settings, the bridge writes a HEARTBEAT on tick `k` (counting
/// from 0) exactly when `k` is a multiple of `vpe / heartbeat`, whatever
/// poses came before.
pub proof fn lemma_heartbeat_on_tick(s: SettingsView, start_us: u64, ticks: Seq<(u64, bool)>, now_us: u64, fresh: bool)
    requires
        settings_check(s) is Ok,
        ticks.len() < u64::MAX,
    ensures
        ({
            let b0 = bridge_start(s.vpe_rate_hz, s.heartbeat_rate_hz, s.track_timeout_ms, start_us);
            bridge_step(bridge_run(b0, ticks), now_us, fresh).1.heartbeat <==> (ticks.len() as int) % (
            (s.vpe_rate_hz / s.heartbeat_rate_hz) as int) == 0
        }),
{
    let b0 = bridge_start(s.vpe_rate_hz, s.heartbeat_rate_hz, s.track_timeout_ms, start_us);
    lemma_heartbeat_period_exact(s, start_us);
    lemma_run_counts(b0, ticks);
}

/// The loss timeout is the configured one, through any run: once tracking
/// is active, a tick declares it lost exactly when no fresh pose arrived and
/// more than `track_timeout_ms` milliseconds passed since the last valid pose.
pub proof fn lemma_loss_uses_configured_timeout(
    vpe_rate_hz: u16,
    heartbeat_rate_hz: u16,
    track_timeout_ms: u32,
    start_us: u64,
    ticks: Seq<(u64, bool)>,
    now_us: u64,
    fresh: bool,
)
    requires
        ticks.len() < u64::MAX,
        bridge_run(
            bridge_start(vpe_rate_hz, heartbeat_rate_hz, track_timeout_ms, start_us),
            ticks,
        ).tracking_active,
        now_us >= bridge_run(
            bridge_start(vpe_rate_hz, heartbeat_rate_hz, track_timeout_ms, start_us),
            ticks,
        ).last_valid_us,
    ensures
        ({
            let b = bridge_run(
                bridge_start(vpe_rate_hz, heartbeat_rate_hz, track_timeout_ms, start_us),
                ticks,
            );
            bridge_step(b, now_us, fresh).1.lost <==> !fresh && now_us - b.last_valid_us
                > track_timeout_ms as int * 1000
        }),
{
    let b0 = bridge_start(vpe_rate_hz, heartbeat_rate_hz, track_timeout_ms, start_us);
    lemma_run_counts(b0, ticks);
    assert(track_timeout_ms as int * 1000 <= u64::MAX);
}

} // verus!
