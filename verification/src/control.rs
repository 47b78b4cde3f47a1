//! Decisions of the main loop: in Auto mode the LED follows the schedule,
//! or a breathing cycle when no schedule or no clock is available; in
//! Manual mode the LED shows the requested intensity and is only rewritten
//! when that intensity changes.

use vstd::prelude::*;

use crate::light_state::{LightState, Mode};

verus! {

/// Number of steps in the breathing cycle.
pub const BREATHING_STEPS: usize = 8;

/// Marks that no manual intensity has been shown yet (no valid intensity
/// equals it).
pub const NO_MANUAL_INTENSITY: u8 = 255;

/// Brightness steps of the breathing cycle.
pub open spec fn breathing_steps() -> Seq<u8> {
    seq![0u8, 25u8, 50u8, 75u8, 100u8, 75u8, 50u8, 25u8]
}

/// Step `idx` of the breathing cycle.
pub fn breathing_step(idx: usize) -> (v: u8)
    requires
        idx < BREATHING_STEPS,
    ensures
        v == breathing_steps()[idx as int],
{
    match idx {
        0 => 0,
        1 => 25,
        2 => 50,
        3 => 75,
        4 => 100,
        5 => 75,
        6 => 50,
        _ => 25,
    }
}

/// State carried by the main loop between ticks.
#[derive(Debug, Clone, Copy, PartialEq, Eq, Structural)]
pub struct ControlLoop {
    /// Next step of the breathing cycle.
    pub fallback_idx: usize,
    /// Intensity last shown in Manual mode (`NO_MANUAL_INTENSITY` when the
    /// LED was last driven in Auto mode).
    pub last_manual_intensity: u8,
}

/// What the main loop does on one tick.
#[derive(Debug, Clone, Copy, PartialEq, Eq, Structural)]
pub enum LoopCommand {
    /// Show `intensity` on the LED and store both levels in the light state.
    ApplyAuto { intensity: u8, temperature: u8 },
    /// Show `intensity` on the LED.
    ApplyManual { intensity: u8 },
    /// Leave the LED as it is.
    Keep,
}

/// The next loop state and the command of one tick, for the light state
/// `snapshot` and the levels `scheduled` by the schedule at the current time
/// (`None` when there is no schedule or no synchronised clock).
pub open spec fn spec_tick(c: ControlLoop, snapshot: LightState, scheduled: Option<(u8, u8)>) -> (
    ControlLoop,
    LoopCommand,
) {
    match snapshot.mode {
        Mode::Auto => match scheduled {
            Some((i, t)) => (
                ControlLoop { last_manual_intensity: NO_MANUAL_INTENSITY, ..c },
                LoopCommand::ApplyAuto { intensity: i, temperature: t },
            ),
            None => (
                ControlLoop {
                    fallback_idx: ((c.fallback_idx + 1) % (BREATHING_STEPS as int)) as usize,
                    last_manual_intensity: NO_MANUAL_INTENSITY,
                },
                LoopCommand::ApplyAuto {
                    intensity: breathing_steps()[c.fallback_idx as int],
                    temperature: snapshot.temperature,
                },
            ),
        },
        Mode::Manual => if snapshot.intensity != c.last_manual_intensity {
            (
                ControlLoop { last_manual_intensity: snapshot.intensity, ..c },
                LoopCommand::ApplyManual { intensity: snapshot.intensity },
            )
        } else {
            (c, LoopCommand::Keep)
        },
    }
}

impl ControlLoop {
    /// State at boot: breathing from its first step, nothing shown manually.
    pub fn new() -> (c: Self)
        ensures
            c == (ControlLoop { fallback_idx: 0, last_manual_intensity: NO_MANUAL_INTENSITY }),
    {
        ControlLoop { fallback_idx: 0, last_manual_intensity: NO_MANUAL_INTENSITY }
    }

    /// One tick of the main loop (see `spec_tick`).
    pub fn tick(&mut self, snapshot: &LightState, scheduled: Option<(u8, u8)>) -> (cmd: LoopCommand)
        requires
            old(self).fallback_idx < BREATHING_STEPS,
        ensures
            (*final(self), cmd) == spec_tick(*old(self), *snapshot, scheduled),
            final(self).fallback_idx < BREATHING_STEPS,
    {
        match snapshot.mode {
            Mode::Auto => {
                self.last_manual_intensity = NO_MANUAL_INTENSITY;
                match scheduled {
                    Some((i, t)) => LoopCommand::ApplyAuto { intensity: i, temperature: t },
                    None => {
                        let i = breathing_step(self.fallback_idx);
                        self.fallback_idx = (self.fallback_idx + 1) % BREATHING_STEPS;
                        LoopCommand::ApplyAuto { intensity: i, temperature: snapshot.temperature }
                    },
                }
            },
            Mode::Manual => {
                if snapshot.intensity != self.last_manual_intensity {
                    self.last_manual_intensity = snapshot.intensity;
                    LoopCommand::ApplyManual { intensity: snapshot.intensity }
                } else {
                    LoopCommand::Keep
                }
            },
        }
    }
}

/// The loop state after `k` ticks with the same light state and no schedule.
pub open spec fn ticks_without_schedule(c: ControlLoop, snapshot: LightState, k: nat) -> ControlLoop
    decreases k,
{
    if k == 0 {
        c
    } else {
        spec_tick(ticks_without_schedule(c, snapshot, (k - 1) as nat), snapshot, None).0
    }
}

proof fn lemma_auto_fallback_advances(c: ControlLoop, snapshot: LightState, k: nat)
    requires
        snapshot.mode == Mode::Auto,
        c.fallback_idx < BREATHING_STEPS,
        k > 0,
    ensures
        ticks_without_schedule(c, snapshot, k) == (ControlLoop {
            fallback_idx: ((c.fallback_idx + k) % (BREATHING_STEPS as int)) as usize,
            last_manual_intensity: NO_MANUAL_INTENSITY,
        }),
    decreases k,
{
    if k > 1 {
        lemma_auto_fallback_advances(c, snapshot, (k - 1) as nat);
        let prev = ticks_without_schedule(c, snapshot, (k - 1) as nat);
        let x: int = c.fallback_idx + k - 1;
        vstd::arithmetic::div_mod::lemma_add_mod_noop(x, 1, 8);
        assert(prev.fallback_idx == x % 8);
        assert((x % 8 + 1) % 8 == (x + 1) % 8);
        assert(ticks_without_schedule(c, snapshot, k) == spec_tick(prev, snapshot, None).0);
    } else {
        assert(ticks_without_schedule(c, snapshot, 0) == c);
    }
}

/// Without a schedule, Auto mode breathes in a cycle: the `k`-th tick from
/// a state shows step `(start + k) % 8` of the cycle, and after eight ticks
/// the cycle is back where it started.
pub proof fn lemma_breathing_cycle(c: ControlLoop, snapshot: LightState, k: nat)
    requires
        snapshot.mode == Mode::Auto,
        c.fallback_idx < BREATHING_STEPS,
    ensures
        spec_tick(ticks_without_schedule(c, snapshot, k), snapshot, None).1 == (
        LoopCommand::ApplyAuto {
            intensity: breathing_steps()[(c.fallback_idx + k) % (BREATHING_STEPS as int)],
            temperature: snapshot.temperature,
        }),
        ticks_without_schedule(c, snapshot, 8).fallback_idx == c.fallback_idx,
{
    if k > 0 {
        lemma_auto_fallback_advances(c, snapshot, k);
    }
    lemma_auto_fallback_advances(c, snapshot, 8);
}

/// In Manual mode the LED is written once per new intensity: a tick right
/// after showing an intensity, with the same light state, keeps the LED.
pub proof fn lemma_manual_writes_once(c: ControlLoop, snapshot: LightState)
    requires
        snapshot.mode == Mode::Manual,
    ensures
        spec_tick(spec_tick(c, snapshot, None).0, snapshot, None).1 == LoopCommand::Keep,
{
}

/// Manual mode ignores the schedule: the LED shows the requested intensity
/// when it differs from the one last shown manually, and is kept otherwise;
/// the breathing cycle does not move.
pub proof fn lemma_manual_ignores_schedule(
    c: ControlLoop,
    snapshot: LightState,
    scheduled: Option<(u8, u8)>,
)
    requires
        snapshot.mode == Mode::Manual,
    ensures
        snapshot.intensity != c.last_manual_intensity ==> spec_tick(c, snapshot, scheduled) == (
        ControlLoop {
            fallback_idx: c.fallback_idx,
            last_manual_intensity: snapshot.intensity,
        },
        LoopCommand::ApplyManual { intensity: snapshot.intensity }),
        snapshot.intensity == c.last_manual_intensity ==> spec_tick(c, snapshot, scheduled) == (
        c,
        LoopCommand::Keep),
        spec_tick(c, snapshot, scheduled) == spec_tick(c, snapshot, None),
{
}

/// Auto mode follows the schedule when it gives levels: the LED shows them
/// and the light state takes both, whatever the light state held before.
pub proof fn lemma_auto_follows_schedule(c: ControlLoop, snapshot: LightState, i: u8, t: u8)
    requires
        snapshot.mode == Mode::Auto,
    ensures
        spec_tick(c, snapshot, Some((i, t))).1 == (LoopCommand::ApplyAuto {
            intensity: i,
            temperature: t,
        }),
        spec_tick(c, snapshot, Some((i, t))).0.fallback_idx == c.fallback_idx,
{
}

/// Mode names used in telemetry reports.
pub fn mode_name(mode: Mode) -> (s: &'static str)
    ensures
        mode == Mode::Auto ==> s@ == "auto"@,
        mode == Mode::Manual ==> s@ == "manual"@,
{
    match mode {
        Mode::Auto => "auto",
        Mode::Manual => "manual",
    }
}

} // verus!
