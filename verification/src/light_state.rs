//! The light state shared by the whole firmware.

use vstd::prelude::*;

verus! {

/// Who drives the LED.
///
/// `Auto`: the firmware follows the schedule (or the breathing fallback).
/// `Manual`: the LED stays at `intensity` until told otherwise.
#[derive(Debug, Clone, Copy, PartialEq, Eq, Structural)]
pub enum Mode {
    Manual,
    Auto,
}

impl Default for Mode {
    fn default() -> (m: Self)
        ensures
            m == Mode::Auto,
    {
        Mode::Auto
    }
}

/// The lamp as the firmware sees it.
///
/// - `intensity` in [0, 100]: perceived brightness
/// - `temperature` in [0, 100]: 0 = warm, 100 = cold
/// - `mode`: Manual | Auto
#[derive(Debug, Clone, Copy, PartialEq, Eq, Structural)]
pub struct LightState {
    pub intensity: u8,
    pub temperature: u8,
    pub mode: Mode,
}

/// Highest value of `intensity` and `temperature`.
pub const LEVEL_MAX: u8 = 100;

/// The smaller of `v` and `LEVEL_MAX`.
pub open spec fn clamp_level(v: u8) -> u8 {
    if v <= LEVEL_MAX { v } else { LEVEL_MAX }
}

impl LightState {
    /// Both levels lie in [0, 100].
    pub open spec fn is_valid(self) -> bool {
        self.intensity <= LEVEL_MAX && self.temperature <= LEVEL_MAX
    }

    /// The state after a partial update `SetLight { intensity, temperature }`.
    pub open spec fn spec_apply_set_light(self, intensity: Option<u8>, temperature: Option<u8>) -> LightState {
        LightState {
            intensity: match intensity {
                Some(i) => clamp_level(i),
                None => self.intensity,
            },
            temperature: match temperature {
                Some(t) => clamp_level(t),
                None => self.temperature,
            },
            mode: if intensity is Some || temperature is Some {
                Mode::Manual
            } else {
                self.mode
            },
        }
    }

    /// Applies a partial update: a `Some` field is set (clamped to 100), a
    /// `None` field is left alone. Giving any field takes manual control:
    /// the mode becomes `Manual`; giving none leaves the mode as it was.
    pub fn apply_set_light(&mut self, intensity: Option<u8>, temperature: Option<u8>)
        ensures
            *final(self) == old(self).spec_apply_set_light(intensity, temperature),
    {
        let mut touched = false;
        if let Some(i) = intensity {
            self.intensity = if i <= LEVEL_MAX { i } else { LEVEL_MAX };
            touched = true;
        }
        if let Some(t) = temperature {
            self.temperature = if t <= LEVEL_MAX { t } else { LEVEL_MAX };
            touched = true;
        }
        if touched {
            self.mode = Mode::Manual;
        }
    }
}

impl Default for LightState {
    /// Boot state: breathing in Auto mode, LED off, neutral temperature.
    fn default() -> (s: Self)
        ensures
            s == (LightState { intensity: 0, temperature: 50, mode: Mode::Auto }),
    {
        LightState { intensity: 0, temperature: 50, mode: Mode::Auto }
    }
}

/// A partial update keeps both levels within [0, 100], whatever values it
/// carries.
pub proof fn lemma_set_light_keeps_valid(s: LightState, intensity: Option<u8>, temperature: Option<u8>)
    requires
        s.is_valid(),
    ensures
        s.spec_apply_set_light(intensity, temperature).is_valid(),
{
}

/// What a partial update does, field by field: a given level is set,
/// clamped to 100; a missing level is kept; giving either level switches the
/// mode to Manual, and giving neither keeps the mode.
pub proof fn lemma_set_light_fields(s: LightState, intensity: Option<u8>, temperature: Option<u8>)
    ensures
        intensity matches Some(i) ==> s.spec_apply_set_light(intensity, temperature).intensity == (
        if i > 100 {
            100
        } else {
            i
        }),
        intensity is None ==> s.spec_apply_set_light(intensity, temperature).intensity
            == s.intensity,
        temperature matches Some(t) ==> s.spec_apply_set_light(intensity, temperature).temperature
            == (if t > 100 {
            100
        } else {
            t
        }),
        temperature is None ==> s.spec_apply_set_light(intensity, temperature).temperature
            == s.temperature,
        intensity is Some ==> s.spec_apply_set_light(intensity, temperature).mode == Mode::Manual,
        temperature is Some ==> s.spec_apply_set_light(intensity, temperature).mode == Mode::Manual,
        intensity is None && temperature is None ==> s.spec_apply_set_light(
            intensity,
            temperature,
        ).mode == s.mode,
{
}

/// Sending the same partial update twice has the effect of sending it once.
pub proof fn lemma_set_light_idempotent(s: LightState, intensity: Option<u8>, temperature: Option<u8>)
    ensures
        s.spec_apply_set_light(intensity, temperature).spec_apply_set_light(intensity, temperature)
            == s.spec_apply_set_light(intensity, temperature),
{
}

/// An empty update changes nothing; in particular it does not take manual
/// control.
pub proof fn lemma_empty_set_light_is_noop(s: LightState)
    ensures
        s.spec_apply_set_light(None, None) == s,
{
}

} // verus!
