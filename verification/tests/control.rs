use lamp_schedule::control::{mode_name, ControlLoop, LoopCommand, NO_MANUAL_INTENSITY};
use lamp_schedule::light_state::{LightState, Mode};

#[test]
fn auto_follows_the_schedule() {
    let mut c = ControlLoop::new();
    let snap = LightState::default();
    assert_eq!(c.tick(&snap, Some((65, 45))), LoopCommand::ApplyAuto { intensity: 65, temperature: 45 });
    assert_eq!(c.fallback_idx, 0);
}

#[test]
fn auto_without_schedule_breathes() {
    let mut c = ControlLoop::new();
    let snap = LightState { intensity: 0, temperature: 33, mode: Mode::Auto };
    let mut seen = Vec::new();
    for _ in 0..9 {
        match c.tick(&snap, None) {
            LoopCommand::ApplyAuto { intensity, temperature } => {
                assert_eq!(temperature, 33);
                seen.push(intensity);
            }
            other => panic!("unexpected {:?}", other),
        }
    }
    assert_eq!(seen, vec![0, 25, 50, 75, 100, 75, 50, 25, 0]);
    assert_eq!(c.fallback_idx, 1);
}

#[test]
fn manual_writes_only_on_change() {
    let mut c = ControlLoop::new();
    let snap = LightState { intensity: 70, temperature: 50, mode: Mode::Manual };
    assert_eq!(c.tick(&snap, None), LoopCommand::ApplyManual { intensity: 70 });
    assert_eq!(c.tick(&snap, None), LoopCommand::Keep);
    let snap2 = LightState { intensity: 10, ..snap };
    assert_eq!(c.tick(&snap2, None), LoopCommand::ApplyManual { intensity: 10 });
}

#[test]
fn returning_to_auto_forgets_the_manual_intensity() {
    let mut c = ControlLoop::new();
    let manual = LightState { intensity: 70, temperature: 50, mode: Mode::Manual };
    c.tick(&manual, None);
    c.tick(&LightState { mode: Mode::Auto, ..manual }, Some((1, 2)));
    assert_eq!(c.last_manual_intensity, NO_MANUAL_INTENSITY);
    assert_eq!(c.tick(&manual, None), LoopCommand::ApplyManual { intensity: 70 });
}

#[test]
fn mode_names() {
    assert_eq!(mode_name(Mode::Auto), "auto");
    assert_eq!(mode_name(Mode::Manual), "manual");
}
