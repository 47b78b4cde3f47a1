use lamp_schedule::light_state::{LightState, Mode};

#[test]
fn default_state_is_auto_off_neutral() {
    let s = LightState::default();
    assert_eq!(s, LightState { intensity: 0, temperature: 50, mode: Mode::Auto });
    assert_eq!(Mode::default(), Mode::Auto);
}

#[test]
fn set_light_updates_given_fields_and_takes_manual_control() {
    let mut s = LightState::default();
    s.apply_set_light(Some(70), None);
    assert_eq!(s, LightState { intensity: 70, temperature: 50, mode: Mode::Manual });
    s.apply_set_light(None, Some(20));
    assert_eq!(s, LightState { intensity: 70, temperature: 20, mode: Mode::Manual });
}

#[test]
fn set_light_clamps_to_one_hundred() {
    let mut s = LightState::default();
    s.apply_set_light(Some(250), Some(101));
    assert_eq!(s, LightState { intensity: 100, temperature: 100, mode: Mode::Manual });
}

#[test]
fn empty_set_light_leaves_mode_alone() {
    let mut s = LightState::default();
    s.apply_set_light(None, None);
    assert_eq!(s, LightState::default());
}

#[test]
fn set_light_twice_is_set_light_once() {
    let mut once = LightState { intensity: 3, temperature: 4, mode: Mode::Auto };
    once.apply_set_light(Some(120), Some(7));
    let mut twice = LightState { intensity: 3, temperature: 4, mode: Mode::Auto };
    twice.apply_set_light(Some(120), Some(7));
    twice.apply_set_light(Some(120), Some(7));
    assert_eq!(once, twice);
}
