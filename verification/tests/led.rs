use lamp_schedule::led::{gray_level, gray_pixel};
use lamp_schedule::led_pwm::pwm_duty;

#[test]
fn gray_levels() {
    assert_eq!(gray_level(0), 0);
    assert_eq!(gray_level(50), 128);
    assert_eq!(gray_level(1), 2);
    assert_eq!(gray_level(3), 7);
    assert_eq!(gray_level(49), 124);
    assert_eq!(gray_level(51), 130);
    assert_eq!(gray_level(99), 252);
    assert_eq!(gray_level(100), 255);
    assert_eq!(gray_level(200), 255);
    assert_eq!(gray_pixel(50), (128, 128, 128));
}

#[test]
fn pwm_duties() {
    assert_eq!(pwm_duty(8191, 0), 0);
    assert_eq!(pwm_duty(8191, 50), 4095);
    assert_eq!(pwm_duty(8191, 100), 8191);
    assert_eq!(pwm_duty(8191, 255), 8191);
}
