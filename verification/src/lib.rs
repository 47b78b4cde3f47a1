//! Core logic of a networked lamp: the light state shared by the firmware,
//! the daily schedule with circular 24h interpolation, the control loop that
//! decides what the LED shows, the handling of backend commands, telemetry
//! reports and the clock helpers.

pub mod light_state;
pub mod light_schedule;
pub mod telemetry;
pub mod time_sync;
pub mod ws_client;
pub mod led;
pub mod led_pwm;
pub mod control;
