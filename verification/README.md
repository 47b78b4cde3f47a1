# lamp_schedule

Core logic of an ESP32-C3 lamp that follows a daily light schedule sent by a
backend over a WebSocket, proved with Verus.

- `src/light_state.rs`: light state (intensity, temperature, mode) and the
  partial `SetLight` update.
- `src/light_schedule.rs`: schedule points, a stable insertion sort by time of
  day, and circular 24h linear interpolation, with the laws of both.
- `src/control.rs`: one tick of the main loop (schedule, breathing fallback,
  manual mode).
- `src/ws_client.rs`: backend messages, command handling, classification of
  socket reads.
- `src/time_sync.rs`: clock synchronisation decisions and timestamp
  formatting.
- `src/telemetry.rs`, `src/led.rs`, `src/led_pwm.rs`: health report, gray
  level of the RGB LED, PWM duty cycle.
- `app/`: the firmware around the library (ESP-IDF drivers, SNTP, WebSocket
  transport, JSON, threads).
