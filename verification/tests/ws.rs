use lamp_schedule::light_schedule::{LightScheduler, SchedulePoint};
use lamp_schedule::light_state::{LightState, Mode};
use lamp_schedule::ws_client::{
    ends_connection, handle_incoming, read_event, FrameEvent, IncomingMessage, OutgoingMessage,
};

fn ack(name: &str) -> Option<OutgoingMessage> {
    Some(OutgoingMessage::Ack { command: name.to_string() })
}

#[test]
fn set_light_is_applied_and_acknowledged() {
    let mut state = LightState::default();
    let mut sched = LightScheduler::default();
    let reply = handle_incoming(
        IncomingMessage::SetLight { intensity: Some(80), temperature: None },
        &mut state,
        &mut sched,
    );
    assert_eq!(reply, ack("SetLight"));
    assert_eq!(state, LightState { intensity: 80, temperature: 50, mode: Mode::Manual });
}

#[test]
fn set_mode_is_applied_and_acknowledged() {
    let mut state = LightState { intensity: 10, temperature: 20, mode: Mode::Manual };
    let mut sched = LightScheduler::default();
    let reply = handle_incoming(IncomingMessage::SetMode { mode: Mode::Auto }, &mut state, &mut sched);
    assert_eq!(reply, ack("SetMode"));
    assert_eq!(state, LightState { intensity: 10, temperature: 20, mode: Mode::Auto });
}

#[test]
fn request_state_replies_with_the_state() {
    let mut state = LightState { intensity: 10, temperature: 20, mode: Mode::Manual };
    let mut sched = LightScheduler::default();
    let reply = handle_incoming(IncomingMessage::RequestState, &mut state, &mut sched);
    assert_eq!(reply, Some(OutgoingMessage::LightState(state)));
}

#[test]
fn hello_changes_nothing() {
    let mut state = LightState::default();
    let mut sched = LightScheduler::default();
    let reply = handle_incoming(
        IncomingMessage::Hello { device_id: "backend".to_string() },
        &mut state,
        &mut sched,
    );
    assert_eq!(reply, None);
    assert_eq!(state, LightState::default());
    assert!(!sched.has_schedule());
}

#[test]
fn sync_schedule_loads_the_schedule() {
    let mut state = LightState::default();
    let mut sched = LightScheduler::default();
    let points = vec![
        SchedulePoint { hour: 12, minute: 0, intensity: 90, temperature: 60 },
        SchedulePoint { hour: 6, minute: 0, intensity: 40, temperature: 30 },
    ];
    let reply = handle_incoming(IncomingMessage::SyncSchedule { points }, &mut state, &mut sched);
    assert_eq!(reply, ack("SyncSchedule"));
    assert!(sched.has_schedule());
    assert_eq!(sched.evaluate(9, 0), Some((65, 45)));
    assert_eq!(state, LightState::default());
}

#[test]
fn text_frames_are_decoded() {
    let mut buf = [0u8; 16];
    buf[..5].copy_from_slice(b"hello");
    assert_eq!(read_event(&buf, 5, 0x01), FrameEvent::Text("hello".to_string()));
    let utf = "añ".as_bytes();
    buf[..utf.len()].copy_from_slice(utf);
    assert_eq!(read_event(&buf, utf.len() as i32, 0x01), FrameEvent::Text("añ".to_string()));
}

#[test]
fn invalid_text_is_dropped() {
    let buf = [0xffu8, 0xfe, 0x41];
    assert_eq!(read_event(&buf, 3, 0x01), FrameEvent::NotText);
}

#[test]
fn other_reads() {
    let buf = [0u8; 4];
    assert_eq!(read_event(&buf, 2, 0x09), FrameEvent::Ping);
    assert_eq!(read_event(&buf, 2, 0x08), FrameEvent::Close);
    assert_eq!(read_event(&buf, 2, 0x02), FrameEvent::Ignored(0x02));
    assert_eq!(read_event(&buf, 0, 0x01), FrameEvent::PeerClosed);
    assert_eq!(read_event(&buf, -1, 0x01), FrameEvent::NoData);
    assert_eq!(read_event(&buf, -7, 0x01), FrameEvent::ReadFailed(-7));
    // only text frames read the buffer
    assert_eq!(read_event(&buf, 10, 0x09), FrameEvent::Ping);
    assert!(ends_connection(&FrameEvent::Close));
    assert!(ends_connection(&FrameEvent::PeerClosed));
    assert!(ends_connection(&FrameEvent::ReadFailed(-7)));
    assert!(!ends_connection(&FrameEvent::Ping));
    assert!(!ends_connection(&FrameEvent::NoData));
}
