//! Messages exchanged with the backend over the WebSocket, what each
//! incoming command does to the light state and the schedule, and how a
//! read from the socket is classified.

use vstd::prelude::*;

use crate::light_schedule::{LightScheduler, SchedulePoint, sort_by_time};
use crate::light_state::{LightState, Mode};
use crate::telemetry::TelemetryReport;

verus! {

/// Final fragment bit of a frame's first byte.
pub const WS_OPCODE_FIN: u8 = 0x80;
/// Text frame.
pub const WS_OPCODE_TEXT: u8 = 0x01;
/// Close frame.
pub const WS_OPCODE_CLOSE: u8 = 0x08;
/// Ping frame.
pub const WS_OPCODE_PING: u8 = 0x09;
/// Pong frame.
pub const WS_OPCODE_PONG: u8 = 0x0A;
/// Opcode of an outgoing complete text frame (`TEXT | FIN`).
pub const WS_OPCODE_TEXT_FIN: u8 = 0x81;
/// Opcode of an outgoing complete pong frame (`PONG | FIN`).
pub const WS_OPCODE_PONG_FIN: u8 = 0x8A;
/// What a read that timed out without data returns.
pub const WS_READ_TIMEOUT: i32 = -1;

/// Messages the device sends.
#[derive(Debug, PartialEq, Eq)]
pub enum OutgoingMessage {
    Hello { device_id: String },
    LightState(LightState),
    Ack { command: String },
    /// Periodic health report.
    Telemetry(TelemetryReport),
}

/// Messages the device receives.
#[derive(Debug, PartialEq, Eq)]
pub enum IncomingMessage {
    Hello { device_id: String },
    SetLight { intensity: Option<u8>, temperature: Option<u8> },
    SetMode { mode: Mode },
    RequestState,
    /// The backend replaces the daily schedule.
    SyncSchedule { points: Vec<SchedulePoint> },
}

/// `reply` acknowledges the command named `name`.
pub open spec fn is_ack(reply: Option<OutgoingMessage>, name: Seq<char>) -> bool {
    reply matches Some(OutgoingMessage::Ack { command }) && command@ == name
}

/// Carries out one command from the backend on the light state and the
/// schedule, and returns the reply to send, if any:
/// - `Hello`: nothing changes, no reply;
/// - `SetLight`: partial update of the light state (taking manual control
///   when a field is given), acknowledged;
/// - `SetMode`: the mode is set, acknowledged;
/// - `RequestState`: nothing changes, the reply is the current light state;
/// - `SyncSchedule`: the schedule is replaced (sorted by time), acknowledged.
pub fn handle_incoming(
    msg: IncomingMessage,
    light_state: &mut LightState,
    scheduler: &mut LightScheduler,
) -> (reply: Option<OutgoingMessage>)
    ensures
        match msg {
            IncomingMessage::Hello { .. } => {
                &&& reply is None
                &&& *final(light_state) == *old(light_state)
                &&& final(scheduler)@ == old(scheduler)@
            },
            IncomingMessage::SetLight { intensity, temperature } => {
                &&& is_ack(reply, "SetLight"@)
                &&& *final(light_state) == old(light_state).spec_apply_set_light(
                    intensity,
                    temperature,
                )
                &&& final(scheduler)@ == old(scheduler)@
            },
            IncomingMessage::SetMode { mode } => {
                &&& is_ack(reply, "SetMode"@)
                &&& *final(light_state) == (LightState { mode, ..*old(light_state) })
                &&& final(scheduler)@ == old(scheduler)@
            },
            IncomingMessage::RequestState => {
                &&& reply == Some(OutgoingMessage::LightState(*old(light_state)))
                &&& *final(light_state) == *old(light_state)
                &&& final(scheduler)@ == old(scheduler)@
            },
            IncomingMessage::SyncSchedule { points } => {
                &&& is_ack(reply, "SyncSchedule"@)
                &&& *final(light_state) == *old(light_state)
                &&& final(scheduler)@ == sort_by_time(points@)
            },
        },
{
    match msg {
        IncomingMessage::Hello { device_id: _ } => None,
        IncomingMessage::SetLight { intensity, temperature } => {
            light_state.apply_set_light(intensity, temperature);
            Some(OutgoingMessage::Ack { command: "SetLight".to_owned() })
        },
        IncomingMessage::SetMode { mode } => {
            light_state.mode = mode;
            Some(OutgoingMessage::Ack { command: "SetMode".to_owned() })
        },
        IncomingMessage::RequestState => Some(OutgoingMessage::LightState(*light_state)),
        IncomingMessage::SyncSchedule { points } => {
            scheduler.set_schedule(points);
            Some(OutgoingMessage::Ack { command: "SyncSchedule".to_owned() })
        },
    }
}

/// `std::str::from_utf8`: the bytes read as UTF-8 text, `None` when they
/// are not valid UTF-8. Claimed: success exactly on valid UTF-8, and the
/// text is the decoding of the bytes.
#[verifier::external_body]
fn str_from_utf8(bytes: &[u8]) -> (r: Option<&str>)
    ensures
        r is Some <==> vstd::utf8::valid_utf8(bytes@),
        r matches Some(s) ==> s@ == vstd::utf8::decode_utf8(bytes@),
{
    match std::str::from_utf8(bytes) {
        Ok(s) => Some(s),
        Err(_) => None,
    }
}

/// What one read from the socket amounts to.
#[derive(Debug, PartialEq, Eq)]
pub enum FrameEvent {
    /// A text frame holding this text.
    Text(String),
    /// A text frame whose bytes are not UTF-8: it is dropped.
    NotText,
    /// A ping: answer with a pong.
    Ping,
    /// A close frame: end the connection.
    Close,
    /// A frame with another opcode: ignored.
    Ignored(u8),
    /// The peer closed the connection.
    PeerClosed,
    /// The read timed out without data.
    NoData,
    /// The read failed with this code: end the connection.
    ReadFailed(i32),
}

/// The event that a read of `bytes_read` bytes into `buf`, of a frame with
/// `opcode`, amounts to.
pub fn read_event(buf: &[u8], bytes_read: i32, opcode: u8) -> (e: FrameEvent)
    requires
        bytes_read > 0 && opcode == WS_OPCODE_TEXT ==> bytes_read <= buf.len(),
    ensures
        bytes_read > 0 && opcode == WS_OPCODE_TEXT ==> {
            let bytes = buf@.subrange(0, bytes_read as int);
            if vstd::utf8::valid_utf8(bytes) {
                e matches FrameEvent::Text(t) && t@ == vstd::utf8::decode_utf8(bytes)
            } else {
                e == FrameEvent::NotText
            }
        },
        bytes_read > 0 && opcode == WS_OPCODE_PING ==> e == FrameEvent::Ping,
        bytes_read > 0 && opcode == WS_OPCODE_CLOSE ==> e == FrameEvent::Close,
        bytes_read > 0 && opcode != WS_OPCODE_TEXT && opcode != WS_OPCODE_PING && opcode
            != WS_OPCODE_CLOSE ==> e == FrameEvent::Ignored(opcode),
        bytes_read == 0 ==> e == FrameEvent::PeerClosed,
        bytes_read == WS_READ_TIMEOUT ==> e == FrameEvent::NoData,
        bytes_read < 0 && bytes_read != WS_READ_TIMEOUT ==> e == FrameEvent::ReadFailed(bytes_read),
{
    if bytes_read > 0 {
        if opcode == WS_OPCODE_TEXT {
            let (payload, _rest) = buf.split_at(bytes_read as usize);
            match str_from_utf8(payload) {
                Some(text) => FrameEvent::Text(text.to_owned()),
                None => FrameEvent::NotText,
            }
        } else if opcode == WS_OPCODE_PING {
            FrameEvent::Ping
        } else if opcode == WS_OPCODE_CLOSE {
            FrameEvent::Close
        } else {
            FrameEvent::Ignored(opcode)
        }
    } else if bytes_read == 0 {
        FrameEvent::PeerClosed
    } else if bytes_read == WS_READ_TIMEOUT {
        FrameEvent::NoData
    } else {
        FrameEvent::ReadFailed(bytes_read)
    }
}

/// After this event the connection is given up.
pub fn ends_connection(e: &FrameEvent) -> (b: bool)
    ensures
        b <==> (*e matches FrameEvent::Close || *e matches FrameEvent::PeerClosed
            || *e matches FrameEvent::ReadFailed(_)),
{
    match e {
        FrameEvent::Close | FrameEvent::PeerClosed | FrameEvent::ReadFailed(_) => true,
        _ => false,
    }
}

} // verus!
