//! Wire and boundary message shapes: the frames the relay sends to its
//! clients, the one inbound frame it interprets, and the bodies the HTTP
//! boundary answers with.

use vstd::prelude::*;
use vstd::string::*;

verus! {

/// A frame that carries only the `type` discriminator, such as the
/// heartbeat probe and its acknowledgement.
pub struct SimpleMessage {
    pub msg_type: String,
}

/// The script-execution directive broadcast to every executor client.
pub struct ExecuteMessage {
    pub msg_type: String,
    pub script: String,
    pub filename: String,
    pub timestamp: String,
}

/// The body answered on a script submission: a definite outcome
/// classification with a numeric tally where one applies.
pub struct ExecuteResponse {
    pub success: bool,
    pub message: Option<String>,
    pub error: Option<String>,
    pub clients_reached: Option<usize>,
    pub total_clients: Option<usize>,
}

/// The body answered on a status query.
pub struct StatusResponse {
    pub status: String,
    pub connected_clients: usize,
    pub timestamp: String,
}

/// The single text frame of the liveness probe.
pub fn ping_text() -> (s: &'static str)
    ensures
        s@ == "{\"type\":\"ping\"}"@,
{
    "{\"type\":\"ping\"}"
}

impl SimpleMessage {
    /// Whether this inbound frame is the heartbeat acknowledgement; every
    /// other frame shape is accepted but ignored.
    pub fn is_heartbeat_ack(&self) -> (b: bool)
        ensures
            b == (self.msg_type@ == "pong"@),
    {
        let tag: String = String::from_str("pong");
        self.msg_type == tag
    }
}

/// Relies on chrono::Local::now and DateTime::to_rfc3339: the present
/// reading of the system clock, rendered as an RFC 3339 string. The clock
/// is outside state, so nothing is promised of the text.
#[verifier::external_body]
fn now_rfc3339() -> String {
    chrono::Local::now().to_rfc3339()
}

impl ExecuteMessage {
    /// The script-execution directive: the fixed execute tag plus script,
    /// original filename and submission timestamp.
    pub fn new(script: String, filename: String, timestamp: String) -> (m: ExecuteMessage)
        ensures
            m.msg_type@ == "execute"@,
            m.script == script,
            m.filename == filename,
            m.timestamp == timestamp,
    {
        ExecuteMessage {
            msg_type: String::from_str("execute"),
            script,
            filename,
            timestamp,
        }
    }

    /// The script-execution directive stamped with the clock's present
    /// reading.
    pub fn now(script: String, filename: String) -> (m: ExecuteMessage)
        ensures
            m.msg_type@ == "execute"@,
            m.script == script,
            m.filename == filename,
    {
        let timestamp = now_rfc3339();
        ExecuteMessage::new(script, filename, timestamp)
    }
}

impl ExecuteResponse {
    /// A rejection or failure report: no tally, only the error text.
    pub fn failure(error: String) -> (r: ExecuteResponse)
        ensures
            !r.success,
            r.message is None,
            r.error == Some(error),
            r.clients_reached is None,
            r.total_clients is None,
    {
        ExecuteResponse {
            success: false,
            message: None,
            error: Some(error),
            clients_reached: None,
            total_clients: None,
        }
    }
}

impl StatusResponse {
    /// The status-query body: the relay is running, with the connected-set
    /// size read from the registry and the given timestamp.
    pub fn running(connected_clients: usize, timestamp: String) -> (r: StatusResponse)
        ensures
            r.status@ == "running"@,
            r.connected_clients == connected_clients,
            r.timestamp == timestamp,
    {
        StatusResponse {
            status: String::from_str("running"),
            connected_clients,
            timestamp,
        }
    }
}

} // verus!
