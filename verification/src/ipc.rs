//! Control-plane message shapes: the requests a CLI sends to the daemon and
//! the payloads the daemon answers with. The wire encoding lives with the
//! I/O layer; these are the plain values.

use vstd::prelude::*;

verus! {

/// A control request from the CLI to the daemon.
#[derive(Debug, Clone)]
pub enum CommandRequest {
    Help,
    Clients,
    List,
    SetOffset { pid: i32, offset: u32 },
    Quit,
    Exit,
}

/// The daemon's reply envelope: a status, an optional human-readable
/// message, and an optional payload.
#[derive(Debug, Clone)]
pub struct RpcResponse<T> {
    pub status: String,
    pub message: Option<String>,
    pub data: Option<T>,
}

/// One active client as reported to the control plane, with its resolved
/// process identity when available.
#[derive(Debug, Clone)]
pub struct ClientInfoPayload {
    pub pid: i32,
    pub client_id: u32,
    pub channel_offset: u32,
    pub process_name: Option<String>,
    pub responsible_pid: Option<i32>,
    pub responsible_name: Option<String>,
}

/// Acknowledgement of one routing update.
#[derive(Debug, Clone)]
pub struct RoutingUpdateAck {
    pub pid: i32,
    pub channel_offset: u32,
}

/// One custom property of the driver, as listed to the control plane.
#[derive(Debug, Clone)]
pub struct CustomPropertyPayload {
    pub selector: u32,
    pub property_data_type: u32,
    pub qualifier_data_type: u32,
}

/// One line of the CLI help catalogue.
#[derive(Debug, Clone)]
pub struct HelpEntry {
    pub command: String,
    pub usage: String,
    pub description: String,
}

impl HelpEntry {
    /// Bundle one help line.
    pub fn new(command: String, usage: String, description: String) -> (r: HelpEntry)
        ensures
            r.command == command,
            r.usage == usage,
            r.description == description,
    {
        HelpEntry { command, usage, description }
    }
}

} // verus!
