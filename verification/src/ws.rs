use vstd::prelude::*;
use crate::text::str_eq;

verus! {

/// The id of the `subscribe_events` command.
pub const SUBSCRIBE_COMMAND_ID: u64 = 1;

/// The message type a field read from a JSON message carries (absent
/// reads as empty).
pub open spec fn msg_type_is(msg_type: Option<Seq<char>>, t: Seq<char>) -> bool {
    match msg_type {
        Some(m) => m == t,
        None => t.len() == 0,
    }
}

/// The characters of an optional field.
pub open spec fn field_view(f: Option<&str>) -> Option<Seq<char>> {
    match f {
        Some(m) => Some(m@),
        None => None,
    }
}

/// Whether a field read as `msg_type` equals `t`.
fn msg_type_eq(msg_type: Option<&str>, t: &str) -> (r: bool)
    ensures
        r == msg_type_is(field_view(msg_type), t@),
{
    if msg_type.is_some() {
        let m: &str = msg_type.unwrap();
        let same = str_eq(m, t);
        assert(field_view(msg_type) == Some(m@));
        same
    } else {
        t.unicode_len() == 0
    }
}

/// Home Assistant's greeting asks for authentication.
pub fn is_auth_required(msg_type: Option<&str>) -> (r: bool)
    ensures
        r == msg_type_is(field_view(msg_type), "auth_required"@),
{
    msg_type_eq(msg_type, "auth_required")
}

/// Home Assistant accepted the access token.
pub fn is_auth_ok(msg_type: Option<&str>) -> (r: bool)
    ensures
        r == msg_type_is(field_view(msg_type), "auth_ok"@),
{
    msg_type_eq(msg_type, "auth_ok")
}

/// The reply to `subscribe_events` reports success (a missing `success`
/// field is a failure).
pub fn subscribe_succeeded(success: Option<bool>) -> (r: bool)
    ensures
        r == (success == Some(true)),
{
    match success {
        Some(b) => b,
        None => false,
    }
}

/// What a message read while waiting for the reply to a command means.
#[derive(Clone, Copy, Debug, PartialEq, Eq, Structural)]
pub enum CommandReply {
    /// An event, or the reply to another command: keep waiting.
    Skip,
    /// The command failed.
    Failed,
    /// The command succeeded but the reply holds no `result`.
    MissingResult,
    /// The command succeeded; its `result` is the answer.
    Accepted,
}

pub open spec fn spec_classify_command_reply(
    msg_type: Option<&str>,
    id: Option<u64>,
    success: Option<bool>,
    has_result: bool,
    cmd_id: u64,
) -> CommandReply {
    if msg_type_is(field_view(msg_type), "event"@) || id != Some(cmd_id) {
        CommandReply::Skip
    } else if success != Some(true) {
        CommandReply::Failed
    } else if !has_result {
        CommandReply::MissingResult
    } else {
        CommandReply::Accepted
    }
}

/// Reads a message met while waiting for the reply to command `cmd_id`,
/// from its `type`, `id`, `success` fields and whether it has a `result`.
pub fn classify_command_reply(
    msg_type: Option<&str>,
    id: Option<u64>,
    success: Option<bool>,
    has_result: bool,
    cmd_id: u64,
) -> (r: CommandReply)
    ensures
        r == spec_classify_command_reply(msg_type, id, success, has_result, cmd_id),
{
    if msg_type_eq(msg_type, "event") {
        return CommandReply::Skip;
    }
    match id {
        Some(i) => if i != cmd_id {
            return CommandReply::Skip;
        },
        None => return CommandReply::Skip,
    }
    let ok = match success {
        Some(b) => b,
        None => false,
    };
    if !ok {
        return CommandReply::Failed;
    }
    if !has_result {
        return CommandReply::MissingResult;
    }
    CommandReply::Accepted
}

/// What a message received while running means.
#[derive(Clone, Copy, Debug, PartialEq, Eq, Structural)]
pub enum IncomingMessage {
    /// A command result that reports failure.
    CommandFailed,
    /// A command result that does not report failure.
    CommandSucceeded,
    /// An event to process.
    Event,
    /// Anything else.
    Other,
}

pub open spec fn spec_classify_incoming(msg_type: Option<&str>, success: Option<bool>) -> IncomingMessage {
    if msg_type_is(field_view(msg_type), "result"@) {
        if success == Some(false) {
            IncomingMessage::CommandFailed
        } else {
            IncomingMessage::CommandSucceeded
        }
    } else if msg_type_is(field_view(msg_type), "event"@) {
        IncomingMessage::Event
    } else {
        IncomingMessage::Other
    }
}

/// Reads a running message from its `type` and `success` fields (a
/// result without `success` counts as a success).
pub fn classify_incoming(msg_type: Option<&str>, success: Option<bool>) -> (r: IncomingMessage)
    ensures
        r == spec_classify_incoming(msg_type, success),
{
    if msg_type_eq(msg_type, "result") {
        let ok = match success {
            Some(b) => b,
            None => true,
        };
        if !ok {
            IncomingMessage::CommandFailed
        } else {
            IncomingMessage::CommandSucceeded
        }
    } else if msg_type_eq(msg_type, "event") {
        IncomingMessage::Event
    } else {
        IncomingMessage::Other
    }
}

/// The registry listings read from Home Assistant at start-up.
#[derive(Clone, Copy, Debug, PartialEq, Eq, Structural)]
pub enum RegistryQuery {
    Areas,
    EntityRegistry,
    DeviceRegistry,
    States,
}

impl RegistryQuery {
    pub open spec fn spec_command_id(self) -> u64 {
        match self {
            RegistryQuery::Areas => 2,
            RegistryQuery::EntityRegistry => 3,
            RegistryQuery::DeviceRegistry => 5,
            RegistryQuery::States => 6,
        }
    }

    /// The id of the command that asks for this listing.
    pub fn command_id(&self) -> (id: u64)
        ensures
            id == self.spec_command_id(),
    {
        match self {
            RegistryQuery::Areas => 2,
            RegistryQuery::EntityRegistry => 3,
            RegistryQuery::DeviceRegistry => 5,
            RegistryQuery::States => 6,
        }
    }

    /// The type of the command that asks for this listing.
    pub fn command_type(&self) -> (t: &'static str)
        ensures
            t@ == (match self {
                RegistryQuery::Areas => "config/area_registry/list"@,
                RegistryQuery::EntityRegistry => "config/entity_registry/list"@,
                RegistryQuery::DeviceRegistry => "config/device_registry/list"@,
                RegistryQuery::States => "get_states"@,
            }),
    {
        match self {
            RegistryQuery::Areas => "config/area_registry/list",
            RegistryQuery::EntityRegistry => "config/entity_registry/list",
            RegistryQuery::DeviceRegistry => "config/device_registry/list",
            RegistryQuery::States => "get_states",
        }
    }

    /// The name used for this listing in messages.
    pub fn context(&self) -> (t: &'static str)
        ensures
            t@ == (match self {
                RegistryQuery::Areas => "area_registry/list"@,
                RegistryQuery::EntityRegistry => "entity_registry/list"@,
                RegistryQuery::DeviceRegistry => "device_registry/list"@,
                RegistryQuery::States => "get_states"@,
            }),
    {
        match self {
            RegistryQuery::Areas => "area_registry/list",
            RegistryQuery::EntityRegistry => "entity_registry/list",
            RegistryQuery::DeviceRegistry => "device_registry/list",
            RegistryQuery::States => "get_states",
        }
    }
}

} // verus!
