//! Answering a status client: the request is answered with the server's status, built from
//! what the server's status responder gives, and the ping with a pong carrying its time. The
//! driver reads each packet, hands it to `handle_request` or `handle_ping`, and passes what they
//! give to `answer_request` and then to `answer_ping`.
use vstd::prelude::*;
use vstd::string::StringExecFns;

use crate::codec::TransportError;
use crate::common::chat::Chat;
use crate::protocol::status::{
    Ping, Pong, Request, StatusResponse, StatusResponsePlayers, StatusResponseVersion,
};
use crate::registry::RegistryError;

verus! {

/// What a status packet asks for.
#[derive(Debug, Clone, Copy, PartialEq, Eq, Structural)]
pub enum StatusFunctionResponse {
    RequestForward,
    PingForward { start_time: i64 },
}

pub fn handle_request(_request: Request) -> (r: StatusFunctionResponse)
    ensures
        r == StatusFunctionResponse::RequestForward,
{
    StatusFunctionResponse::RequestForward
}

pub fn handle_ping(ping: Ping) -> (r: StatusFunctionResponse)
    ensures
        r == (StatusFunctionResponse::PingForward { start_time: ping.start_time }),
{
    StatusFunctionResponse::PingForward { start_time: ping.start_time }
}

/// The name of a protocol version number.
pub open spec fn spec_proto_to_string(proto: i32) -> Seq<char> {
    if proto == 760 {
        "1.19.2"@
    } else {
        "???"@
    }
}

pub fn proto_to_string(proto: i32) -> (r: String)
    ensures
        r@ == spec_proto_to_string(proto),
{
    if proto == 760 {
        String::from_str("1.19.2")
    } else {
        String::from_str("???")
    }
}

/// What the server's status responder gives: the player counts, the description and the icon.
#[derive(Debug)]
pub struct StatusBuilder {
    pub players: StatusResponsePlayers,
    pub description: Chat,
    pub favicon: Option<String>,
}

/// The error of a packet out of order.
pub open spec fn is_out_of_order(e: RegistryError) -> bool {
    e matches RegistryError::DraxTransportError(TransportError::Explain(t)) && t@
        == "Invalid ping forward when request expected."@
}

fn out_of_order() -> (r: RegistryError)
    ensures
        is_out_of_order(r),
{
    RegistryError::DraxTransportError(
        TransportError::Explain(String::from_str("Invalid ping forward when request expected.")),
    )
}

/// Whether the first status packet is the request, as it must be; the server's status is only
/// asked for then.
pub fn expect_request(first: &StatusFunctionResponse) -> (r: Result<(), RegistryError>)
    ensures
        *first is RequestForward ==> r is Ok,
        *first is PingForward ==> (r matches Err(e) && is_out_of_order(e)),
{
    match first {
        StatusFunctionResponse::RequestForward => Ok(()),
        StatusFunctionResponse::PingForward { .. } => Err(out_of_order()),
    }
}

/// The answer to the first status packet, which must be the request: the server's status with
/// the responder's counts, description and icon, the client's protocol version with its name,
/// and chat previews off.
pub fn answer_request(first: StatusFunctionResponse, builder: StatusBuilder, protocol_version: i32) -> (r: Result<
    StatusResponse,
    RegistryError,
>)
    ensures
        first is PingForward ==> (r matches Err(e) && is_out_of_order(e)),
        first is RequestForward ==> (r matches Ok(status) && status.version.name@
            == spec_proto_to_string(protocol_version) && status.version.protocol == protocol_version
            && status.players == builder.players && status.description == builder.description
            && status.favicon == builder.favicon && status.previews_chat == Some(false)),
{
    match first {
        StatusFunctionResponse::RequestForward => Ok(
            StatusResponse {
                version: StatusResponseVersion {
                    name: proto_to_string(protocol_version),
                    protocol: protocol_version,
                },
                players: builder.players,
                description: builder.description,
                favicon: builder.favicon,
                previews_chat: Some(false),
            },
        ),
        StatusFunctionResponse::PingForward { .. } => Err(out_of_order()),
    }
}

/// The answer to the second status packet, which must be the ping: a pong with its time.
pub fn answer_ping(second: StatusFunctionResponse) -> (r: Result<Pong, RegistryError>)
    ensures
        second is RequestForward ==> (r matches Err(e) && is_out_of_order(e)),
        second matches StatusFunctionResponse::PingForward { start_time } ==> r == Ok::<
            Pong,
            RegistryError,
        >(Pong { start_time }),
{
    match second {
        StatusFunctionResponse::RequestForward => Err(out_of_order()),
        StatusFunctionResponse::PingForward { start_time } => Ok(Pong { start_time }),
    }
}

} // verus!
