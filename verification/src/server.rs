//! What the server answers to each network event.
use crate::messages::{ClientMessage, ServerMessage, WorldSnapshot};
use crate::text::{decimal, push_decimal, push_str};
use vstd::prelude::*;

verus! {

/// An event from the network layer.
#[derive(Debug)]
pub enum NetInbound {
    Connected { client_id: u64 },
    Disconnected { client_id: u64 },
    Message { client_id: u64, msg: ClientMessage },
}

/// A message for the network layer to send.
#[derive(Debug)]
pub enum NetOutbound {
    ToClient { client_id: u64, msg: ServerMessage },
    Broadcast { msg: ServerMessage },
}

/// The name under which a client's chat is relayed: `"player"` and its id.
pub open spec fn player_label(client_id: u64) -> Seq<char> {
    seq!['p', 'l', 'a', 'y', 'e', 'r'] + decimal(client_id as nat)
}

/// The server's answer to a network event: a welcome with an empty world
/// for a new connection, a pong to the sender of a ping, and every chat line
/// relayed to all under the sender's label; nothing else is answered.
pub fn respond(event: NetInbound) -> (out: Option<NetOutbound>)
    ensures
        match event {
            NetInbound::Connected { client_id } => match out {
                Some(NetOutbound::ToClient { client_id: to, msg: ServerMessage::Welcome { player_id, snapshot } }) => {
                    &&& to == client_id
                    &&& player_id == client_id
                    &&& snapshot.tick == 0
                    &&& snapshot.buildings@.len() == 0
                    &&& snapshot.resources@.len() == 0
                },
                _ => false,
            },
            NetInbound::Disconnected { .. } => out.is_none(),
            NetInbound::Message { client_id, msg } => match msg {
                ClientMessage::Chat { text } => match out {
                    Some(NetOutbound::Broadcast { msg: ServerMessage::Chat { from, text: relayed } }) => {
                        &&& from@ == player_label(client_id)
                        &&& relayed == text
                    },
                    _ => false,
                },
                ClientMessage::Ping { timestamp_ms } => out == Some(
                    NetOutbound::ToClient { client_id, msg: ServerMessage::Pong { timestamp_ms } },
                ),
                _ => out.is_none(),
            },
        },
{
    match event {
        NetInbound::Connected { client_id } => Some(
            NetOutbound::ToClient {
                client_id,
                msg: ServerMessage::Welcome { player_id: client_id, snapshot: WorldSnapshot::default() },
            },
        ),
        NetInbound::Disconnected { .. } => None,
        NetInbound::Message { client_id, msg } => match msg {
            ClientMessage::Chat { text } => {
                let mut from = String::new();
                push_str(&mut from, "player");
                push_decimal(&mut from, client_id);
                proof {
                    reveal_strlit("player");
                    assert(from@ =~= player_label(client_id));
                }
                Some(NetOutbound::Broadcast { msg: ServerMessage::Chat { from, text } })
            },
            ClientMessage::Ping { timestamp_ms } => Some(
                NetOutbound::ToClient { client_id, msg: ServerMessage::Pong { timestamp_ms } },
            ),
            _ => None,
        },
    }
}

} // verus!
