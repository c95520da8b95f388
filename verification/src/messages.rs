//! The operations a connection can ask of the registry, and the command parser.

use vstd::prelude::*;

verus! {

/// A plain outbound text frame destined for one client.
pub struct WsMessage(pub String);

/// A request to join match `game_id` as connection `self_id`. The outbound
/// handle of the new session stays with the transport layer.
pub struct Connect {
    pub game_id: u128,
    pub self_id: u128,
}

/// Notice that connection `id` left match `game_id`.
pub struct Disconnect {
    pub id: u128,
    pub game_id: u128,
}

/// An in-match command sent by connection `id` for match `game_id`.
pub struct ClientActorMessage {
    pub id: u128,
    pub msg: Msg,
    pub game_id: u128,
}

/// The four commands a client can send.
#[derive(Clone, Copy, PartialEq, Eq, Structural, Debug)]
pub enum Msg {
    /// The player moves the character one step to the left.
    Left,
    /// The player moves the character one step to the right.
    Right,
    /// A player tries to hit the other character.
    Hit,
    /// The player does nothing.
    Wait,
}

/// What parsing recognizes: exactly the four JSON-quoted command tokens;
/// any other payload is rejected.
pub open spec fn spec_parse(s: Seq<char>) -> Result<Msg, ()> {
    if s == "\"Left\""@ {
        Ok(Msg::Left)
    } else if s == "\"Right\""@ {
        Ok(Msg::Right)
    } else if s == "\"Hit\""@ {
        Ok(Msg::Hit)
    } else if s == "\"Wait\""@ {
        Ok(Msg::Wait)
    } else {
        Err(())
    }
}

impl Msg {
    /// Decode an inbound text payload.
    pub fn from_str(s: &str) -> (r: Result<Msg, ()>)
        ensures
            r == spec_parse(s@),
    {
        let payload = s.to_owned();
        if payload == "\"Left\"".to_owned() {
            Ok(Msg::Left)
        } else if payload == "\"Right\"".to_owned() {
            Ok(Msg::Right)
        } else if payload == "\"Hit\"".to_owned() {
            Ok(Msg::Hit)
        } else if payload == "\"Wait\"".to_owned() {
            Ok(Msg::Wait)
        } else {
            Err(())
        }
    }
}

} // verus!
