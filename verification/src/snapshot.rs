//! The snapshot broadcast after a successful command: the full game state,
//! rendered as one JSON document whose exact text is specified here.
//!
//! The document is
//! `{"players":{"<id>":{...},...},"state":"...","winner":...}`, with each
//! player's health, speed, damage, attack radius, body extent and position,
//! in join order. Coordinates and speed are carried in half-units and are
//! rendered as whole units with their fractional digit.

use vstd::prelude::*;

use crate::game::{Game, GameModel, GameState, Player};
use crate::textfmt::{half_seq, int_seq, push_half_i64, push_int_i64, push_uuid, uuid_seq};

verus! {

/// One player entry: the quoted identifier and the player document.
pub open spec fn json_player(id: u128, p: Player) -> Seq<char> {
    "\""@ + uuid_seq(id) + "\":{\"health\":"@ + int_seq(p.health as int) + ",\"speed\":"@
        + half_seq(p.speed as int) + ",\"damage\":"@ + int_seq(p.damage as int)
        + ",\"attack_zone\":"@ + int_seq(p.attack_zone as int) + ",\"body\":{\"height\":"@
        + int_seq(p.body.height as int) + ",\"width\":"@ + int_seq(p.body.width as int)
        + "},\"position\":{\"x\":"@ + half_seq(p.position.x as int) + ",\"y\":"@ + half_seq(
        p.position.y as int,
    ) + "}}"@
}

/// The player entries, joined with commas, in join order.
pub open spec fn json_players_entries(ps: Seq<(u128, Player)>) -> Seq<char>
    decreases ps.len(),
{
    if ps.len() == 0 {
        Seq::<char>::empty()
    } else if ps.len() == 1 {
        json_player(ps[0].0, ps[0].1)
    } else {
        json_players_entries(ps.drop_last()) + ","@ + json_player(ps.last().0, ps.last().1)
    }
}

/// The match state as a JSON string.
pub open spec fn json_state(state: GameState) -> Seq<char> {
    match state {
        GameState::NotStarted => "\"NotStarted\""@,
        GameState::InProgress => "\"InProgress\""@,
        GameState::GameOver => "\"GameOver\""@,
    }
}

/// The winner as a JSON value: `"None"`, or an object carrying the identifier.
pub open spec fn json_winner(winner: Option<u128>) -> Seq<char> {
    match winner {
        None => "\"None\""@,
        Some(id) => "{\"Id\":\""@ + uuid_seq(id) + "\"}"@,
    }
}

/// The whole snapshot document of a game model.
pub open spec fn snapshot_seq(m: GameModel) -> Seq<char> {
    "{\"players\":{"@ + json_players_entries(m.players) + "},\"state\":"@ + json_state(m.state)
        + ",\"winner\":"@ + json_winner(m.winner) + "}"@
}

/// Append one player entry.
fn push_player(s: &mut String, id: u128, p: &Player)
    ensures
        final(s)@ == old(s)@ + json_player(id, *p),
{
    s.append("\"");
    push_uuid(s, id);
    s.append("\":{\"health\":");
    push_int_i64(s, p.health as i64);
    s.append(",\"speed\":");
    push_half_i64(s, p.speed);
    s.append(",\"damage\":");
    push_int_i64(s, p.damage as i64);
    s.append(",\"attack_zone\":");
    push_int_i64(s, p.attack_zone as i64);
    s.append(",\"body\":{\"height\":");
    push_int_i64(s, p.body.height as i64);
    s.append(",\"width\":");
    push_int_i64(s, p.body.width as i64);
    s.append("},\"position\":{\"x\":");
    push_half_i64(s, p.position.x);
    s.append(",\"y\":");
    push_half_i64(s, p.position.y);
    s.append("}}");
    proof {
        assert(final(s)@ =~= old(s)@ + json_player(id, *p));
    }
}

/// Serialize the full game snapshot.
pub fn snapshot_json(g: &Game) -> (r: String)
    ensures
        r@ == snapshot_seq(g.model()),
{
    let mut s = String::new();
    s.append("{\"players\":{");
    proof {
        assert(s@ =~= "{\"players\":{"@ + json_players_entries(g.model().players.take(0)));
    }
    let ps = g.player_entries();
    let mut i: usize = 0;
    while i < ps.len()
        invariant
            i <= ps@.len(),
            ps@ == g.model().players,
            s@ == "{\"players\":{"@ + json_players_entries(ps@.take(i as int)),
        decreases ps@.len() - i,
    {
        if i > 0 {
            s.append(",");
        }
        let e = &ps[i];
        push_player(&mut s, e.0, &e.1);
        proof {
            assert(ps@.take(i as int + 1).drop_last() =~= ps@.take(i as int));
            assert(ps@.take(i as int + 1).last() == ps@[i as int]);
            assert(s@ =~= "{\"players\":{"@ + json_players_entries(ps@.take(i as int + 1)));
        }
        i += 1;
    }
    proof {
        assert(ps@.take(ps@.len() as int) =~= ps@);
    }
    s.append("},\"state\":");
    match g.state() {
        GameState::NotStarted => s.append("\"NotStarted\""),
        GameState::InProgress => s.append("\"InProgress\""),
        GameState::GameOver => s.append("\"GameOver\""),
    }
    s.append(",\"winner\":");
    match g.winner() {
        None => s.append("\"None\""),
        Some(id) => {
            s.append("{\"Id\":\"");
            push_uuid(&mut s, id);
            s.append("\"}");
        },
    }
    s.append("}");
    proof {
        assert(s@ =~= snapshot_seq(g.model()));
    }
    s
}

} // verus!
