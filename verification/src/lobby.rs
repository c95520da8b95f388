//! The registry of live connections and live matches.
//!
//! The lobby owns every mutation of registry and game state; its operations
//! are meant to be applied one at a time by a single owner. Outbound delivery
//! is not performed here: each operation returns the list of text frames to
//! hand to the transport, in order.

use vstd::prelude::*;

use crate::assoc::{
    contains_id, find_id, find_key, has_key, id_idx, idx_of, lemma_id_idx, lemma_idx_of,
    lemma_update_keeps_keys, remove_id, unique_ids, unique_keys, val_of,
};
use crate::errors::{AppError, AppErrorType};
use crate::game::{
    model_wf, spec_add, spec_handle, err_text, Game, GameErr, GameModel, GameState, Player,
};
use crate::messages::{ClientActorMessage, Connect, Disconnect};
use crate::snapshot::{snapshot_json, snapshot_seq};
use crate::textfmt::{push_uuid, uuid_seq, uuid_string};

verus! {

/// One outbound text frame: the connection it goes to, and its text.
#[derive(Debug)]
pub struct Delivery {
    pub to: u128,
    pub text: String,
}

impl View for Delivery {
    type V = (u128, Seq<char>);

    open spec fn view(&self) -> (u128, Seq<char>) {
        (self.to, self.text@)
    }
}

/// The deliveries as pairs of target and text.
pub open spec fn msgs(out: Seq<Delivery>) -> Seq<(u128, Seq<char>)> {
    out.map_values(|d: Delivery| d@)
}

/// The greeting broadcast when a player joins.
pub open spec fn joined_text(id: u128) -> Seq<char> {
    uuid_seq(id) + " just joined!"@
}

/// The notice broadcast when a player leaves.
pub open spec fn disconnected_text(id: u128) -> Seq<char> {
    uuid_seq(id) + " disconnected."@
}

/// The private greeting telling a new session its identifier.
pub open spec fn your_id_text(id: u128) -> Seq<char> {
    "your id is "@ + uuid_seq(id)
}

/// The frames a broadcast of `text` to `members` produces: one per member in
/// order, skipping `except` and members without a live session.
pub open spec fn notices(
    members: Seq<u128>,
    except: u128,
    sessions: Seq<u128>,
    text: Seq<char>,
) -> Seq<(u128, Seq<char>)>
    decreases members.len(),
{
    if members.len() == 0 {
        Seq::<(u128, Seq<char>)>::empty()
    } else {
        let rest = notices(members.drop_last(), except, sessions, text);
        if members.last() != except && sessions.contains(members.last()) {
            rest.push((members.last(), text))
        } else {
            rest
        }
    }
}

/// The frames a broadcast of `text` to every member produces, skipping
/// members without a live session.
pub open spec fn to_all(members: Seq<u128>, sessions: Seq<u128>, text: Seq<char>) -> Seq<
    (u128, Seq<char>),
>
    decreases members.len(),
{
    if members.len() == 0 {
        Seq::<(u128, Seq<char>)>::empty()
    } else {
        let rest = to_all(members.drop_last(), sessions, text);
        if sessions.contains(members.last()) {
            rest.push((members.last(), text))
        } else {
            rest
        }
    }
}

/// The membership set of `gid` after `sid` joins: created with `sid` alone on
/// first contact, extended by `sid` otherwise (already-present members stay).
pub open spec fn joined_set(
    members: Seq<(u128, Seq<u128>)>,
    gid: u128,
    sid: u128,
) -> Seq<u128> {
    if has_key(members, gid) {
        if val_of(members, gid).contains(sid) {
            val_of(members, gid)
        } else {
            val_of(members, gid).push(sid)
        }
    } else {
        seq![sid]
    }
}

/// The membership sets after `sid` joins `gid`.
pub open spec fn connect_members(
    members: Seq<(u128, Seq<u128>)>,
    gid: u128,
    sid: u128,
) -> Seq<(u128, Seq<u128>)> {
    if has_key(members, gid) {
        members.update(idx_of(members, gid), (gid, joined_set(members, gid, sid)))
    } else {
        members.push((gid, joined_set(members, gid, sid)))
    }
}

/// The live sessions after `sid` joins.
pub open spec fn connect_sessions(sessions: Seq<u128>, sid: u128) -> Seq<u128> {
    if sessions.contains(sid) {
        sessions
    } else {
        sessions.push(sid)
    }
}

/// The membership sets after `id` leaves `gid`: the set loses `id` while
/// other members remain, and disappears entirely with its last member.
pub open spec fn disconnect_members(
    members: Seq<(u128, Seq<u128>)>,
    id: u128,
    gid: u128,
) -> Seq<(u128, Seq<u128>)> {
    if val_of(members, gid).len() > 1 {
        members.update(idx_of(members, gid), (gid, remove_id(val_of(members, gid), id)))
    } else {
        members.remove(idx_of(members, gid))
    }
}

/// Every member of every membership set has a live session.
pub open spec fn covered(members: Seq<(u128, Seq<u128>)>, sessions: Seq<u128>) -> bool {
    forall|i: int, j: int|
        0 <= i < members.len() && 0 <= j < members[i].1.len() ==> sessions.contains(
            #[trigger] members[i].1[j],
        )
}

/// No connection identifier is a member of two different matches.
pub open spec fn one_match_each(members: Seq<(u128, Seq<u128>)>) -> bool {
    forall|i: int, j: int, a: int, b: int|
        0 <= i < members.len() && 0 <= j < members.len() && i != j && 0 <= a < members[i].1.len()
            && 0 <= b < members[j].1.len() ==> #[trigger] members[i].1[a] != #[trigger] members[j].1[b]
}

/// `id` is a member of no match other than `gid`.
pub open spec fn member_only_of(members: Seq<(u128, Seq<u128>)>, id: u128, gid: u128) -> bool {
    forall|i: int, j: int|
        0 <= i < members.len() && 0 <= j < members[i].1.len() && #[trigger] members[i].1[j] == id
            ==> members[i].0 == gid
}

/// A session belongs to one match, so every member of every membership set
/// keeps a live session across a join: a joiner not already a member of
/// another match preserves [`covered`] and [`one_match_each`], and ends up a
/// member of its own match alone.
pub proof fn lemma_connect_preserves_coverage(
    members: Seq<(u128, Seq<u128>)>,
    sessions: Seq<u128>,
    gid: u128,
    sid: u128,
)
    requires
        unique_keys(members),
        covered(members, sessions),
        one_match_each(members),
        member_only_of(members, sid, gid),
    ensures
        covered(connect_members(members, gid, sid), connect_sessions(sessions, sid)),
        one_match_each(connect_members(members, gid, sid)),
        member_only_of(connect_members(members, gid, sid), sid, gid),
{
    let ms2 = connect_members(members, gid, sid);
    let ss2 = connect_sessions(sessions, sid);
    assert forall|x: u128| sessions.contains(x) implies ss2.contains(x) by {
        let k = choose|k: int| 0 <= k < sessions.len() && sessions[k] == x;
        assert(ss2[k] == x);
    }
    assert(ss2.contains(sid)) by {
        if !sessions.contains(sid) {
            assert(ss2[ss2.len() - 1] == sid);
        }
    }
    if has_key(members, gid) {
        let gi = idx_of(members, gid);
        assert(0 <= gi < members.len() && members[gi].0 == gid);
        let set0 = val_of(members, gid);
        assert forall|i: int, j: int|
            0 <= i < ms2.len() && 0 <= j < ms2[i].1.len() implies ss2.contains(ms2[i].1[j]) by {
            if i == gi {
                if j < set0.len() {
                    assert(ms2[i].1[j] == members[gi].1[j]);
                    assert(sessions.contains(members[gi].1[j]));
                } else {
                    assert(ms2[i].1[j] == sid);
                }
            } else {
                assert(ms2[i] == members[i]);
                assert(sessions.contains(members[i].1[j]));
            }
        }
        assert forall|i: int, j: int, a: int, b: int|
            0 <= i < ms2.len() && 0 <= j < ms2.len() && i != j && 0 <= a < ms2[i].1.len() && 0 <= b
                < ms2[j].1.len() implies ms2[i].1[a] != ms2[j].1[b] by {
            if i == gi {
                if a < set0.len() {
                    assert(ms2[i].1[a] == members[gi].1[a]);
                    assert(members[gi].1[a] != members[j].1[b]);
                } else {
                    assert(ms2[i].1[a] == sid);
                    if members[j].1[b] == sid {
                        assert(members[j].0 == gid);
                        assert(false);
                    }
                }
            } else if j == gi {
                if b < set0.len() {
                    assert(ms2[j].1[b] == members[gi].1[b]);
                    assert(members[i].1[a] != members[gi].1[b]);
                } else {
                    assert(ms2[j].1[b] == sid);
                    if members[i].1[a] == sid {
                        assert(members[i].0 == gid);
                        assert(false);
                    }
                }
            } else {
                assert(members[i].1[a] != members[j].1[b]);
            }
        }
        assert forall|i: int, j: int|
            0 <= i < ms2.len() && 0 <= j < ms2[i].1.len() && ms2[i].1[j] == sid implies ms2[i].0
                == gid by {
            if i != gi {
                assert(ms2[i] == members[i]);
            }
        }
    } else {
        let n = members.len() as int;
        assert forall|i: int, j: int|
            0 <= i < ms2.len() && 0 <= j < ms2[i].1.len() implies ss2.contains(ms2[i].1[j]) by {
            if i < n {
                assert(ms2[i] == members[i]);
                assert(sessions.contains(members[i].1[j]));
            } else {
                assert(ms2[i].1[j] == sid);
            }
        }
        assert forall|i: int, j: int, a: int, b: int|
            0 <= i < ms2.len() && 0 <= j < ms2.len() && i != j && 0 <= a < ms2[i].1.len() && 0 <= b
                < ms2[j].1.len() implies ms2[i].1[a] != ms2[j].1[b] by {
            if i == n {
                assert(ms2[i].1[a] == sid);
                if members[j].1[b] == sid {
                    assert(members[j].0 == gid);
                    assert(has_key(members, gid));
                    assert(false);
                }
            } else if j == n {
                assert(ms2[j].1[b] == sid);
                if members[i].1[a] == sid {
                    assert(members[i].0 == gid);
                    assert(has_key(members, gid));
                    assert(false);
                }
            } else {
                assert(members[i].1[a] != members[j].1[b]);
            }
        }
        assert forall|i: int, j: int|
            0 <= i < ms2.len() && 0 <= j < ms2[i].1.len() && ms2[i].1[j] == sid implies ms2[i].0
                == gid by {
            if i < n {
                assert(ms2[i] == members[i]);
            }
        }
    }
}

/// A session belongs to one match, so every remaining member of every
/// membership set keeps a live session across a disconnect: one that leaves
/// the only match it is a member of preserves [`covered`] and
/// [`one_match_each`].
pub proof fn lemma_disconnect_preserves_coverage(
    members: Seq<(u128, Seq<u128>)>,
    sessions: Seq<u128>,
    id: u128,
    gid: u128,
)
    requires
        unique_keys(members),
        forall|i: int| 0 <= i < members.len() ==> unique_ids((#[trigger] members[i]).1),
        covered(members, sessions),
        one_match_each(members),
        member_only_of(members, id, gid),
        has_key(members, gid),
    ensures
        covered(disconnect_members(members, id, gid), remove_id(sessions, id)),
        one_match_each(disconnect_members(members, id, gid)),
{
    let ms2 = disconnect_members(members, id, gid);
    let ss2 = remove_id(sessions, id);
    let gi = idx_of(members, gid);
    assert(0 <= gi < members.len() && members[gi].0 == gid);
    let set0 = val_of(members, gid);
    assert forall|x: u128| sessions.contains(x) && x != id implies ss2.contains(x) by {
        if sessions.contains(id) {
            let ii = id_idx(sessions, id);
            assert(0 <= ii < sessions.len() && sessions[ii] == id);
            let k = choose|k: int| 0 <= k < sessions.len() && sessions[k] == x;
            if k < ii {
                assert(ss2[k] == x);
            } else {
                assert(k != ii);
                assert(ss2[k - 1] == x);
            }
        }
    }
    // a member of any entry other than gid's is not id
    assert forall|i: int, j: int|
        0 <= i < members.len() && i != gi && 0 <= j < members[i].1.len() implies members[i].1[j]
        != id by {
        if members[i].1[j] == id {
            assert(members[i].0 == gid);
            assert(false);
        }
    }
    if set0.len() > 1 {
        let set1 = remove_id(set0, id);
        // each element of the shrunk set is an old member of gid's set, not id
        assert forall|j: int| 0 <= j < set1.len() implies set1[j] != id && sessions.contains(
            set1[j],
        ) && (exists|j0: int| 0 <= j0 < set0.len() && set0[j0] == set1[j]) by {
            if set0.contains(id) {
                let ri = id_idx(set0, id);
                assert(0 <= ri < set0.len() && set0[ri] == id);
                let j0 = if j < ri {
                    j
                } else {
                    j + 1
                };
                assert(set1[j] == set0[j0]);
                assert(unique_ids(members[gi].1));
                assert(set0[j0] != set0[ri]);
                assert(sessions.contains(members[gi].1[j0]));
            } else {
                assert(set1[j] == set0[j]);
                assert(sessions.contains(members[gi].1[j]));
            }
        }
        assert forall|i: int, j: int|
            0 <= i < ms2.len() && 0 <= j < ms2[i].1.len() implies ss2.contains(ms2[i].1[j]) by {
            if i == gi {
                assert(ms2[i].1 == set1);
            } else {
                assert(ms2[i] == members[i]);
                assert(sessions.contains(members[i].1[j]));
                assert(members[i].1[j] != id);
            }
        }
        assert forall|i: int, j: int, a: int, b: int|
            0 <= i < ms2.len() && 0 <= j < ms2.len() && i != j && 0 <= a < ms2[i].1.len() && 0 <= b
                < ms2[j].1.len() implies ms2[i].1[a] != ms2[j].1[b] by {
            if i == gi {
                let j0 = choose|j0: int| 0 <= j0 < set0.len() && set0[j0] == set1[a];
                assert(members[gi].1[j0] != members[j].1[b]);
            } else if j == gi {
                let j0 = choose|j0: int| 0 <= j0 < set0.len() && set0[j0] == set1[b];
                assert(members[i].1[a] != members[gi].1[j0]);
            } else {
                assert(members[i].1[a] != members[j].1[b]);
            }
        }
    } else {
        assert forall|i: int, j: int|
            0 <= i < ms2.len() && 0 <= j < ms2[i].1.len() implies ss2.contains(ms2[i].1[j]) by {
            let i0 = if i < gi {
                i
            } else {
                i + 1
            };
            assert(ms2[i] == members[i0]);
            assert(sessions.contains(members[i0].1[j]));
            assert(members[i0].1[j] != id);
        }
        assert forall|i: int, j: int, a: int, b: int|
            0 <= i < ms2.len() && 0 <= j < ms2.len() && i != j && 0 <= a < ms2[i].1.len() && 0 <= b
                < ms2[j].1.len() implies ms2[i].1[a] != ms2[j].1[b] by {
            let i0 = if i < gi {
                i
            } else {
                i + 1
            };
            let j0 = if j < gi {
                j
            } else {
                j + 1
            };
            assert(ms2[i] == members[i0]);
            assert(ms2[j] == members[j0]);
            assert(members[i0].1[a] != members[j0].1[b]);
        }
    }
}

/// The registry: live sessions, the members of each match, and each match's
/// game, all keyed by identifier.
pub struct Lobby {
    sessions: Vec<u128>,
    games_users_ids: Vec<(u128, Vec<u128>)>,
    games: Vec<(u128, Game)>,
}

/// The mathematical model of the registry.
#[verifier::ext_equal]
pub ghost struct LobbyModel {
    pub sessions: Seq<u128>,
    pub members: Seq<(u128, Seq<u128>)>,
    pub games: Seq<(u128, GameModel)>,
}

/// Well-formedness of the registry: identifiers and keys are unique, a match
/// has a (non-empty) membership set exactly when it has a game, and every
/// game is well-formed.
pub open spec fn lobby_wf(m: LobbyModel) -> bool {
    &&& unique_ids(m.sessions)
    &&& unique_keys(m.members)
    &&& unique_keys(m.games)
    &&& (forall|k: u128| has_key(m.members, k) <==> has_key(m.games, k))
    &&& (forall|i: int| 0 <= i < m.members.len() ==> (#[trigger] m.members[i]).1.len() >= 1)
    &&& (forall|i: int| 0 <= i < m.members.len() ==> unique_ids((#[trigger] m.members[i]).1))
    &&& (forall|i: int| 0 <= i < m.games.len() ==> model_wf((#[trigger] m.games[i]).1))
}

impl Lobby {
    /// The mathematical model of this registry.
    pub closed spec fn model(&self) -> LobbyModel {
        LobbyModel {
            sessions: self.sessions@,
            members: self.games_users_ids@.map_values(|e: (u128, Vec<u128>)| (e.0, e.1@)),
            games: self.games@.map_values(|e: (u128, Game)| (e.0, e.1.model())),
        }
    }

    /// Well-formedness; see [`lobby_wf`].
    pub open spec fn wf(&self) -> bool {
        lobby_wf(self.model())
    }

    /// The game of `game_id`, when that match is live.
    pub fn game(&self, game_id: u128) -> (r: Option<&Game>)
        requires
            self.wf(),
        ensures
            match r {
                Some(g) => has_key(self.model().games, game_id) && g.model() == val_of(
                    self.model().games,
                    game_id,
                ),
                None => !has_key(self.model().games, game_id),
            },
    {
        match find_key(&self.games, game_id) {
            Some(i) => {
                proof {
                    lemma_idx_of(self.model().games, game_id, i as int);
                }
                Some(&self.games[i].1)
            },
            None => {
                proof {
                    if has_key(self.model().games, game_id) {
                        let a = idx_of(self.model().games, game_id);
                        assert(0 <= a < self.model().games.len() && self.model().games[a].0
                            == game_id);
                        assert(self.games@[a].0 == game_id);
                    }
                }
                None
            },
        }
    }

    /// Whether `id` has a live session.
    pub fn has_session(&self, id: u128) -> (r: bool)
        ensures
            r == self.model().sessions.contains(id),
    {
        contains_id(&self.sessions, id)
    }

    /// Append the frame delivering `message` to `id_to`, when that connection
    /// has a live session; without one this is a non-fatal no-op.
    fn send_message(&self, out: &mut Vec<Delivery>, message: &str, id_to: u128)
        ensures
            self.model().sessions.contains(id_to) ==> msgs(final(out)@) == msgs(old(out)@).push(
                (id_to, message@),
            ),
            !self.model().sessions.contains(id_to) ==> final(out)@ == old(out)@,
    {
        if contains_id(&self.sessions, id_to) {
            out.push(Delivery { to: id_to, text: message.to_owned() });
            proof {
                assert(msgs(out@) =~= msgs(old(out)@).push((id_to, message@)));
            }
        }
    }
}

impl Lobby {
    /// Let `msg.self_id` join `msg.game_id`, creating the match on first
    /// contact. A full match turns the join away, delivering the failure's
    /// message only to the connecting handle; otherwise the session and its
    /// membership are registered, every other member is told of the join, and
    /// the new session is privately told its identifier. Returns the frames
    /// to deliver and whether the session was registered.
    #[verifier::loop_isolation(false)]
    pub fn connect(&mut self, msg: &Connect) -> (r: (Vec<Delivery>, bool))
        requires
            old(self).wf(),
        ensures
            final(self).wf(),
            ({
                let m = old(self).model();
                let gid = msg.game_id;
                let sid = msg.self_id;
                if has_key(m.games, gid) && val_of(m.games, gid).players.len() >= 2 {
                    &&& !r.1
                    &&& final(self).model() == m
                    &&& msgs(r.0@) == seq![(sid, err_text(GameErr::TooManyPlayers))]
                } else {
                    let g0 = if has_key(m.games, gid) {
                        val_of(m.games, gid)
                    } else {
                        GameModel {
                            players: Seq::<(u128, Player)>::empty(),
                            state: GameState::NotStarted,
                            winner: None,
                        }
                    };
                    let g1 = spec_add(g0, sid)->Ok_0;
                    &&& r.1
                    &&& final(self).model().games == (if has_key(m.games, gid) {
                        m.games.update(idx_of(m.games, gid), (gid, g1))
                    } else {
                        m.games.push((gid, g1))
                    })
                    &&& final(self).model().members == connect_members(m.members, gid, sid)
                    &&& final(self).model().sessions == connect_sessions(m.sessions, sid)
                    &&& msgs(r.0@) == notices(
                        joined_set(m.members, gid, sid),
                        sid,
                        m.sessions,
                        joined_text(sid),
                    ) + seq![(sid, your_id_text(sid))]
                }
            }),
    {
        let ghost m = old(self).model();
        let gid = msg.game_id;
        let sid = msg.self_id;
        let mut out: Vec<Delivery> = Vec::new();

        // let the player join the match's game, creating it on first contact
        match find_key(&self.games, gid) {
            Some(gi) => {
                proof {
                    lemma_idx_of(m.games, gid, gi as int);
                }
                let (k, mut game) = self.games.remove(gi);
                let add_res = game.add_player(sid);
                self.games.insert(gi, (k, game));
                proof {
                    assert(self.model().members =~~= m.members);
                    assert(self.model().sessions =~~= m.sessions);
                }
                match add_res {
                    Ok(_) => {
                        proof {
                            assert(self.model().games =~~= m.games.update(
                                gi as int,
                                (gid, spec_add(val_of(m.games, gid), sid)->Ok_0),
                            ));
                        }
                    },
                    Err(e) => {
                        proof {
                            assert(self.model().games =~~= m.games);
                            assert(self.model() =~~= m);
                        }
                        out.push(Delivery { to: sid, text: e.message });
                        proof {
                            assert(msgs(out@) =~= seq![
                                (sid, err_text(GameErr::TooManyPlayers)),
                            ]);
                        }
                        return (out, false);
                    },
                }
            },
            None => {
                proof {
                    if has_key(m.games, gid) {
                        let i = choose|i: int|
                            0 <= i < m.games.len() && m.games[i].0 == gid;
                        assert(self.games@[i].0 == gid);
                    }
                }
                let mut game = Game::new();
                let add_res = game.add_player(sid);
                match add_res {
                    Ok(_) => {},
                    Err(e) => {
                        proof {
                            assert(false);
                        }
                        return (out, false);
                    },
                }
                self.games.push((gid, game));
                proof {
                    assert(self.model().games =~~= m.games.push(
                        (
                            gid,
                            spec_add(
                                GameModel {
                                    players: Seq::<(u128, Player)>::empty(),
                                    state: GameState::NotStarted,
                                    winner: None,
                                },
                                sid,
                            )->Ok_0,
                        ),
                    ));
                    assert(self.model().members =~~= m.members);
                    assert(self.model().sessions =~~= m.sessions);
                }
            },
        }

        // record the membership
        let ghost mem1 = if has_key(m.members, gid) {
            if val_of(m.members, gid).contains(sid) {
                val_of(m.members, gid)
            } else {
                val_of(m.members, gid).push(sid)
            }
        } else {
            seq![sid]
        };
        match find_key(&self.games_users_ids, gid) {
            Some(mi) => {
                proof {
                    lemma_idx_of(m.members, gid, mi as int);
                }
                let (k, mut mem) = self.games_users_ids.remove(mi);
                if !contains_id(&mem, sid) {
                    mem.push(sid);
                }
                self.games_users_ids.insert(mi, (k, mem));
                proof {
                    assert(mem@ =~= mem1);
                    assert(self.model().members =~~= m.members.update(mi as int, (gid, mem1)));
                }
            },
            None => {
                proof {
                    if has_key(m.members, gid) {
                        let i = choose|i: int|
                            0 <= i < m.members.len() && m.members[i].0 == gid;
                        assert(self.games_users_ids@[i].0 == gid);
                    }
                }
                let mut mem: Vec<u128> = Vec::new();
                mem.push(sid);
                self.games_users_ids.push((gid, mem));
                proof {
                    assert(mem1 =~= seq![sid]);
                    assert(self.model().members =~~= m.members.push((gid, mem1)));
                }
            },
        }

        // tell the other members of the join
        let mut jt = uuid_string(sid);
        jt.append(" just joined!");
        match find_key(&self.games_users_ids, gid) {
            Some(mi2) => {
                proof {
                    assert(self.model().members[mi2 as int].1 == mem1);
                }
                let mem_len = self.games_users_ids[mi2].1.len();
                let mut j: usize = 0;
                proof {
                    assert(mem1.take(0) =~= Seq::<u128>::empty());
                    assert(msgs(out@) =~= notices(
                        mem1.take(0),
                        sid,
                        m.sessions,
                        joined_text(sid),
                    ));
                }
                while j < mem_len
                    invariant
                        j <= mem_len,
                        msgs(out@) == notices(
                            mem1.take(j as int),
                            sid,
                            m.sessions,
                            joined_text(sid),
                        ),
                    decreases mem_len - j,
                {
                    let target = self.games_users_ids[mi2].1[j];
                    proof {
                        assert(mem1.take(j as int + 1).drop_last() =~= mem1.take(j as int));
                        assert(mem1.take(j as int + 1).last() == mem1[j as int]);
                    }
                    if target != sid {
                        self.send_message(&mut out, jt.as_str(), target);
                    }
                    j += 1;
                }
                proof {
                    assert(mem1.take(mem_len as int) =~= mem1);
                }
            },
            None => {
                proof {
                    if has_key(m.members, gid) {
                        let i = idx_of(m.members, gid);
                        assert(0 <= i < m.members.len() && m.members[i].0 == gid);
                        assert(self.model().members[i].0 == gid);
                        assert(self.games_users_ids@[i].0 == gid);
                    } else {
                        let i = self.model().members.len() - 1;
                        assert(self.model().members[i].0 == gid);
                        assert(self.games_users_ids@[i].0 == gid);
                    }
                    assert(false);
                }
            },
        }

        // register the session
        if !contains_id(&self.sessions, sid) {
            self.sessions.push(sid);
            proof {
                assert(self.sessions@.last() == sid);
                assert(self.sessions@.contains(sid));
            }
        }

        // tell the new session its identifier
        let mut yt = "your id is ".to_owned();
        push_uuid(&mut yt, sid);
        self.send_message(&mut out, yt.as_str(), sid);
        proof {
            assert(self.model().sessions.contains(sid));
            assert(msgs(out@) =~= notices(mem1, sid, m.sessions, joined_text(sid)) + seq![
                (sid, your_id_text(sid)),
            ]);
        }

        proof {
            let fm = self.model();
            assert forall|k: u128| has_key(fm.members, k) <==> has_key(fm.games, k) by {
                if has_key(fm.members, k) {
                    let i = choose|i: int| 0 <= i < fm.members.len() && fm.members[i].0 == k;
                    if k == gid {
                        if has_key(m.games, gid) {
                            let b = idx_of(m.games, gid);
                            assert(0 <= b < m.games.len() && m.games[b].0 == gid);
                            assert(fm.games[b].0 == gid);
                        } else {
                            assert(fm.games.last().0 == gid);
                        }
                        assert(has_key(fm.games, k));
                    } else {
                        assert(m.members[i].0 == k || (i == m.members.len() && k == gid));
                        assert(has_key(m.members, k));
                        assert(has_key(m.games, k));
                        let a = choose|a: int| 0 <= a < m.games.len() && m.games[a].0 == k;
                        assert(fm.games[a].0 == k);
                    }
                }
                if has_key(fm.games, k) {
                    let i = choose|i: int| 0 <= i < fm.games.len() && fm.games[i].0 == k;
                    if k == gid {
                        if has_key(m.members, gid) {
                            let a = choose|a: int|
                                0 <= a < m.members.len() && m.members[a].0 == gid;
                            assert(fm.members[a].0 == gid);
                        } else {
                            assert(fm.members.last().0 == gid);
                        }
                        assert(has_key(fm.members, k));
                    } else {
                        assert(has_key(m.games, k));
                        assert(has_key(m.members, k));
                        let a = choose|a: int|
                            0 <= a < m.members.len() && m.members[a].0 == k;
                        assert(fm.members[a].0 == k);
                    }
                }
            }
        }
        (out, true)
    }

    /// Remove the session of `msg.id`, tell the remaining members of
    /// `msg.game_id`, and drop the membership set together with its game when
    /// the last member leaves. An unknown session is a no-op; a match without
    /// a membership set is reported as an error, with nothing changed.
    #[verifier::loop_isolation(false)]
    pub fn disconnect(&mut self, msg: &Disconnect) -> (r: Result<Vec<Delivery>, AppError>)
        requires
            old(self).wf(),
        ensures
            final(self).wf(),
            ({
                let m = old(self).model();
                let id = msg.id;
                let gid = msg.game_id;
                if !m.sessions.contains(id) {
                    &&& r is Ok
                    &&& msgs(r->Ok_0@) == Seq::<(u128, Seq<char>)>::empty()
                    &&& final(self).model() == m
                } else if !has_key(m.members, gid) {
                    &&& r is Err
                    &&& r->Err_0.error_type == AppErrorType::GameStateError
                    &&& r->Err_0.message@ == "Game not found"@
                    &&& final(self).model() == m
                } else {
                    let members = val_of(m.members, gid);
                    let sessions2 = remove_id(m.sessions, id);
                    &&& r is Ok
                    &&& msgs(r->Ok_0@) == notices(members, id, sessions2, disconnected_text(id))
                    &&& final(self).model().sessions == sessions2
                    &&& final(self).model().members == disconnect_members(m.members, id, gid)
                    &&& (members.len() > 1 ==> final(self).model().games == m.games)
                    &&& (members.len() <= 1 ==> final(self).model().games == m.games.remove(
                        idx_of(m.games, gid),
                    ))
                }
            }),
    {
        let ghost m = old(self).model();
        let id = msg.id;
        let gid = msg.game_id;
        match find_id(&self.sessions, id) {
            None => {
                let out: Vec<Delivery> = Vec::new();
                proof {
                    assert(msgs(out@) =~= Seq::<(u128, Seq<char>)>::empty());
                }
                Ok(out)
            },
            Some(si) => {
                proof {
                    lemma_id_idx(m.sessions, id, si as int);
                }
                match find_key(&self.games_users_ids, gid) {
                    None => {
                        proof {
                            if has_key(m.members, gid) {
                                let i = idx_of(m.members, gid);
                                assert(0 <= i < m.members.len() && m.members[i].0 == gid);
                                assert(self.games_users_ids@[i].0 == gid);
                            }
                        }
                        Err(AppError::new(AppErrorType::GameStateError, "Game not found"))
                    },
                    Some(mi) => {
                        proof {
                            lemma_idx_of(m.members, gid, mi as int);
                        }
                        let ghost members = val_of(m.members, gid);
                        self.sessions.remove(si);
                        proof {
                            assert(self.sessions@ =~= remove_id(m.sessions, id));
                            assert(unique_ids(self.sessions@)) by {
                                assert forall|a: int, b: int|
                                    0 <= a < b < self.sessions@.len() implies self.sessions@[a]
                                    != self.sessions@[b] by {
                                    let a0 = if a < si as int { a } else { a + 1 };
                                    let b0 = if b < si as int { b } else { b + 1 };
                                    assert(m.sessions[a0] != m.sessions[b0]);
                                }
                            }
                        }

                        // tell the remaining members
                        let mut dt = uuid_string(id);
                        dt.append(" disconnected.");
                        let mut out: Vec<Delivery> = Vec::new();
                        let mem_len = self.games_users_ids[mi].1.len();
                        proof {
                            assert(members.take(0) =~= Seq::<u128>::empty());
                            assert(msgs(out@) =~= notices(
                                members.take(0),
                                id,
                                self.sessions@,
                                disconnected_text(id),
                            ));
                        }
                        let mut j: usize = 0;
                        while j < mem_len
                            invariant
                                j <= mem_len,
                                msgs(out@) == notices(
                                    members.take(j as int),
                                    id,
                                    remove_id(m.sessions, id),
                                    disconnected_text(id),
                                ),
                            decreases mem_len - j,
                        {
                            let target = self.games_users_ids[mi].1[j];
                            proof {
                                assert(members.take(j as int + 1).drop_last() =~= members.take(
                                    j as int,
                                ));
                                assert(members.take(j as int + 1).last() == members[j as int]);
                            }
                            if target != id {
                                self.send_message(&mut out, dt.as_str(), target);
                            }
                            j += 1;
                        }
                        proof {
                            assert(members.take(mem_len as int) =~= members);
                        }

                        // keep or drop the membership set and its game
                        if self.games_users_ids[mi].1.len() > 1 {
                            let (k, mut mem) = self.games_users_ids.remove(mi);
                            match find_id(&mem, id) {
                                Some(ii) => {
                                    proof {
                                        lemma_id_idx(members, id, ii as int);
                                    }
                                    mem.remove(ii);
                                    proof {
                                        assert(mem@ =~= remove_id(members, id));
                                        assert(unique_ids(mem@)) by {
                                            assert forall|a: int, b: int|
                                                0 <= a < b < mem@.len() implies mem@[a] != mem@[b]
                                            by {
                                                let a0 = if a < ii as int { a } else { a + 1 };
                                                let b0 = if b < ii as int { b } else { b + 1 };
                                                assert(members[a0] != members[b0]);
                                            }
                                        }
                                    }
                                },
                                None => {
                                    proof {
                                        assert(remove_id(members, id) =~= members);
                                    }
                                },
                            }
                            self.games_users_ids.insert(mi, (k, mem));
                            proof {
                                lemma_update_keeps_keys(
                                    m.members,
                                    mi as int,
                                    (gid, remove_id(members, id)),
                                );
                                assert(self.model().members =~~= m.members.update(
                                    mi as int,
                                    (gid, remove_id(members, id)),
                                ));
                                assert(self.model().games =~~= m.games);
                            }
                        } else {
                            self.games_users_ids.remove(mi);
                            match find_key(&self.games, gid) {
                                Some(gi) => {
                                    proof {
                                        lemma_idx_of(m.games, gid, gi as int);
                                    }
                                    self.games.remove(gi);
                                    proof {
                                        assert(self.model().members =~~= m.members.remove(
                                            mi as int,
                                        ));
                                        assert(self.model().games =~~= m.games.remove(gi as int));
                                    }
                                },
                                None => {
                                    proof {
                                        assert(has_key(m.members, gid));
                                        assert(has_key(m.games, gid));
                                        let i = idx_of(m.games, gid);
                                        assert(0 <= i < m.games.len() && m.games[i].0 == gid);
                                        assert(self.games@[i].0 == gid);
                                        assert(false);
                                    }
                                },
                            }
                            proof {
                                let fm = self.model();
                                assert forall|k: u128|
                                    has_key(fm.members, k) <==> has_key(fm.games, k) by {
                                    if has_key(fm.members, k) {
                                        let i = choose|i: int|
                                            0 <= i < fm.members.len() && fm.members[i].0 == k;
                                        let i0 = if i < mi as int { i } else { i + 1 };
                                        assert(m.members[i0].0 == k);
                                        assert(k != gid);
                                        assert(has_key(m.games, k));
                                        let a = choose|a: int|
                                            0 <= a < m.games.len() && m.games[a].0 == k;
                                        let gi = idx_of(m.games, gid);
                                        let a2 = if a < gi { a } else { a - 1 };
                                        assert(fm.games[a2].0 == k);
                                    }
                                    if has_key(fm.games, k) {
                                        let i = choose|i: int|
                                            0 <= i < fm.games.len() && fm.games[i].0 == k;
                                        let gi = idx_of(m.games, gid);
                                        let i0 = if i < gi { i } else { i + 1 };
                                        assert(m.games[i0].0 == k);
                                        assert(k != gid);
                                        assert(has_key(m.members, k));
                                        let a = choose|a: int|
                                            0 <= a < m.members.len() && m.members[a].0 == k;
                                        let a2 = if a < mi as int { a } else { a - 1 };
                                        assert(fm.members[a2].0 == k);
                                    }
                                }
                            }
                        }
                        Ok(out)
                    },
                }
            },
        }
    }

    /// Forward a command to its match's game. On success the full snapshot is
    /// broadcast to every member of the match; on failure the failure's text
    /// is broadcast instead. A match without a game is reported as an error,
    /// with nothing changed.
    #[verifier::loop_isolation(false)]
    pub fn dispatch(&mut self, msg: &ClientActorMessage) -> (r: Result<Vec<Delivery>, AppError>)
        requires
            old(self).wf(),
        ensures
            final(self).wf(),
            ({
                let m = old(self).model();
                let gid = msg.game_id;
                if !has_key(m.games, gid) {
                    &&& r is Err
                    &&& r->Err_0.error_type == AppErrorType::GameStateError
                    &&& r->Err_0.message@ == "Game not found"@
                    &&& final(self).model() == m
                } else {
                    let g0 = val_of(m.games, gid);
                    let res = spec_handle(g0, msg.id, msg.msg);
                    let g1 = if res is Ok {
                        res->Ok_0
                    } else {
                        g0
                    };
                    let text = if res is Ok {
                        snapshot_seq(g1)
                    } else {
                        err_text(res->Err_0)
                    };
                    &&& r is Ok
                    &&& final(self).model().games == m.games.update(
                        idx_of(m.games, gid),
                        (gid, g1),
                    )
                    &&& final(self).model().members == m.members
                    &&& final(self).model().sessions == m.sessions
                    &&& msgs(r->Ok_0@) == to_all(val_of(m.members, gid), m.sessions, text)
                }
            }),
    {
        let ghost m = old(self).model();
        let gid = msg.game_id;
        match find_key(&self.games, gid) {
            None => {
                proof {
                    if has_key(m.games, gid) {
                        let i = idx_of(m.games, gid);
                        assert(0 <= i < m.games.len() && m.games[i].0 == gid);
                        assert(self.games@[i].0 == gid);
                    }
                }
                Err(AppError::new(AppErrorType::GameStateError, "Game not found"))
            },
            Some(gi) => {
                proof {
                    lemma_idx_of(m.games, gid, gi as int);
                }
                let (k, mut game) = self.games.remove(gi);
                let hres = game.handle_msg(msg);
                let response: String = match hres {
                    Ok(_) => snapshot_json(&game),
                    Err(e) => e.message,
                };
                self.games.insert(gi, (k, game));
                let ghost g1 = if spec_handle(val_of(m.games, gid), msg.id, msg.msg) is Ok {
                    spec_handle(val_of(m.games, gid), msg.id, msg.msg)->Ok_0
                } else {
                    val_of(m.games, gid)
                };
                proof {
                    assert(self.model().games =~~= m.games.update(gi as int, (gid, g1)));
                    assert(self.model().members =~~= m.members);
                    assert(self.model().sessions =~~= m.sessions);
                    lemma_update_keeps_keys(m.games, gi as int, (gid, g1));
                }
                match find_key(&self.games_users_ids, gid) {
                    None => {
                        proof {
                            assert(has_key(m.games, gid));
                            assert(has_key(m.members, gid));
                            let i = idx_of(m.members, gid);
                            assert(0 <= i < m.members.len() && m.members[i].0 == gid);
                            assert(self.games_users_ids@[i].0 == gid);
                            assert(false);
                        }
                        Ok(Vec::new())
                    },
                    Some(mi) => {
                        proof {
                            lemma_idx_of(m.members, gid, mi as int);
                        }
                        let ghost members = val_of(m.members, gid);
                        let mut out: Vec<Delivery> = Vec::new();
                        let mem_len = self.games_users_ids[mi].1.len();
                        proof {
                            assert(members.take(0) =~= Seq::<u128>::empty());
                            assert(msgs(out@) =~= to_all(
                                members.take(0),
                                m.sessions,
                                response@,
                            ));
                        }
                        let mut j: usize = 0;
                        while j < mem_len
                            invariant
                                j <= mem_len,
                                msgs(out@) == to_all(members.take(j as int), m.sessions, response@),
                            decreases mem_len - j,
                        {
                            let target = self.games_users_ids[mi].1[j];
                            proof {
                                assert(members.take(j as int + 1).drop_last() =~= members.take(
                                    j as int,
                                ));
                                assert(members.take(j as int + 1).last() == members[j as int]);
                            }
                            self.send_message(&mut out, response.as_str(), target);
                            j += 1;
                        }
                        proof {
                            assert(members.take(mem_len as int) =~= members);
                        }
                        Ok(out)
                    },
                }
            },
        }
    }
}

impl Default for Lobby {
    /// An empty registry.
    fn default() -> (l: Lobby)
        ensures
            l.wf(),
            l.model().sessions == Seq::<u128>::empty(),
            l.model().members == Seq::<(u128, Seq<u128>)>::empty(),
            l.model().games == Seq::<(u128, GameModel)>::empty(),
    {
        let l = Lobby { sessions: Vec::new(), games_users_ids: Vec::new(), games: Vec::new() };
        proof {
            assert(l.model().members =~= Seq::<(u128, Seq<u128>)>::empty());
            assert(l.model().games =~= Seq::<(u128, GameModel)>::empty());
        }
        l
    }
}

} // verus!
