//! The authoritative per-match state: players, the match state machine,
//! the winner, and combat and movement resolution.
//!
//! Coordinates are carried in half-units: one unit of the game world is two
//! half-units, so every value the rules produce (spawns at x = 20 and
//! x = 300, steps of 40, an attack radius of 30, a body radius of two and a
//! half units) is an exact integer here.

use vstd::prelude::*;

use crate::assoc::{has_key, idx_of, lemma_idx_of, lemma_update_keeps_keys, unique_keys, val_of};
use crate::assoc::find_key;
use crate::errors::{AppError, AppErrorType};
use crate::messages::{ClientActorMessage, Msg};

verus! {

/// Health every player starts with.
pub const INITIAL_HEALTH: i32 = 1000;

/// Damage dealt by one connecting hit.
pub const DAMAGE: i32 = 100;

/// Attack radius, in units.
pub const ATTACK_RADIUS: i32 = 30;

/// Body width, in units; half of it, the body radius, is `BODY_WIDTH` half-units.
pub const BODY_WIDTH: i32 = 5;

/// Body height, in units.
pub const BODY_HEIGHT: i32 = 10;

/// Distance of one movement step: 40 units, in half-units.
pub const SPEED_HALF: i64 = 80;

/// The first joiner spawns at (20, 5), in half-units.
pub const SPAWN_LEFT_X_HALF: i64 = 40;

/// The second joiner spawns at (300, 5), in half-units.
pub const SPAWN_RIGHT_X_HALF: i64 = 600;

/// Both spawn positions share y = 5, in half-units.
pub const SPAWN_Y_HALF: i64 = 10;

/// A position on the arena plane, in half-units.
#[derive(Clone, Copy, PartialEq, Eq, Structural, Debug)]
pub struct PlayerPosition {
    pub x: i64,
    pub y: i64,
}

/// A player's body extent, in units.
#[derive(Clone, Copy, PartialEq, Eq, Structural, Debug)]
pub struct PlayerBody {
    pub height: i32,
    pub width: i32,
}

/// One combatant's state, exclusively owned by its game.
#[derive(Clone, Copy, PartialEq, Eq, Structural, Debug)]
pub struct Player {
    pub health: i32,
    /// Half-units per movement command.
    pub speed: i64,
    pub damage: i32,
    /// Attack radius, in units.
    pub attack_zone: i32,
    pub body: PlayerBody,
    pub position: PlayerPosition,
}

/// The match state machine: it only ever advances along
/// `NotStarted` → `InProgress` → `GameOver`.
#[derive(Clone, Copy, PartialEq, Eq, Structural, Debug)]
pub enum GameState {
    NotStarted,
    InProgress,
    GameOver,
}

/// One match: the player list in join order, the match state, the winner.
pub struct Game {
    players: Vec<(u128, Player)>,
    state: GameState,
    winner: Option<u128>,
}

/// The mathematical model of a game.
#[verifier::ext_equal]
pub ghost struct GameModel {
    pub players: Seq<(u128, Player)>,
    pub state: GameState,
    pub winner: Option<u128>,
}

/// The ways a game operation can fail.
#[derive(Clone, Copy, PartialEq, Eq, Structural, Debug)]
pub enum GameErr {
    /// A command arrived before the match started.
    StateNotStarted,
    /// A command arrived after the match ended.
    StateGameOver,
    /// A third join was attempted.
    TooManyPlayers,
    /// The acting or targeted player is absent from the player list.
    PlayerMissing,
    /// No other player exists to act against.
    OpponentMissing,
}

/// The error kind each failure is reported under.
pub open spec fn err_kind(e: GameErr) -> AppErrorType {
    match e {
        GameErr::StateNotStarted => AppErrorType::GameStateError,
        GameErr::StateGameOver => AppErrorType::GameStateError,
        GameErr::TooManyPlayers => AppErrorType::NumberOfPlayersError,
        GameErr::PlayerMissing => AppErrorType::PlayerNotFoundError,
        GameErr::OpponentMissing => AppErrorType::PlayerNotFoundError,
    }
}

/// The message text each failure carries.
pub open spec fn err_text(e: GameErr) -> Seq<char> {
    match e {
        GameErr::StateNotStarted => "Game state is NotStarted"@,
        GameErr::StateGameOver => "Game state is GameOver"@,
        GameErr::TooManyPlayers => "The number of players cannot exceed 2"@,
        GameErr::PlayerMissing => "Player not found"@,
        GameErr::OpponentMissing => "Opponent player not found"@,
    }
}

/// The player a join creates: spawned left when the game was empty, right
/// otherwise.
pub open spec fn spec_spawn(count: nat) -> Player {
    Player {
        health: INITIAL_HEALTH,
        speed: SPEED_HALF,
        damage: DAMAGE,
        attack_zone: ATTACK_RADIUS,
        body: PlayerBody { height: BODY_HEIGHT, width: BODY_WIDTH },
        position: PlayerPosition {
            x: if count == 0 { SPAWN_LEFT_X_HALF } else { SPAWN_RIGHT_X_HALF },
            y: SPAWN_Y_HALF,
        },
    }
}

/// A player's fixed attributes are the ones every join hands out.
pub open spec fn valid_player(p: Player) -> bool {
    &&& p.speed == SPEED_HALF
    &&& p.damage == DAMAGE
    &&& p.attack_zone == ATTACK_RADIUS
    &&& p.body == (PlayerBody { height: BODY_HEIGHT, width: BODY_WIDTH })
    &&& p.health <= INITIAL_HEALTH
}

/// Well-formedness of a game: at most two players with distinct identifiers,
/// the match is past `NotStarted` exactly when it is full, the winner is set
/// exactly when the match is over, and every player not yet defeated is alive.
pub open spec fn model_wf(m: GameModel) -> bool {
    &&& m.players.len() <= 2
    &&& unique_keys(m.players)
    &&& (m.players.len() == 2 <==> m.state != GameState::NotStarted)
    &&& (m.state == GameState::GameOver <==> m.winner is Some)
    &&& (forall|i: int| 0 <= i < m.players.len() ==> valid_player(#[trigger] m.players[i].1))
    &&& (m.state != GameState::GameOver ==> forall|i: int|
        0 <= i < m.players.len() ==> (#[trigger] m.players[i].1).health >= 1)
    &&& (m.state == GameState::GameOver ==> forall|i: int|
        0 <= i < m.players.len() ==> (#[trigger] m.players[i].1).health >= 1 - DAMAGE)
}

/// The identifier of the first entry other than `id`, in join order.
pub open spec fn first_other(s: Seq<(u128, Player)>, id: u128) -> Option<u128>
    decreases s.len(),
{
    if s.len() == 0 {
        None
    } else if s[0].0 != id {
        Some(s[0].0)
    } else {
        first_other(s.skip(1), id)
    }
}

/// An inclusive interval test.
pub open spec fn spec_in_range(val: int, left_border: int, right_border: int) -> bool {
    left_border <= val && val <= right_border
}

/// The attack-zone overlap test. Both borders of the defender's hit-box are
/// computed the same way, collapsing the hit-box to the single coordinate
/// `x - bodyRadius` (a deliberate degeneracy); the attack connects exactly
/// when that coordinate lies within the attacker's inclusive attack zone.
pub open spec fn spec_in_zone(attacker: Player, defender: Player) -> bool {
    let body_radius = defender.body.width as int;
    let hit_box = defender.position.x - body_radius;
    let left_attack_zone = attacker.position.x - 2 * (attacker.attack_zone as int);
    let right_attack_zone = attacker.position.x + 2 * (attacker.attack_zone as int);
    spec_in_range(hit_box, left_attack_zone, right_attack_zone)
}

/// The player list with the value under `id` replaced.
pub open spec fn update_pl(s: Seq<(u128, Player)>, id: u128, p: Player) -> Seq<(u128, Player)> {
    s.update(idx_of(s, id), (id, p))
}

/// A player after one movement step: x changes by exactly `speed` half-units
/// (wrapping at the ends of the 64-bit range), y never changes.
pub open spec fn spec_moved(p: Player, direction: Msg) -> Player {
    let x2 = if direction == Msg::Left {
        p.position.x.wrapping_sub(p.speed)
    } else {
        p.position.x.wrapping_add(p.speed)
    };
    Player { position: PlayerPosition { x: x2, y: p.position.y }, ..p }
}

/// What a join does: rejected when the game is full; otherwise the joiner is
/// spawned (left first, right second), replacing an earlier entry under the
/// same identifier, and the match starts when it becomes full.
pub open spec fn spec_add(m: GameModel, id: u128) -> Result<GameModel, GameErr> {
    if m.players.len() >= 2 {
        Err(GameErr::TooManyPlayers)
    } else {
        let p = spec_spawn(m.players.len());
        let players2 = if has_key(m.players, id) {
            update_pl(m.players, id, p)
        } else {
            m.players.push((id, p))
        };
        Ok(GameModel {
            players: players2,
            state: if players2.len() == 2 { GameState::InProgress } else { m.state },
            winner: m.winner,
        })
    }
}

/// What a movement command does.
pub open spec fn spec_move(m: GameModel, id: u128, direction: Msg) -> Result<GameModel, GameErr> {
    if !has_key(m.players, id) {
        Err(GameErr::PlayerMissing)
    } else {
        Ok(GameModel {
            players: update_pl(m.players, id, spec_moved(val_of(m.players, id), direction)),
            state: m.state,
            winner: m.winner,
        })
    }
}

/// What an attack does: nothing outside the attack zone; inside it the
/// defender takes the attacker's damage, and a defender driven to zero or
/// below ends the match with the attacker as winner.
pub open spec fn spec_attack(m: GameModel, attacker_id: u128, def_id: u128) -> Result<
    GameModel,
    GameErr,
> {
    if !has_key(m.players, attacker_id) || !has_key(m.players, def_id) {
        Err(GameErr::PlayerMissing)
    } else {
        let a = val_of(m.players, attacker_id);
        let d = val_of(m.players, def_id);
        if spec_in_zone(a, d) {
            let d2 = Player { health: (d.health - a.damage) as i32, ..d };
            if d2.health <= 0 {
                Ok(GameModel {
                    players: update_pl(m.players, def_id, d2),
                    state: GameState::GameOver,
                    winner: Some(attacker_id),
                })
            } else {
                Ok(GameModel { players: update_pl(m.players, def_id, d2), ..m })
            }
        } else {
            Ok(m)
        }
    }
}

/// What a command does: rejected unless the match is in progress; the
/// opponent is the first other entry of the player list; `Hit` attacks it,
/// `Wait` does nothing, `Left` and `Right` move the sender.
pub open spec fn spec_handle(m: GameModel, id: u128, msg: Msg) -> Result<GameModel, GameErr> {
    if m.state == GameState::GameOver {
        Err(GameErr::StateGameOver)
    } else if m.state == GameState::NotStarted {
        Err(GameErr::StateNotStarted)
    } else {
        match first_other(m.players, id) {
            None => Err(GameErr::OpponentMissing),
            Some(opponent) => match msg {
                Msg::Hit => spec_attack(m, id, opponent),
                Msg::Wait => Ok(m),
                Msg::Left => spec_move(m, id, Msg::Left),
                Msg::Right => spec_move(m, id, Msg::Right),
            },
        }
    }
}

/// The game after `n` hit commands by `attacker_id`, each resolved through
/// [`spec_handle`].
pub open spec fn spec_hit_seq(m: GameModel, attacker_id: u128, n: nat) -> Result<
    GameModel,
    GameErr,
>
    decreases n,
{
    if n == 0 {
        Ok(m)
    } else {
        match spec_handle(m, attacker_id, Msg::Hit) {
            Ok(m2) => spec_hit_seq(m2, attacker_id, (n - 1) as nat),
            Err(e) => Err(e),
        }
    }
}

/// How far along the match state machine a state is.
pub open spec fn state_rank(s: GameState) -> int {
    match s {
        GameState::NotStarted => 0,
        GameState::InProgress => 1,
        GameState::GameOver => 2,
    }
}

/// In a well-formed game the player count never exceeds two.
pub proof fn lemma_player_cap(m: GameModel)
    requires
        model_wf(m),
    ensures
        m.players.len() <= 2,
{
}

/// The match state never regresses: a join can only advance `NotStarted` to
/// `InProgress`, and a command can only advance `InProgress` to `GameOver`.
/// The winner is set exactly there, on the transition into `GameOver`, and
/// never anywhere else.
pub proof fn lemma_state_monotonic(m: GameModel, id: u128, msg: Msg)
    requires
        model_wf(m),
    ensures
        spec_add(m, id) is Ok ==> {
            let m2 = spec_add(m, id)->Ok_0;
            &&& state_rank(m.state) <= state_rank(m2.state)
            &&& (m2.state == m.state || (m.state == GameState::NotStarted && m2.state
                == GameState::InProgress))
            &&& m2.winner == m.winner
        },
        spec_handle(m, id, msg) is Ok ==> {
            let m2 = spec_handle(m, id, msg)->Ok_0;
            &&& state_rank(m.state) <= state_rank(m2.state)
            &&& (m2.state == m.state || (m.state == GameState::InProgress && m2.state
                == GameState::GameOver))
            &&& (m2.winner == m.winner || (m.winner is None && m2.state == GameState::GameOver
                && m2.winner == Some(id)))
        },
{
}

/// A command against a match that is not in progress always fails with a
/// state error and leaves the whole game — players included — unchanged.
pub proof fn lemma_commands_rejected_outside_play(m: GameModel, id: u128, msg: Msg)
    requires
        m.state != GameState::InProgress,
    ensures
        spec_handle(m, id, msg) is Err,
        err_kind(spec_handle(m, id, msg)->Err_0) == AppErrorType::GameStateError,
{
}

/// Unfolding of [`first_other`] for a two-player list.
proof fn lemma_first_other2(s: Seq<(u128, Player)>, id: u128)
    requires
        s.len() == 2,
    ensures
        first_other(s, id) == (if s[0].0 != id {
            Some(s[0].0)
        } else if s[1].0 != id {
            Some(s[1].0)
        } else {
            None::<u128>
        }),
{
    reveal_with_fuel(first_other, 3);
    let t = s.skip(1);
    assert(t.len() == 1);
    assert(t[0] == s[1]);
    assert(t.skip(1).len() == 0);
    assert(first_other(t.skip(1), id) is None);
}

/// One in-range hit: it succeeds, leaves the attacker and both positions
/// untouched, costs the defender exactly the attacker's damage, and ends the
/// match with the attacker as winner exactly when that drains the defender.
proof fn lemma_hit_step(m: GameModel, att: u128, def: u128)
    requires
        model_wf(m),
        m.state == GameState::InProgress,
        has_key(m.players, att),
        has_key(m.players, def),
        att != def,
        first_other(m.players, att) == Some(def),
        spec_in_zone(val_of(m.players, att), val_of(m.players, def)),
    ensures
        spec_handle(m, att, Msg::Hit) is Ok,
        ({
            let m2 = spec_handle(m, att, Msg::Hit)->Ok_0;
            &&& model_wf(m2)
            &&& m2.players.len() == 2
            &&& has_key(m2.players, att)
            &&& has_key(m2.players, def)
            &&& first_other(m2.players, att) == Some(def)
            &&& val_of(m2.players, att) == val_of(m.players, att)
            &&& val_of(m2.players, def) == (Player {
                health: (val_of(m.players, def).health - DAMAGE) as i32,
                ..val_of(m.players, def)
            })
            &&& spec_in_zone(val_of(m2.players, att), val_of(m2.players, def))
            &&& (val_of(m.players, def).health - DAMAGE > 0 ==> m2.state == GameState::InProgress
                && m2.winner == m.winner)
            &&& (val_of(m.players, def).health - DAMAGE <= 0 ==> m2.state == GameState::GameOver
                && m2.winner == Some(att))
        }),
{
    let s = m.players;
    assert(s.len() == 2);
    let ia = idx_of(s, att);
    let id_ = idx_of(s, def);
    assert(0 <= ia < s.len() && s[ia].0 == att);
    assert(0 <= id_ < s.len() && s[id_].0 == def);
    assert(valid_player(s[ia].1));
    assert(valid_player(s[id_].1));
    let d = val_of(s, def);
    let d2 = Player { health: (d.health - DAMAGE) as i32, ..d };
    let s2 = update_pl(s, def, d2);
    lemma_update_keeps_keys(s, id_, (def, d2));
    lemma_idx_of(s2, att, ia);
    lemma_idx_of(s2, def, id_);
    lemma_first_other2(s, att);
    lemma_first_other2(s2, att);
    let m2 = spec_handle(m, att, Msg::Hit)->Ok_0;
    assert(m2.players == s2);
}

/// Hits from within range, against a defender holding `DAMAGE * j` health,
/// keep the match in progress through the first `j - 1` and end it at the
/// `j`-th, with the attacker as winner and the defender at zero.
pub proof fn lemma_hits_drain(m: GameModel, att: u128, def: u128, j: nat)
    requires
        model_wf(m),
        m.state == GameState::InProgress,
        has_key(m.players, att),
        has_key(m.players, def),
        att != def,
        first_other(m.players, att) == Some(def),
        spec_in_zone(val_of(m.players, att), val_of(m.players, def)),
        val_of(m.players, def).health == DAMAGE * j,
        1 <= j,
    ensures
        spec_hit_seq(m, att, (j - 1) as nat) is Ok,
        spec_hit_seq(m, att, (j - 1) as nat)->Ok_0.state == GameState::InProgress,
        val_of(spec_hit_seq(m, att, (j - 1) as nat)->Ok_0.players, def).health == DAMAGE,
        spec_hit_seq(m, att, j) is Ok,
        spec_hit_seq(m, att, j)->Ok_0.state == GameState::GameOver,
        spec_hit_seq(m, att, j)->Ok_0.winner == Some(att),
        val_of(spec_hit_seq(m, att, j)->Ok_0.players, def).health == 0,
    decreases j,
{
    lemma_hit_step(m, att, def);
    let m2 = spec_handle(m, att, Msg::Hit)->Ok_0;
    if j == 1 {
        assert(spec_hit_seq(m, att, 1) == spec_hit_seq(m2, att, 0));
    } else {
        assert(val_of(m2.players, def).health == DAMAGE * (j - 1));
        lemma_hits_drain(m2, att, def, (j - 1) as nat);
        assert(spec_hit_seq(m, att, (j - 1) as nat) == spec_hit_seq(m2, att, (j - 2) as nat));
        assert(spec_hit_seq(m, att, j) == spec_hit_seq(m2, att, (j - 1) as nat));
    }
}

/// With damage 100 and health 1000, and the attacker within hit range of the
/// defender, exactly ten hit commands drive the defender's health to zero and
/// end the match with the attacker as winner; the ninth leaves the match in
/// progress with the defender at 100.
pub proof fn lemma_ten_hits(m: GameModel, att: u128, def: u128)
    requires
        model_wf(m),
        m.state == GameState::InProgress,
        has_key(m.players, att),
        has_key(m.players, def),
        att != def,
        first_other(m.players, att) == Some(def),
        val_of(m.players, def).health == 1000,
        spec_in_zone(val_of(m.players, att), val_of(m.players, def)),
    ensures
        spec_hit_seq(m, att, 9) is Ok,
        spec_hit_seq(m, att, 9)->Ok_0.state == GameState::InProgress,
        val_of(spec_hit_seq(m, att, 9)->Ok_0.players, def).health == 100,
        spec_hit_seq(m, att, 10) is Ok,
        spec_hit_seq(m, att, 10)->Ok_0.state == GameState::GameOver,
        spec_hit_seq(m, att, 10)->Ok_0.winner == Some(att),
        val_of(spec_hit_seq(m, att, 10)->Ok_0.players, def).health == 0,
{
    lemma_hits_drain(m, att, def, 10);
}

/// Movement away from the ends of the coordinate range changes x by exactly
/// `speed` half-units (40 units) in the commanded direction, never touches y
/// or any other field, never clamps, and leaves every other player untouched.
pub proof fn lemma_movement_exact(m: GameModel, id: u128, direction: Msg)
    requires
        model_wf(m),
        has_key(m.players, id),
        i64::MIN + SPEED_HALF <= val_of(m.players, id).position.x,
        val_of(m.players, id).position.x <= i64::MAX - SPEED_HALF,
        direction == Msg::Left || direction == Msg::Right,
    ensures
        spec_move(m, id, direction) is Ok,
        ({
            let p0 = val_of(m.players, id);
            let p1 = val_of(spec_move(m, id, direction)->Ok_0.players, id);
            &&& p1 == (Player {
                position: PlayerPosition { x: p1.position.x, y: p0.position.y },
                ..p0
            })
            &&& (direction == Msg::Left ==> p1.position.x == p0.position.x - SPEED_HALF)
            &&& (direction == Msg::Right ==> p1.position.x == p0.position.x + SPEED_HALF)
        }),
        forall|k: u128|
            k != id && has_key(m.players, k) ==> has_key(
                spec_move(m, id, direction)->Ok_0.players,
                k,
            ) && val_of(spec_move(m, id, direction)->Ok_0.players, k) == val_of(m.players, k),
{
    let s = m.players;
    let i = idx_of(s, id);
    assert(0 <= i < s.len() && s[i].0 == id);
    let p1 = spec_moved(val_of(s, id), direction);
    let s2 = update_pl(s, id, p1);
    lemma_update_keeps_keys(s, i, (id, p1));
    lemma_idx_of(s2, id, i);
    assert forall|k: u128| k != id && has_key(s, k) implies has_key(s2, k) && val_of(s2, k)
        == val_of(s, k) by {
        let a = idx_of(s, k);
        assert(0 <= a < s.len() && s[a].0 == k);
        assert(s2[a].0 == k);
        lemma_idx_of(s2, k, a);
        lemma_idx_of(s, k, a);
    }
}

impl Player {
    /// Step right by `speed` half-units.
    pub fn go_right(&mut self)
        ensures
            *final(self) == spec_moved(*old(self), Msg::Right),
    {
        self.position.x = self.position.x.wrapping_add(self.speed);
    }

    /// Step left by `speed` half-units.
    pub fn go_left(&mut self)
        ensures
            *final(self) == spec_moved(*old(self), Msg::Left),
    {
        self.position.x = self.position.x.wrapping_sub(self.speed);
    }

    /// Lose `damage` health.
    pub fn take_damage(&mut self, damage: i32)
        requires
            i32::MIN <= old(self).health - damage <= i32::MAX,
        ensures
            *final(self) == (Player { health: (old(self).health - damage) as i32, ..*old(self) }),
    {
        self.health = self.health - damage;
    }

    /// Whether this player is still standing.
    pub fn is_alive(&self) -> (r: bool)
        ensures
            r == (self.health > 0),
    {
        if self.health <= 0 {
            return false;
        }
        true
    }
}

impl Game {
    /// The mathematical model of this game.
    pub closed spec fn model(&self) -> GameModel {
        GameModel { players: self.players@, state: self.state, winner: self.winner }
    }

    /// Well-formedness; see [`model_wf`].
    pub open spec fn wf(&self) -> bool {
        model_wf(self.model())
    }

    /// A fresh match: no players, not started, no winner.
    pub fn new() -> (g: Game)
        ensures
            g.wf(),
            g.model().players == Seq::<(u128, Player)>::empty(),
            g.model().state == GameState::NotStarted,
            g.model().winner is None,
    {
        Game { players: Vec::new(), state: GameState::NotStarted, winner: None }
    }

    /// The current match state.
    pub fn state(&self) -> (s: GameState)
        ensures
            s == self.model().state,
    {
        self.state
    }

    /// The winner, once the match is over.
    pub fn winner(&self) -> (w: Option<u128>)
        ensures
            w == self.model().winner,
    {
        self.winner
    }

    /// How many players have joined.
    pub fn player_count(&self) -> (n: usize)
        ensures
            n == self.model().players.len(),
    {
        self.players.len()
    }

    /// The player identifiers, in join order.
    pub fn player_ids(&self) -> (ids: Vec<u128>)
        ensures
            ids@.len() == self.model().players.len(),
            forall|i: int| 0 <= i < ids@.len() ==> ids@[i] == self.model().players[i].0,
    {
        let mut ids: Vec<u128> = Vec::new();
        let mut i: usize = 0;
        while i < self.players.len()
            invariant
                i <= self.players@.len(),
                ids@.len() == i,
                forall|j: int| 0 <= j < i ==> ids@[j] == self.players@[j].0,
            decreases self.players@.len() - i,
        {
            ids.push(self.players[i].0);
            i += 1;
        }
        ids
    }

    /// The player entries, in join order.
    pub fn player_entries(&self) -> (r: &Vec<(u128, Player)>)
        ensures
            r@ == self.model().players,
    {
        &self.players
    }

    /// The player joined under `player_id`.
    pub fn get_player(&self, player_id: u128) -> (r: Result<&Player, AppError>)
        requires
            self.wf(),
        ensures
            has_key(self.model().players, player_id) ==> r is Ok && *r->Ok_0 == val_of(
                self.model().players,
                player_id,
            ),
            !has_key(self.model().players, player_id) ==> r is Err
                && r->Err_0.error_type == AppErrorType::PlayerNotFoundError
                && r->Err_0.message@ == err_text(GameErr::PlayerMissing),
    {
        match find_key(&self.players, player_id) {
            Some(i) => {
                proof {
                    lemma_idx_of(self.players@, player_id, i as int);
                }
                Ok(&self.players[i].1)
            },
            None => Err(AppError::new(AppErrorType::PlayerNotFoundError, "Player not found")),
        }
    }

    /// Join the match; see [`spec_add`].
    pub fn add_player(&mut self, player_id: u128) -> (r: Result<(), AppError>)
        requires
            old(self).wf(),
        ensures
            final(self).wf(),
            match spec_add(old(self).model(), player_id) {
                Ok(m2) => r is Ok && final(self).model() == m2,
                Err(e) => r is Err && final(self).model() == old(self).model()
                    && r->Err_0.error_type == err_kind(e) && r->Err_0.message@ == err_text(e),
            },
    {
        if self.players.len() >= 2 {
            return Err(
                AppError::new(
                    AppErrorType::NumberOfPlayersError,
                    "The number of players cannot exceed 2",
                ),
            );
        }
        let count = self.players.len();
        let player_position = if count == 0 {
            PlayerPosition { x: SPAWN_LEFT_X_HALF, y: SPAWN_Y_HALF }
        } else {
            PlayerPosition { x: SPAWN_RIGHT_X_HALF, y: SPAWN_Y_HALF }
        };
        let new_player = Player {
            health: INITIAL_HEALTH,
            speed: SPEED_HALF,
            damage: DAMAGE,
            attack_zone: ATTACK_RADIUS,
            body: PlayerBody { height: BODY_HEIGHT, width: BODY_WIDTH },
            position: player_position,
        };
        match find_key(&self.players, player_id) {
            Some(i) => {
                proof {
                    lemma_idx_of(self.players@, player_id, i as int);
                    lemma_update_keeps_keys(
                        self.players@,
                        i as int,
                        (player_id, new_player),
                    );
                }
                self.players.set(i, (player_id, new_player));
            },
            None => {
                self.players.push((player_id, new_player));
            },
        }
        if self.players.len() == 2 {
            self.state = GameState::InProgress;
        }
        proof {
            let m2 = spec_add(old(self).model(), player_id)->Ok_0;
            assert(self.model().players =~= m2.players);
            assert(self.model() =~= m2);
        }
        Ok(())
    }

    /// Move a player; see [`spec_move`]. Any direction other than `Left`
    /// steps right.
    pub fn handle_movement(&mut self, player_id: u128, direction: Msg) -> (r: Result<(), AppError>)
        requires
            old(self).wf(),
        ensures
            final(self).wf(),
            match spec_move(old(self).model(), player_id, direction) {
                Ok(m2) => r is Ok && final(self).model() == m2,
                Err(e) => r is Err && final(self).model() == old(self).model()
                    && r->Err_0.error_type == err_kind(e) && r->Err_0.message@ == err_text(e),
            },
    {
        match find_key(&self.players, player_id) {
            None => Err(AppError::new(AppErrorType::PlayerNotFoundError, "Player not found")),
            Some(i) => {
                proof {
                    lemma_idx_of(self.players@, player_id, i as int);
                }
                let mut player = self.players[i].1;
                if direction == Msg::Left {
                    player.go_left();
                } else {
                    player.go_right();
                }
                proof {
                    lemma_update_keeps_keys(self.players@, i as int, (player_id, player));
                }
                self.players.set(i, (player_id, player));
                proof {
                    let m2 = spec_move(old(self).model(), player_id, direction)->Ok_0;
                    assert(self.model().players =~= m2.players);
                    assert(self.model() =~= m2);
                }
                Ok(())
            },
        }
    }

    /// An inclusive interval test.
    fn in_range(&self, val: i128, left_border: i128, right_border: i128) -> (r: bool)
        ensures
            r == spec_in_range(val as int, left_border as int, right_border as int),
    {
        if val >= left_border && val <= right_border {
            return true;
        }
        false
    }

    /// Whether the defender's hit-box coordinate lies in the attacker's
    /// attack zone; see [`spec_in_zone`].
    fn in_attack_zone(&self, attacker_id: u128, def_id: u128) -> (r: Result<bool, AppError>)
        requires
            self.wf(),
        ensures
            has_key(self.model().players, attacker_id) && has_key(self.model().players, def_id)
                ==> r is Ok && r->Ok_0 == spec_in_zone(
                val_of(self.model().players, attacker_id),
                val_of(self.model().players, def_id),
            ),
            !(has_key(self.model().players, attacker_id) && has_key(
                self.model().players,
                def_id,
            )) ==> r is Err && r->Err_0.error_type == AppErrorType::PlayerNotFoundError
                && r->Err_0.message@ == err_text(GameErr::PlayerMissing),
    {
        let attacker = match self.get_player(attacker_id) {
            Ok(p) => *p,
            Err(e) => {
                return Err(e);
            },
        };
        let def_player = match self.get_player(def_id) {
            Ok(p) => *p,
            Err(e) => {
                return Err(e);
            },
        };
        let body_radius: i128 = def_player.body.width as i128;
        let hit_box: i128 = def_player.position.x as i128 - body_radius;
        let left_attack_zone: i128 = attacker.position.x as i128 - 2 * (
        attacker.attack_zone as i128);
        let right_attack_zone: i128 = attacker.position.x as i128 + 2 * (
        attacker.attack_zone as i128);
        if self.in_range(hit_box, left_attack_zone, right_attack_zone) {
            Ok(true)
        } else {
            Ok(false)
        }
    }

    /// Resolve an attack; see [`spec_attack`]. Attacks happen only while the
    /// match is in progress.
    pub fn handle_attack(&mut self, attacker_id: u128, def_id: u128) -> (r: Result<(), AppError>)
        requires
            old(self).wf(),
            old(self).model().state == GameState::InProgress,
        ensures
            final(self).wf(),
            match spec_attack(old(self).model(), attacker_id, def_id) {
                Ok(m2) => r is Ok && final(self).model() == m2,
                Err(e) => r is Err && final(self).model() == old(self).model()
                    && r->Err_0.error_type == err_kind(e) && r->Err_0.message@ == err_text(e),
            },
    {
        let in_zone = match self.in_attack_zone(attacker_id, def_id) {
            Ok(b) => b,
            Err(e) => {
                return Err(e);
            },
        };
        if in_zone {
            let damage = match self.get_player(attacker_id) {
                Ok(p) => p.damage,
                Err(e) => {
                    return Err(e);
                },
            };
            match find_key(&self.players, def_id) {
                Some(di) => {
                    proof {
                        lemma_idx_of(self.players@, def_id, di as int);
                    }
                    let mut def_player = self.players[di].1;
                    def_player.take_damage(damage);
                    proof {
                        lemma_update_keeps_keys(
                            self.players@,
                            di as int,
                            (def_id, def_player),
                        );
                    }
                    self.players.set(di, (def_id, def_player));
                    if !def_player.is_alive() {
                        self.state = GameState::GameOver;
                        self.winner = Some(attacker_id);
                    }
                    proof {
                        let m2 = spec_attack(old(self).model(), attacker_id, def_id)->Ok_0;
                        assert(self.model().players =~= m2.players);
                        assert(self.model() =~= m2);
                    }
                    Ok(())
                },
                None => {
                    proof {
                        assert(false);
                    }
                    Err(AppError::new(AppErrorType::PlayerNotFoundError, "Player not found"))
                },
            }
        } else {
            Ok(())
        }
    }

    /// The first player other than `player_id`, in join order.
    fn get_opponent_id(&self, player_id: u128) -> (r: Result<u128, AppError>)
        ensures
            match first_other(self.model().players, player_id) {
                Some(o) => r is Ok && r->Ok_0 == o,
                None => r is Err && r->Err_0.error_type == AppErrorType::PlayerNotFoundError
                    && r->Err_0.message@ == err_text(GameErr::OpponentMissing),
            },
    {
        let ghost s = self.players@;
        proof {
            assert(s.skip(0) =~= s);
        }
        let mut i: usize = 0;
        while i < self.players.len()
            invariant
                i <= s.len(),
                s == self.players@,
                first_other(s.skip(i as int), player_id) == first_other(s, player_id),
            decreases s.len() - i,
        {
            let e = &self.players[i];
            if e.0 != player_id {
                proof {
                    assert(s.skip(i as int)[0] == s[i as int]);
                }
                return Ok(e.0);
            }
            proof {
                assert(s.skip(i as int)[0].0 == player_id);
                assert(s.skip(i as int).skip(1) =~= s.skip(i as int + 1));
            }
            i += 1;
        }
        proof {
            assert(s.skip(i as int).len() == 0);
        }
        Err(AppError::new(AppErrorType::PlayerNotFoundError, "Opponent player not found"))
    }

    /// Apply one command from `msg.id`; see [`spec_handle`].
    pub fn handle_msg(&mut self, msg: &ClientActorMessage) -> (r: Result<(), AppError>)
        requires
            old(self).wf(),
        ensures
            final(self).wf(),
            match spec_handle(old(self).model(), msg.id, msg.msg) {
                Ok(m2) => r is Ok && final(self).model() == m2,
                Err(e) => r is Err && final(self).model() == old(self).model()
                    && r->Err_0.error_type == err_kind(e) && r->Err_0.message@ == err_text(e),
            },
    {
        if self.state == GameState::GameOver {
            return Err(AppError::new(AppErrorType::GameStateError, "Game state is GameOver"));
        }
        if self.state == GameState::NotStarted {
            return Err(AppError::new(AppErrorType::GameStateError, "Game state is NotStarted"));
        }
        let opponent_id = match self.get_opponent_id(msg.id) {
            Ok(o) => o,
            Err(e) => {
                return Err(e);
            },
        };
        match msg.msg {
            Msg::Hit => self.handle_attack(msg.id, opponent_id),
            Msg::Wait => Ok(()),
            Msg::Left => self.handle_movement(msg.id, Msg::Left),
            Msg::Right => self.handle_movement(msg.id, Msg::Right),
        }
    }
}

} // verus!
