use combat_server::errors::AppErrorType;
use combat_server::game::Game;
use combat_server::game::GameState;
use combat_server::messages::ClientActorMessage;
use combat_server::messages::Msg;

const A: u128 = 0x8ec45aa2_fa28_42e8_a80c_fd6ea3098424;
const B: u128 = 0x11111111_2222_3333_4444_555566667777;
const C: u128 = 0x0;

fn cmd(id: u128, game_id: u128, msg: Msg) -> ClientActorMessage {
    ClientActorMessage { id, msg, game_id }
}

#[test]
fn parse_recognizes_the_four_tokens() {
    assert_eq!(Msg::from_str("\"Left\""), Ok(Msg::Left));
    assert_eq!(Msg::from_str("\"Right\""), Ok(Msg::Right));
    assert_eq!(Msg::from_str("\"Hit\""), Ok(Msg::Hit));
    assert_eq!(Msg::from_str("\"Wait\""), Ok(Msg::Wait));
}

#[test]
fn parse_rejects_everything_else() {
    assert_eq!(Msg::from_str(""), Err(()));
    assert_eq!(Msg::from_str("\"\""), Err(()));
    assert_eq!(Msg::from_str("\"left\""), Err(()));
    assert_eq!(Msg::from_str("Left"), Err(()));
    assert_eq!(Msg::from_str("\"Leftx\""), Err(()));
    assert_eq!(Msg::from_str("\"Wait\" "), Err(()));
}

#[test]
fn parse_requires_the_exact_quoted_token() {
    assert_eq!(Msg::from_str("xLefty"), Err(()));
    assert_eq!(Msg::from_str(" Hit "), Err(()));
    assert_eq!(Msg::from_str("xHitx"), Err(()));
    assert_eq!(Msg::from_str("Left\""), Err(()));
    assert_eq!(Msg::from_str("\"Left"), Err(()));
}

#[test]
fn spawn_positions_are_fixed() {
    // coordinates are half-units: (20, 5) is (40, 10), (300, 5) is (600, 10)
    let mut g = Game::new();
    g.add_player(A).unwrap();
    let p1 = g.get_player(A).unwrap();
    assert_eq!(p1.position.x, 2 * 20);
    assert_eq!(p1.position.y, 2 * 5);
    g.add_player(B).unwrap();
    let p2 = g.get_player(B).unwrap();
    assert_eq!(p2.position.x, 2 * 300);
    assert_eq!(p2.position.y, 2 * 5);
    let p1 = g.get_player(A).unwrap();
    assert_eq!(p1.position.x, 2 * 20);
}

#[test]
fn new_players_have_the_fixed_attributes() {
    let mut g = Game::new();
    g.add_player(A).unwrap();
    let p = g.get_player(A).unwrap();
    assert_eq!(p.health, 1000);
    assert_eq!(p.speed, 2 * 40);
    assert_eq!(p.damage, 100);
    assert_eq!(p.attack_zone, 30);
    assert_eq!(p.body.height, 10);
    assert_eq!(p.body.width, 5);
}

#[test]
fn player_count_never_exceeds_two() {
    let mut g = Game::new();
    assert_eq!(g.player_count(), 0);
    g.add_player(A).unwrap();
    assert_eq!(g.player_count(), 1);
    g.add_player(B).unwrap();
    assert_eq!(g.player_count(), 2);
    let _ = g.add_player(C);
    assert_eq!(g.player_count(), 2);
    let _ = g.add_player(A);
    assert_eq!(g.player_count(), 2);
}

#[test]
fn third_join_fails_and_changes_nothing() {
    let mut g = Game::new();
    g.add_player(A).unwrap();
    g.add_player(B).unwrap();
    let err = g.add_player(C).unwrap_err();
    assert!(matches!(err.error_type, AppErrorType::NumberOfPlayersError));
    assert_eq!(err.message, "The number of players cannot exceed 2");
    assert_eq!(g.player_count(), 2);
    assert_eq!(g.state(), GameState::InProgress);
    assert_eq!(g.get_player(A).unwrap().position.x, 40);
    assert_eq!(g.get_player(B).unwrap().position.x, 600);
    assert!(g.get_player(C).is_err());
}

#[test]
fn match_starts_when_second_player_joins() {
    let mut g = Game::new();
    assert_eq!(g.state(), GameState::NotStarted);
    g.add_player(A).unwrap();
    assert_eq!(g.state(), GameState::NotStarted);
    g.add_player(B).unwrap();
    assert_eq!(g.state(), GameState::InProgress);
    assert_eq!(g.winner(), None);
}

#[test]
fn rejoining_the_same_id_respawns_without_starting() {
    // a repeated identifier replaces the earlier entry, as a map insert does
    let mut g = Game::new();
    g.add_player(A).unwrap();
    g.add_player(A).unwrap();
    assert_eq!(g.player_count(), 1);
    assert_eq!(g.state(), GameState::NotStarted);
    // the game held one player, so the respawn uses the right-hand position
    assert_eq!(g.get_player(A).unwrap().position.x, 600);
}

#[test]
fn commands_fail_before_the_match_starts() {
    let mut g = Game::new();
    g.add_player(A).unwrap();
    let err = g.handle_msg(&cmd(A, 7, Msg::Left)).unwrap_err();
    assert!(matches!(err.error_type, AppErrorType::GameStateError));
    assert_eq!(err.message, "Game state is NotStarted");
    assert_eq!(g.get_player(A).unwrap().position.x, 40);
    assert_eq!(g.get_player(A).unwrap().health, 1000);
    assert_eq!(g.state(), GameState::NotStarted);
}

#[test]
fn movement_changes_x_by_exactly_the_speed() {
    let mut g = Game::new();
    g.add_player(A).unwrap();
    g.add_player(B).unwrap();
    g.handle_msg(&cmd(A, 7, Msg::Left)).unwrap();
    assert_eq!(g.get_player(A).unwrap().position.x, 40 - 80);
    assert_eq!(g.get_player(A).unwrap().position.y, 10);
    g.handle_msg(&cmd(A, 7, Msg::Right)).unwrap();
    g.handle_msg(&cmd(A, 7, Msg::Right)).unwrap();
    assert_eq!(g.get_player(A).unwrap().position.x, 40 + 80);
    assert_eq!(g.get_player(A).unwrap().position.y, 10);
    // the other player never moves
    assert_eq!(g.get_player(B).unwrap().position.x, 600);
}

#[test]
fn movement_is_never_clamped() {
    let mut g = Game::new();
    g.add_player(A).unwrap();
    g.add_player(B).unwrap();
    for _ in 0..1000 {
        g.handle_msg(&cmd(A, 7, Msg::Left)).unwrap();
    }
    assert_eq!(g.get_player(A).unwrap().position.x, 40 - 1000 * 80);
    assert_eq!(g.get_player(A).unwrap().position.y, 10);
}

#[test]
fn movement_of_an_unknown_player_fails() {
    let mut g = Game::new();
    let err = g.handle_movement(C, Msg::Left).unwrap_err();
    assert!(matches!(err.error_type, AppErrorType::PlayerNotFoundError));
    assert_eq!(err.message, "Player not found");
}

#[test]
fn wait_changes_nothing() {
    let mut g = Game::new();
    g.add_player(A).unwrap();
    g.add_player(B).unwrap();
    g.handle_msg(&cmd(A, 7, Msg::Wait)).unwrap();
    assert_eq!(g.get_player(A).unwrap().position.x, 40);
    assert_eq!(g.get_player(B).unwrap().position.x, 600);
    assert_eq!(g.get_player(A).unwrap().health, 1000);
    assert_eq!(g.get_player(B).unwrap().health, 1000);
    assert_eq!(g.state(), GameState::InProgress);
}

#[test]
fn hit_from_spawn_distance_misses() {
    // the spawns sit 280 units apart, far outside the 30-unit attack radius
    let mut g = Game::new();
    g.add_player(A).unwrap();
    g.add_player(B).unwrap();
    g.handle_msg(&cmd(A, 7, Msg::Hit)).unwrap();
    assert_eq!(g.get_player(A).unwrap().health, 1000);
    assert_eq!(g.get_player(B).unwrap().health, 1000);
    assert_eq!(g.state(), GameState::InProgress);
    assert_eq!(g.winner(), None);
}

#[test]
fn walking_into_range_lets_hits_connect() {
    // seven steps right bring the attacker to x = 300 units, on top of the
    // defender: the hit-box coordinate 297.5 lies inside the zone [270, 330]
    let mut g = Game::new();
    g.add_player(A).unwrap();
    g.add_player(B).unwrap();
    for _ in 0..7 {
        g.handle_msg(&cmd(A, 7, Msg::Right)).unwrap();
    }
    assert_eq!(g.get_player(A).unwrap().position.x, 600);
    g.handle_msg(&cmd(A, 7, Msg::Hit)).unwrap();
    assert_eq!(g.get_player(B).unwrap().health, 900);
    assert_eq!(g.get_player(A).unwrap().health, 1000);
    assert_eq!(g.state(), GameState::InProgress);
    assert_eq!(g.winner(), None);
}

#[test]
fn ten_hits_in_range_end_the_match() {
    let mut g = Game::new();
    g.add_player(A).unwrap();
    g.add_player(B).unwrap();
    for _ in 0..7 {
        g.handle_msg(&cmd(A, 7, Msg::Right)).unwrap();
    }
    for k in 1..=9 {
        g.handle_msg(&cmd(A, 7, Msg::Hit)).unwrap();
        assert_eq!(g.get_player(B).unwrap().health, 1000 - 100 * k);
        assert_eq!(g.state(), GameState::InProgress);
        assert_eq!(g.winner(), None);
    }
    g.handle_msg(&cmd(A, 7, Msg::Hit)).unwrap();
    assert_eq!(g.get_player(B).unwrap().health, 0);
    assert_eq!(g.state(), GameState::GameOver);
    assert_eq!(g.winner(), Some(A));
    // the match is over: further commands fail and mutate nothing
    let err = g.handle_msg(&cmd(B, 7, Msg::Hit)).unwrap_err();
    assert!(matches!(err.error_type, AppErrorType::GameStateError));
    assert_eq!(err.message, "Game state is GameOver");
    assert_eq!(g.get_player(A).unwrap().health, 1000);
    assert_eq!(g.get_player(B).unwrap().health, 0);
    assert_eq!(g.winner(), Some(A));
}

#[test]
fn attack_connects_only_within_the_radius() {
    // the defender's hit-box coordinate is 300 - 2.5 = 297.5; an attacker at
    // 260 units has zone [230, 290] and misses, one at 300 has [270, 330]
    // and connects
    let mut g = Game::new();
    g.add_player(A).unwrap();
    g.add_player(B).unwrap();
    for _ in 0..6 {
        g.handle_msg(&cmd(A, 7, Msg::Right)).unwrap();
    }
    // attacker at 260 units: out of range
    g.handle_msg(&cmd(A, 7, Msg::Hit)).unwrap();
    assert_eq!(g.get_player(B).unwrap().health, 1000);
    // one step closer, 300 units: in range
    g.handle_msg(&cmd(A, 7, Msg::Right)).unwrap();
    g.handle_msg(&cmd(A, 7, Msg::Hit)).unwrap();
    assert_eq!(g.get_player(B).unwrap().health, 900);
}

#[test]
fn state_never_regresses() {
    let mut g = Game::new();
    assert_eq!(g.state(), GameState::NotStarted);
    g.add_player(A).unwrap();
    assert_eq!(g.state(), GameState::NotStarted);
    g.add_player(B).unwrap();
    assert_eq!(g.state(), GameState::InProgress);
    g.handle_msg(&cmd(A, 7, Msg::Left)).unwrap();
    g.handle_msg(&cmd(B, 7, Msg::Hit)).unwrap();
    g.handle_msg(&cmd(A, 7, Msg::Wait)).unwrap();
    assert_eq!(g.state(), GameState::InProgress);
    let _ = g.add_player(C);
    assert_eq!(g.state(), GameState::InProgress);
}
