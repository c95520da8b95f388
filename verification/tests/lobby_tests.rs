use combat_server::errors::AppErrorType;
use combat_server::game::GameState;
use combat_server::lobby::Lobby;
use combat_server::messages::ClientActorMessage;
use combat_server::messages::Connect;
use combat_server::messages::Disconnect;
use combat_server::messages::Msg;

const M: u128 = 0x8ec45aa2_fa28_42e8_a80c_fd6ea3098424;
const A: u128 = 0x1;
const B: u128 = 0x2;
const C: u128 = 0x3;

fn uuid_str(n: u128) -> String {
    uuid::Uuid::from_u128(n).to_string()
}

fn join(lobby: &mut Lobby, game_id: u128, self_id: u128) -> (Vec<(u128, String)>, bool) {
    let (out, ok) = lobby.connect(&Connect { game_id, self_id });
    (out.into_iter().map(|d| (d.to, d.text)).collect(), ok)
}

fn leave(lobby: &mut Lobby, id: u128, game_id: u128) -> Vec<(u128, String)> {
    let out = lobby.disconnect(&Disconnect { id, game_id }).unwrap();
    out.into_iter().map(|d| (d.to, d.text)).collect()
}

fn send(lobby: &mut Lobby, id: u128, game_id: u128, msg: Msg) -> Vec<(u128, String)> {
    let out = lobby.dispatch(&ClientActorMessage { id, msg, game_id }).unwrap();
    out.into_iter().map(|d| (d.to, d.text)).collect()
}

fn player_json(id: u128, health: i64, x: &str, y: &str) -> String {
    format!(
        "\"{}\":{{\"health\":{},\"speed\":40.0,\"damage\":100,\"attack_zone\":30,\"body\":{{\"height\":10,\"width\":5}},\"position\":{{\"x\":{},\"y\":{}}}}}",
        uuid_str(id),
        health,
        x,
        y,
    )
}

#[test]
fn first_connect_creates_the_match_and_greets_privately() {
    let mut lobby = Lobby::default();
    let (out, ok) = join(&mut lobby, M, A);
    assert!(ok);
    assert_eq!(out, vec![(A, format!("your id is {}", uuid_str(A)))]);
    let game = lobby.game(M).unwrap();
    assert_eq!(game.player_count(), 1);
    assert_eq!(game.state(), GameState::NotStarted);
    assert!(lobby.has_session(A));
}

#[test]
fn second_connect_starts_the_match_and_tells_the_other_member() {
    let mut lobby = Lobby::default();
    join(&mut lobby, M, A);
    let (out, ok) = join(&mut lobby, M, B);
    assert!(ok);
    assert_eq!(
        out,
        vec![
            (A, format!("{} just joined!", uuid_str(B))),
            (B, format!("your id is {}", uuid_str(B))),
        ],
    );
    assert_eq!(lobby.game(M).unwrap().state(), GameState::InProgress);
}

#[test]
fn third_connect_is_turned_away_and_not_registered() {
    let mut lobby = Lobby::default();
    join(&mut lobby, M, A);
    join(&mut lobby, M, B);
    let (out, ok) = join(&mut lobby, M, C);
    assert!(!ok);
    assert_eq!(out, vec![(C, "The number of players cannot exceed 2".to_string())]);
    assert!(!lobby.has_session(C));
    assert_eq!(lobby.game(M).unwrap().player_count(), 2);
}

#[test]
fn matches_are_independent() {
    let mut lobby = Lobby::default();
    join(&mut lobby, M, A);
    let other: u128 = 99;
    let (out, ok) = join(&mut lobby, other, B);
    assert!(ok);
    assert_eq!(out, vec![(B, format!("your id is {}", uuid_str(B)))]);
    assert_eq!(lobby.game(M).unwrap().player_count(), 1);
    assert_eq!(lobby.game(other).unwrap().player_count(), 1);
}

#[test]
fn dispatch_broadcasts_the_snapshot_to_both_members() {
    // connect A and B, let A strike from spawn distance: far outside the
    // 30-unit attack radius, so the snapshot shows both healths untouched
    let mut lobby = Lobby::default();
    join(&mut lobby, M, A);
    join(&mut lobby, M, B);
    let out = send(&mut lobby, A, M, Msg::Hit);
    let expected = format!(
        "{{\"players\":{{{},{}}},\"state\":\"InProgress\",\"winner\":\"None\"}}",
        player_json(A, 1000, "20.0", "5.0"),
        player_json(B, 1000, "300.0", "5.0"),
    );
    assert_eq!(out, vec![(A, expected.clone()), (B, expected)]);
}

#[test]
fn dispatch_snapshot_follows_movement() {
    let mut lobby = Lobby::default();
    join(&mut lobby, M, A);
    join(&mut lobby, M, B);
    send(&mut lobby, A, M, Msg::Left);
    let out = send(&mut lobby, A, M, Msg::Left);
    let expected = format!(
        "{{\"players\":{{{},{}}},\"state\":\"InProgress\",\"winner\":\"None\"}}",
        player_json(A, 1000, "-60.0", "5.0"),
        player_json(B, 1000, "300.0", "5.0"),
    );
    assert_eq!(out, vec![(A, expected.clone()), (B, expected)]);
}

#[test]
fn snapshot_is_valid_json_with_the_documented_shape() {
    let mut lobby = Lobby::default();
    join(&mut lobby, M, A);
    join(&mut lobby, M, B);
    let out = send(&mut lobby, A, M, Msg::Wait);
    let v: serde_json::Value = serde_json::from_str(&out[0].1).unwrap();
    let a = &v["players"][uuid_str(A)];
    assert_eq!(a["health"].as_i64(), Some(1000));
    assert_eq!(a["speed"].as_f64(), Some(40.0));
    assert_eq!(a["damage"].as_i64(), Some(100));
    assert_eq!(a["attack_zone"].as_i64(), Some(30));
    assert_eq!(a["body"]["height"].as_i64(), Some(10));
    assert_eq!(a["body"]["width"].as_i64(), Some(5));
    assert_eq!(a["position"]["x"].as_f64(), Some(20.0));
    assert_eq!(a["position"]["y"].as_f64(), Some(5.0));
    assert_eq!(v["players"][uuid_str(B)]["position"]["x"].as_f64(), Some(300.0));
    assert_eq!(v["state"].as_str(), Some("InProgress"));
    assert_eq!(v["winner"].as_str(), Some("None"));
}

#[test]
fn float_rendering_matches_serde_json() {
    // the snapshot writes its own numbers; they must read exactly as
    // serde_json would have written the same values
    assert_eq!(serde_json::to_string(&40.0f64).unwrap(), "40.0");
    assert_eq!(serde_json::to_string(&-60.0f64).unwrap(), "-60.0");
    assert_eq!(serde_json::to_string(&5.0f64).unwrap(), "5.0");
    assert_eq!(serde_json::to_string(&2.5f64).unwrap(), "2.5");
}

#[test]
fn dispatch_failure_text_is_broadcast_to_all_members() {
    let mut lobby = Lobby::default();
    join(&mut lobby, M, A);
    // only one player: the match has not started
    let out = send(&mut lobby, A, M, Msg::Left);
    assert_eq!(
        out,
        vec![(A, "Game state is NotStarted".to_string())],
    );
    // player state is untouched
    assert_eq!(lobby.game(M).unwrap().get_player(A).unwrap().position.x, 40);
}

#[test]
fn dispatch_to_an_unknown_match_is_a_recoverable_error() {
    let mut lobby = Lobby::default();
    let err = lobby.dispatch(&ClientActorMessage { id: A, msg: Msg::Wait, game_id: M }).unwrap_err();
    assert!(matches!(err.error_type, AppErrorType::GameStateError));
    assert_eq!(err.message, "Game not found");
}

#[test]
fn disconnect_of_one_member_keeps_the_match() {
    let mut lobby = Lobby::default();
    join(&mut lobby, M, A);
    join(&mut lobby, M, B);
    let out = leave(&mut lobby, A, M);
    assert_eq!(out, vec![(B, format!("{} disconnected.", uuid_str(A)))]);
    assert!(!lobby.has_session(A));
    assert!(lobby.has_session(B));
    let game = lobby.game(M).unwrap();
    assert_eq!(game.player_count(), 2);
    assert_eq!(game.state(), GameState::InProgress);
}

#[test]
fn disconnect_of_the_last_member_removes_the_match() {
    let mut lobby = Lobby::default();
    join(&mut lobby, M, A);
    join(&mut lobby, M, B);
    leave(&mut lobby, A, M);
    let out = leave(&mut lobby, B, M);
    assert_eq!(out, vec![]);
    assert!(!lobby.has_session(B));
    assert!(lobby.game(M).is_none());
}

#[test]
fn disconnect_of_an_unknown_session_is_a_no_op() {
    let mut lobby = Lobby::default();
    join(&mut lobby, M, A);
    let out = leave(&mut lobby, B, M);
    assert_eq!(out, vec![]);
    assert!(lobby.has_session(A));
    assert!(lobby.game(M).is_some());
}

#[test]
fn disconnect_from_an_unknown_match_is_a_recoverable_error() {
    let mut lobby = Lobby::default();
    join(&mut lobby, M, A);
    let err = lobby.disconnect(&Disconnect { id: A, game_id: 42 }).unwrap_err();
    assert!(matches!(err.error_type, AppErrorType::GameStateError));
    assert_eq!(err.message, "Game not found");
    assert!(lobby.has_session(A));
}

#[test]
fn snapshot_after_the_final_hit_shows_the_winner() {
    let mut lobby = Lobby::default();
    join(&mut lobby, M, A);
    join(&mut lobby, M, B);
    for _ in 0..7 {
        send(&mut lobby, A, M, Msg::Right);
    }
    for _ in 0..9 {
        send(&mut lobby, A, M, Msg::Hit);
    }
    let out = send(&mut lobby, A, M, Msg::Hit);
    let expected = format!(
        "{{\"players\":{{{},{}}},\"state\":\"GameOver\",\"winner\":{{\"Id\":\"{}\"}}}}",
        player_json(A, 1000, "300.0", "5.0"),
        player_json(B, 0, "300.0", "5.0"),
        uuid_str(A),
    );
    assert_eq!(out, vec![(A, expected.clone()), (B, expected)]);
    // the match is over: a further command broadcasts the failure text
    let out = send(&mut lobby, B, M, Msg::Hit);
    let text = "Game state is GameOver".to_string();
    assert_eq!(out, vec![(A, text.clone()), (B, text)]);
}

#[test]
fn broadcast_to_a_member_without_a_session_is_a_no_op() {
    // one connection joined to two matches loses its session through the
    // first match; the second match still lists it as a member, and the
    // broadcast quietly skips it
    let mut lobby = Lobby::default();
    let m2: u128 = 0x77;
    join(&mut lobby, M, A);
    join(&mut lobby, m2, A);
    leave(&mut lobby, A, M);
    assert!(!lobby.has_session(A));
    assert!(lobby.game(m2).is_some());
    let out = send(&mut lobby, A, m2, Msg::Wait);
    assert_eq!(out, vec![]);
}

#[test]
fn end_to_end_session_scenario() {
    let mut lobby = Lobby::default();
    let (out_a, ok_a) = join(&mut lobby, M, A);
    assert!(ok_a);
    assert_eq!(out_a, vec![(A, format!("your id is {}", uuid_str(A)))]);

    let (out_b, ok_b) = join(&mut lobby, M, B);
    assert!(ok_b);
    assert_eq!(
        out_b,
        vec![
            (A, format!("{} just joined!", uuid_str(B))),
            (B, format!("your id is {}", uuid_str(B))),
        ],
    );
    assert_eq!(lobby.game(M).unwrap().state(), GameState::InProgress);

    let out = send(&mut lobby, A, M, Msg::Hit);
    assert_eq!(out.len(), 2);
    assert_eq!(out[0].0, A);
    assert_eq!(out[1].0, B);
    assert_eq!(out[0].1, out[1].1);
    let v: serde_json::Value = serde_json::from_str(&out[0].1).unwrap();
    assert_eq!(v["players"][uuid_str(A)]["health"].as_i64(), Some(1000));
    assert_eq!(v["players"][uuid_str(B)]["health"].as_i64(), Some(1000));
    assert_eq!(v["state"].as_str(), Some("InProgress"));
}
