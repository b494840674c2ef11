use mafia::game::GameState;
use mafia::game::InvestigateResult;
use mafia::game::Role;
use mafia::registry::JoinError;
use mafia::registry::RoomRegistry;

fn join(reg: &mut RoomRegistry, room: &str, name: &str) -> Result<(String, String), JoinError> {
    reg.create_or_join_room(Some(room.to_string()), name.to_string())
}

#[test]
fn create_room_generates_short_ids() {
    let mut reg = RoomRegistry::new();
    let (rid, pid) = reg.create_or_join_room(None, "Ann".to_string()).unwrap();
    assert_eq!(rid.chars().count(), 4);
    assert_eq!(pid.chars().count(), 4);
    assert!(reg.get(&rid).is_some());
    let g = reg.get(&rid).unwrap();
    assert_eq!(g.players.len(), 1);
    assert_eq!(g.players[0].name, "Ann");
    assert_eq!(g.players[0].id, pid);
    assert!(matches!(g.state, GameState::Lobby));
}

#[test]
fn joining_a_missing_room_creates_it() {
    let mut reg = RoomRegistry::new();
    assert!(reg.get(&"wxyz".to_string()).is_none());
    let (rid, _pid) = join(&mut reg, "wxyz", "Ann").unwrap();
    assert_eq!(rid, "wxyz");
    let g = reg.get(&"wxyz".to_string()).unwrap();
    assert_eq!(g.players.len(), 1);
}

#[test]
fn join_policy_full_room() {
    let mut reg = RoomRegistry::new();
    for i in 0..5 {
        assert!(join(&mut reg, "room", &format!("player{}", i)).is_ok());
    }
    assert_eq!(join(&mut reg, "room", "extra"), Err(JoinError::RoomFull));
    assert_eq!(reg.get(&"room".to_string()).unwrap().players.len(), 5);
}

#[test]
fn join_policy_room_in_progress() {
    let mut reg = RoomRegistry::new();
    join(&mut reg, "room", "Ann").unwrap();
    join(&mut reg, "room", "Ben").unwrap();
    reg.start_round(&"room".to_string()).unwrap();
    assert_eq!(join(&mut reg, "room", "Eve"), Err(JoinError::RoomInProgress));
    assert_eq!(reg.get(&"room".to_string()).unwrap().players.len(), 2);
}

#[test]
fn missing_rooms_report_not_found() {
    let mut reg = RoomRegistry::new();
    assert!(reg.start_round(&"none".to_string()).is_err());
    assert!(reg.get_view(&"none".to_string(), &"p".to_string()).is_err());
    assert!(
        reg.submit_investigation(&"none".to_string(), "a".to_string(), "b".to_string()).is_err()
    );
}

#[test]
fn room_isolation() {
    let mut reg = RoomRegistry::new();
    let (_, left_pid) = join(&mut reg, "left", "Ann").unwrap();
    join(&mut reg, "left", "Ben").unwrap();
    join(&mut reg, "right", "Cal").unwrap();

    reg.start_round(&"left".to_string()).unwrap();

    // the operations on "left" never touched "right"
    let right = reg.get(&"right".to_string()).unwrap();
    assert!(matches!(right.state, GameState::Lobby));
    assert_eq!(right.players.len(), 1);
    assert_eq!(right.players[0].name, "Cal");
    assert!(right.players[0].role.is_none());

    // and "right" can still accept joins while "left" is playing
    assert!(join(&mut reg, "right", "Dot").is_ok());
    let left = reg.get(&"left".to_string()).unwrap();
    assert!(matches!(left.state, GameState::Playing));
    assert_eq!(left.players.len(), 2);
    assert_eq!(left.players[0].id, left_pid);
}

#[test]
fn view_in_lobby_and_in_game() {
    let mut reg = RoomRegistry::new();
    let (_, ann) = join(&mut reg, "room", "Ann").unwrap();
    let (_, ben) = join(&mut reg, "room", "Ben").unwrap();

    let v = reg.get_view(&"room".to_string(), &ben).unwrap();
    assert_eq!(v.room_id, "room");
    assert_eq!(v.player_id, ben);
    assert_eq!(v.players.len(), 2);
    assert_eq!(v.players[0].name, "Ann");
    assert_eq!(v.players[1].name, "Ben");
    assert!(!v.players[0].is_you);
    assert!(v.players[1].is_you);
    assert!(!v.players[0].is_dead);
    assert!(v.in_progress.is_none());

    reg.start_round(&"room".to_string()).unwrap();
    let v2 = reg.get_view(&"room".to_string(), &ann).unwrap();
    let ip = v2.in_progress.as_ref().unwrap();
    let ann_role = reg.get(&"room".to_string()).unwrap().players[0].role.unwrap();
    assert_eq!(ip.is_detective, !matches!(ann_role, Role::Mafia));
    assert_eq!(ip.investigate_result, None);

    // an unknown player in an existing room is not found
    assert!(reg.get_view(&"room".to_string(), &"zzzz".to_string()).is_err());
}

#[test]
fn full_round_through_the_registry() {
    let mut reg = RoomRegistry::new();
    let (_, ann) = join(&mut reg, "room", "Ann").unwrap();
    let (_, ben) = join(&mut reg, "room", "Ben").unwrap();
    reg.start_round(&"room".to_string()).unwrap();

    // find who holds Mafia; the ids keep their join positions
    let mafia_first = {
        let g = reg.get(&"room".to_string()).unwrap();
        matches!(g.players[0].role, Some(Role::Mafia))
    };
    let (mafia, other) = if mafia_first { (ann.clone(), ben.clone()) } else { (ben.clone(), ann.clone()) };

    // the mafia targets the other player; the other investigates the mafia
    assert!(reg.submit_allowed(&"room".to_string(), &mafia, &other));
    reg.submit_investigation(&"room".to_string(), mafia.clone(), other.clone()).unwrap();
    assert!(reg.submit_allowed(&"room".to_string(), &other, &mafia));
    reg.submit_investigation(&"room".to_string(), other.clone(), mafia.clone()).unwrap();

    let g = reg.get(&"room".to_string()).unwrap();
    let victim = g.players.iter().find(|p| p.id == other).unwrap();
    assert_eq!(victim.result, Some(InvestigateResult::YouAreDead));
    let killer = g.players.iter().find(|p| p.id == mafia).unwrap();
    assert_eq!(killer.result, None);
    assert!(g.investigations.iter().all(|s| s.is_none()));

    // the dead player shows up as dead in every view
    let v = reg.get_view(&"room".to_string(), &mafia).unwrap();
    let dead_rows = v.players.iter().filter(|p| p.is_dead).count();
    assert_eq!(dead_rows, 1);
}

#[test]
fn submit_allowed_refuses_lobby_submissions() {
    let mut reg = RoomRegistry::new();
    let (_, ann) = join(&mut reg, "room", "Ann").unwrap();
    let (_, ben) = join(&mut reg, "room", "Ben").unwrap();
    // the room is still in its lobby: a submission with resolving ids would
    // not be defined, and a missing room is always allowed (it reports
    // NotFound instead)
    assert!(!reg.submit_allowed(&"room".to_string(), &ann, &ben));
    assert!(reg.submit_allowed(&"none".to_string(), &ann, &ben));
}
