use mafia::game::Game;
use mafia::game::GameState;
use mafia::game::InvestigateResult;
use mafia::game::Player;
use mafia::game::Role;

fn player(name: &str, id: &str, role: Option<Role>) -> Player {
    Player { name: name.to_string(), id: id.to_string(), role, result: None }
}

/// The fixed five-player scenario: roles in catalog order on players a..e,
/// already playing, no pending investigations.
fn five_player_game() -> Game {
    Game {
        players: vec![
            player("A", "a", Some(Role::Mafia)),
            player("B", "b", Some(Role::Good)),
            player("C", "c", Some(Role::Bad)),
            player("D", "d", Some(Role::Paranoid)),
            player("E", "e", Some(Role::Naive)),
        ],
        state: GameState::Playing,
        investigations: vec![None; 5],
    }
}

fn submit(g: &mut Game, who: &str, target: &str) {
    g.investigate(who.to_string(), target.to_string());
}

#[test]
fn verdict_table_five_players() {
    let mut g = five_player_game();
    submit(&mut g, "a", "b"); // Mafia kills B
    submit(&mut g, "b", "c");
    submit(&mut g, "c", "d"); // Bad investigates Paranoid
    submit(&mut g, "d", "e"); // Paranoid investigates Naive
    submit(&mut g, "e", "a"); // Naive investigates Mafia

    assert_eq!(g.players[1].result, Some(InvestigateResult::YouAreDead));
    // C holds Bad: a non-mafia target is reported as mafia (the lying report)
    assert_eq!(g.players[2].result, Some(InvestigateResult::YouThinkMafia));
    // D holds Paranoid: fixed answer
    assert_eq!(g.players[3].result, Some(InvestigateResult::YouThinkMafia));
    // E holds Naive: fixed answer, even though the target really is the mafia
    assert_eq!(g.players[4].result, Some(InvestigateResult::YouThinkDetective));
    // A holds Mafia: untouched by the verdict pass
    assert_eq!(g.players[0].result, None);
}

#[test]
fn good_reports_accurately() {
    let mut g = five_player_game();
    submit(&mut g, "a", "c"); // Mafia kills C
    submit(&mut g, "b", "a"); // Good investigates the Mafia
    submit(&mut g, "c", "d");
    submit(&mut g, "d", "e");
    submit(&mut g, "e", "a");
    assert_eq!(g.players[1].result, Some(InvestigateResult::YouThinkMafia));
}

#[test]
fn dead_target_override() {
    let mut g = five_player_game();
    submit(&mut g, "a", "b"); // kill B
    submit(&mut g, "b", "a");
    submit(&mut g, "c", "b"); // C's target is the kill victim
    submit(&mut g, "d", "b"); // D's target is the kill victim too
    submit(&mut g, "e", "a");
    assert_eq!(g.players[1].result, Some(InvestigateResult::YouAreDead));
    assert_eq!(g.players[2].result, Some(InvestigateResult::TheyDied));
    assert_eq!(g.players[3].result, Some(InvestigateResult::TheyDied));
    assert_eq!(g.players[4].result, Some(InvestigateResult::YouThinkDetective));
}

#[test]
fn resolution_gating() {
    let mut g = five_player_game();
    submit(&mut g, "a", "b");
    submit(&mut g, "b", "c");
    submit(&mut g, "c", "d");
    submit(&mut g, "d", "e");
    // E has not chosen yet: nothing is resolved
    for p in &g.players {
        assert_eq!(p.result, None);
    }
    assert_eq!(g.investigations[0], Some(1));
    assert_eq!(g.investigations[4], None);
}

#[test]
fn overwriting_a_pending_choice() {
    let mut g = five_player_game();
    submit(&mut g, "a", "c");
    submit(&mut g, "a", "b"); // the mafia changes its mind
    submit(&mut g, "b", "c");
    submit(&mut g, "c", "d");
    submit(&mut g, "d", "e");
    submit(&mut g, "e", "a");
    // B, not C, was killed; C is alive and received its own verdict on D
    assert_eq!(g.players[1].result, Some(InvestigateResult::YouAreDead));
    assert_eq!(g.players[2].result, Some(InvestigateResult::YouThinkMafia));
}

#[test]
fn death_permanence() {
    let mut g = five_player_game();
    submit(&mut g, "a", "b"); // round 1: kill B
    submit(&mut g, "b", "c");
    submit(&mut g, "c", "d");
    submit(&mut g, "d", "e");
    submit(&mut g, "e", "a");
    assert_eq!(g.players[1].result, Some(InvestigateResult::YouAreDead));

    // round 2: B is dead and exempt; the others play on
    submit(&mut g, "a", "c");
    submit(&mut g, "c", "a");
    submit(&mut g, "d", "a");
    submit(&mut g, "e", "a");
    // B is still dead, and C died this round
    assert_eq!(g.players[1].result, Some(InvestigateResult::YouAreDead));
    assert_eq!(g.players[2].result, Some(InvestigateResult::YouAreDead));
}

#[test]
fn round_reset() {
    let mut g = five_player_game();
    submit(&mut g, "a", "b");
    submit(&mut g, "b", "c");
    submit(&mut g, "c", "d");
    submit(&mut g, "d", "e");
    submit(&mut g, "e", "a");
    assert!(g.investigations.iter().all(|s| s.is_none()));

    // the same pattern again triggers an independent second resolution:
    // B is dead and exempt, so only the four living players act
    submit(&mut g, "a", "c");
    submit(&mut g, "c", "b");
    submit(&mut g, "d", "e");
    submit(&mut g, "e", "a");
    assert!(g.investigations.iter().all(|s| s.is_none()));
    assert_eq!(g.players[2].result, Some(InvestigateResult::YouAreDead));
    assert_eq!(g.players[3].result, Some(InvestigateResult::YouThinkMafia));
}

#[test]
fn unknown_ids_are_ignored() {
    let mut g = five_player_game();
    submit(&mut g, "nobody", "a");
    submit(&mut g, "a", "nobody");
    for p in &g.players {
        assert_eq!(p.result, None);
    }
    assert!(g.investigations.iter().all(|s| s.is_none()));
}

#[test]
fn start_assigns_distinct_roles() {
    for n in 1..=5usize {
        let mut g = Game::default();
        for i in 0..n {
            g.players.push(player(&format!("player{}", i), &format!("p{}", i), None));
        }
        g.start();
        assert!(matches!(g.state, GameState::Playing));
        assert_eq!(g.investigations.len(), n);
        assert!(g.investigations.iter().all(|s| s.is_none()));
        let roles: Vec<Role> = g.players.iter().map(|p| p.role.unwrap()).collect();
        for i in 0..n {
            assert_eq!(g.players[i].result, None);
            for j in 0..i {
                assert_ne!(roles[i], roles[j]);
            }
        }
        let mafias = roles.iter().filter(|r| matches!(r, Role::Mafia)).count();
        assert_eq!(mafias, 1);
    }
}

#[test]
fn start_draws_from_the_catalog_prefix() {
    // with two players, only the first two catalog entries can ever appear
    let mut g = Game::default();
    g.players.push(player("A", "a", None));
    g.players.push(player("B", "b", None));
    g.start();
    let mut roles: Vec<Role> = g.players.iter().map(|p| p.role.unwrap()).collect();
    roles.sort_by_key(|r| match r {
        Role::Mafia => 0,
        Role::Good => 1,
        Role::Bad => 2,
        Role::Paranoid => 3,
        Role::Naive => 4,
    });
    assert_eq!(roles, vec![Role::Mafia, Role::Good]);

    // with five players, all five roles appear
    let mut g5 = Game::default();
    for i in 0..5 {
        g5.players.push(player(&format!("player{}", i), &format!("p{}", i), None));
    }
    g5.start();
    for want in [Role::Mafia, Role::Good, Role::Bad, Role::Paranoid, Role::Naive] {
        assert_eq!(g5.players.iter().filter(|p| p.role == Some(want)).count(), 1);
    }
}

#[test]
fn restart_reshuffles_and_clears() {
    let mut g = five_player_game();
    submit(&mut g, "a", "b");
    submit(&mut g, "b", "c");
    submit(&mut g, "c", "d");
    submit(&mut g, "d", "e");
    submit(&mut g, "e", "a");
    assert_eq!(g.players[1].result, Some(InvestigateResult::YouAreDead));

    g.start(); // restarting while playing wipes all results and deaths
    assert!(matches!(g.state, GameState::Playing));
    for p in &g.players {
        assert_eq!(p.result, None);
        assert!(p.role.is_some());
    }
    assert!(g.investigations.iter().all(|s| s.is_none()));
}

#[test]
fn one_player_game_self_kill() {
    let mut g = Game {
        players: vec![player("A", "a", Some(Role::Mafia))],
        state: GameState::Playing,
        investigations: vec![None],
    };
    submit(&mut g, "a", "a");
    assert_eq!(g.players[0].result, Some(InvestigateResult::YouAreDead));
}

#[test]
fn is_dead_and_is_detective() {
    let mut p = player("A", "a", Some(Role::Mafia));
    assert!(!p.is_dead());
    p.result = Some(InvestigateResult::TheyDied);
    assert!(!p.is_dead());
    p.result = Some(InvestigateResult::YouAreDead);
    assert!(p.is_dead());

    assert!(!Role::Mafia.is_detective());
    assert!(Role::Good.is_detective());
    assert!(Role::Bad.is_detective());
    assert!(Role::Paranoid.is_detective());
    assert!(Role::Naive.is_detective());
}

#[test]
fn player_new_starts_blank() {
    let p = Player::new("Ann".to_string(), "xyzw".to_string());
    assert_eq!(p.name, "Ann");
    assert_eq!(p.id, "xyzw");
    assert!(p.role.is_none());
    assert!(p.result.is_none());
}

#[test]
fn investigate_allowed_gates_the_call() {
    // a lobby with players refuses submissions with ids that resolve
    let mut lobby = Game::default();
    lobby.players.push(player("A", "a", None));
    lobby.players.push(player("B", "b", None));
    assert!(!lobby.investigate_allowed(&"a".to_string(), &"b".to_string()));
    // ids that resolve to nobody are a silent no-op, hence allowed
    assert!(lobby.investigate_allowed(&"x".to_string(), &"y".to_string()));

    // a running game accepts submissions
    let g = five_player_game();
    assert!(g.investigate_allowed(&"a".to_string(), &"b".to_string()));

    // once the mafia holder is dead, a submission that would complete the
    // round cannot be resolved and is refused
    let mut g2 = Game {
        players: vec![
            player("A", "a", Some(Role::Mafia)),
            player("B", "b", Some(Role::Good)),
        ],
        state: GameState::Playing,
        investigations: vec![None, None],
    };
    submit(&mut g2, "a", "a"); // the mafia targets itself
    submit(&mut g2, "b", "a"); // completes the round: A dies
    assert_eq!(g2.players[0].result, Some(InvestigateResult::YouAreDead));
    assert!(!g2.investigate_allowed(&"b".to_string(), &"b".to_string()));
}
