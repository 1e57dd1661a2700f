use hazard::combat::AttackError;
use hazard::game::{
    add_armies_to_player, attack_targets, can_reinforce, next_active_player, begin_turn, check_game_over, end_turn, next_attack,
    owner_of, play_attack, winner, AttackDecision, Turn,
};
use hazard::ledger::{Color, Player};
use hazard::world::setup_territories;

fn player_with(territories: &[(u32, u32)]) -> Player {
    let mut p = Player::new("Ann".to_string(), Color::Red);
    for (t, a) in territories {
        p.army_per_territory.insert(*t, *a);
    }
    p
}

fn sum(p: &Player) -> u32 {
    p.army_per_territory.values().sum()
}

#[test]
fn small_holdings_get_three_armies() {
    let mut p = player_with(&[(0, 1), (1, 1)]);
    assert_eq!(add_armies_to_player(&mut p), 3);
    assert_eq!(sum(&p), 5);
    let mut counts: Vec<u32> = p.army_per_territory.values().copied().collect();
    counts.sort();
    assert_eq!(counts, vec![2, 3]);
}

#[test]
fn large_holdings_get_a_third() {
    let holdings: Vec<(u32, u32)> = (0..14).map(|t| (t, 1)).collect();
    let mut p = player_with(&holdings);
    assert_eq!(add_armies_to_player(&mut p), 4);
    assert_eq!(sum(&p), 18);
    let holdings: Vec<(u32, u32)> = (0..9).map(|t| (t, 2)).collect();
    let mut p = player_with(&holdings);
    assert_eq!(add_armies_to_player(&mut p), 3);
    assert_eq!(sum(&p), 21);
}

#[test]
fn game_over_only_when_one_holds_everything() {
    let g = setup_territories();
    let all: Vec<(u32, u32)> = (0..16).map(|t| (t, 1)).collect();
    let most: Vec<(u32, u32)> = (0..15).map(|t| (t, 1)).collect();
    let players = vec![player_with(&most), player_with(&[(15, 2)])];
    assert!(!check_game_over(&players, &g));
    assert_eq!(winner(&players, &g), None);
    let players = vec![player_with(&[]), player_with(&all)];
    assert!(check_game_over(&players, &g));
    assert_eq!(winner(&players, &g), Some(1));
}

#[test]
fn owner_lookup() {
    let players = vec![player_with(&[(0, 1)]), player_with(&[(5, 1)])];
    assert_eq!(owner_of(&players, 5), Some(1));
    assert_eq!(owner_of(&players, 0), Some(0));
    assert_eq!(owner_of(&players, 7), None);
}

#[test]
fn targets_are_unowned_neighbors() {
    let g = setup_territories();
    // Indonesia (3) borders Western Australia (0), New Guinea (2) and
    // Southeast Asia (13).
    let p = player_with(&[(3, 4), (2, 1)]);
    let mut targets = attack_targets(&g, &p, 3);
    targets.sort();
    assert_eq!(targets, vec![0, 13]);
}

#[test]
fn repeat_needs_an_unfinished_attack() {
    let mut turn = Turn { player: 0, last_attack: None, last_finished: false, game_over: false };
    assert_eq!(next_attack(&turn, AttackDecision::RepeatLast), None);
    assert_eq!(next_attack(&turn, AttackDecision::AttackNew(3, 2)), Some((3, 2)));
    assert_eq!(next_attack(&turn, AttackDecision::EndTurn), None);
    turn.last_attack = Some((3, 2));
    assert_eq!(next_attack(&turn, AttackDecision::RepeatLast), Some((3, 2)));
    turn.last_finished = true;
    assert_eq!(next_attack(&turn, AttackDecision::RepeatLast), None);
}

#[test]
fn turns_pass_in_order() {
    let players = vec![player_with(&[(0, 1)]), player_with(&[(1, 1)]), player_with(&[(2, 1)])];
    let turn = Turn { player: 2, last_attack: Some((1, 2)), last_finished: true, game_over: false };
    let next = end_turn(&turn, &players).unwrap();
    assert_eq!(next.player, 0);
    assert_eq!(next.last_attack, None);
    assert!(!next.last_finished);
    assert_eq!(end_turn(&next, &players).unwrap().player, 1);
    let nobody = vec![player_with(&[]), player_with(&[])];
    assert!(end_turn(&next, &nobody).is_none());
}

#[test]
fn turn_begins_with_reinforcement() {
    let mut players = vec![player_with(&[(0, 1), (1, 1), (2, 1)]), player_with(&[(3, 1)])];
    let (turn, grant) = begin_turn(&mut players, 0);
    assert_eq!(grant, 3);
    assert_eq!(turn.player, 0);
    assert_eq!(turn.last_attack, None);
    assert_eq!(sum(&players[0]), 6);
    assert_eq!(sum(&players[1]), 1);
}

#[test]
fn played_attack_is_recorded() {
    let g = setup_territories();
    let mut players = vec![player_with(&[(0, 4)]), player_with(&[(1, 1)])];
    let mut turn = Turn { player: 0, last_attack: None, last_finished: false, game_over: false };
    assert_eq!(
        play_attack(&g, &mut players, &mut turn, 0, 5).unwrap_err(),
        AttackError::NotAdjacent
    );
    assert_eq!(turn.last_attack, None);
    let o = play_attack(&g, &mut players, &mut turn, 0, 1).unwrap();
    assert_eq!(turn.last_attack, Some((0, 1)));
    assert_eq!(turn.last_finished, o.finished);
    assert!(!turn.game_over);
}

#[test]
fn reinforcement_needs_a_territory_and_room() {
    assert!(!can_reinforce(&player_with(&[])));
    assert!(can_reinforce(&player_with(&[(0, 1)])));
    assert!(can_reinforce(&player_with(&[(0, u32::MAX - 3)])));
    assert!(!can_reinforce(&player_with(&[(0, 1), (1, u32::MAX - 2)])));
}

#[test]
fn attack_on_unowned_target_is_refused() {
    let g = setup_territories();
    let mut players = vec![player_with(&[(0, 4)]), player_with(&[(5, 1)])];
    let mut turn = Turn { player: 0, last_attack: None, last_finished: false, game_over: false };
    // Eastern Australia (1) borders the source but belongs to nobody.
    assert_eq!(
        play_attack(&g, &mut players, &mut turn, 0, 1).unwrap_err(),
        AttackError::TargetNotDefenders
    );
    assert_eq!(turn.last_attack, None);
    assert_eq!(players[0].army_per_territory.get(&0), Some(&4));
}

#[test]
fn turns_skip_players_out_of_the_game() {
    let players = vec![
        player_with(&[(0, 1)]),
        player_with(&[]),
        player_with(&[]),
        player_with(&[(3, 1)]),
    ];
    assert_eq!(next_active_player(&players, 0), Some(3));
    assert_eq!(next_active_player(&players, 3), Some(0));
    assert_eq!(next_active_player(&players, 1), Some(3));
    let alone = vec![player_with(&[]), player_with(&[(3, 1)])];
    assert_eq!(next_active_player(&alone, 1), Some(1));
    let nobody = vec![player_with(&[]), player_with(&[])];
    assert_eq!(next_active_player(&nobody, 0), None);
}
