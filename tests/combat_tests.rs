use std::collections::HashMap;

use hazard::allocation::{allocate_in_order, setup_players};
use hazard::combat::{
    complete_conquest, is_adjacent, perform_attack, resolve_attack, roll_dice, sorted_descending,
    AttackError, TransferError,
};
use hazard::ledger::{Color, Player};
use hazard::world::setup_territories;

fn two_players() -> Vec<Player> {
    setup_players(vec!["Ann".to_string(), "Bob".to_string()])
}

fn ledger_total(m: &HashMap<u32, u32>) -> u32 {
    m.values().sum()
}

#[test]
fn scenario_four_armies_conquer_single_defender() {
    let mut players = two_players();
    let order: Vec<u32> = (0..16).collect();
    allocate_in_order(&order, &mut players);
    // The known split: even indices to the first player, odd to the second.
    assert!(players[0].army_per_territory.contains_key(&2));
    assert!(players[1].army_per_territory.contains_key(&3));
    players[1].army_per_territory.insert(3, 4);
    players[0].army_per_territory.insert(2, 1);

    let o = resolve_attack(&mut players, 1, 0, 3, 2, &vec![6, 5, 4], &vec![1]);
    assert_eq!(o.attacking_force, 3);
    assert_eq!(o.defending_force, 1);
    assert_eq!(o.defender_losses, 1);
    assert_eq!(o.attacker_losses, 0);
    assert!(o.conquered);
    assert!(o.finished);
    assert_eq!(o.min_move, 3);
    assert_eq!(o.max_move, 3);
    assert!(!players[0].army_per_territory.contains_key(&2));
    assert_eq!(players[1].army_per_territory.get(&2), Some(&3));
    assert_eq!(players[1].army_per_territory.get(&3), Some(&1));

    assert_eq!(
        complete_conquest(&mut players, 1, 3, 2, &o, 4),
        Err(TransferError::OutOfRange)
    );
    assert_eq!(complete_conquest(&mut players, 1, 3, 2, &o, 3), Ok(()));
    assert_eq!(players[1].army_per_territory.get(&2), Some(&3));
    assert_eq!(players[1].army_per_territory.get(&3), Some(&1));
}

#[test]
fn scenario_minimum_attack_rolls_one_die() {
    let mut players = two_players();
    players[0].army_per_territory.insert(0, 2);
    players[1].army_per_territory.insert(1, 1);
    let o = resolve_attack(&mut players, 0, 1, 0, 1, &vec![3], &vec![5]);
    assert_eq!(o.attacking_force, 1);
    assert_eq!(o.attacker_losses, 1);
    assert_eq!(o.defender_losses, 0);
    assert!(!o.conquered);
    assert!(o.finished);
    assert_eq!(players[0].army_per_territory.get(&0), Some(&1));
    assert_eq!(players[1].army_per_territory.get(&1), Some(&1));
}

#[test]
fn minimum_attack_that_wins_moves_its_one_army() {
    let mut players = two_players();
    players[0].army_per_territory.insert(0, 2);
    players[1].army_per_territory.insert(1, 1);
    let o = resolve_attack(&mut players, 0, 1, 0, 1, &vec![6], &vec![5]);
    assert!(o.conquered);
    assert_eq!((o.min_move, o.max_move), (1, 1));
    assert_eq!(players[0].army_per_territory.get(&1), Some(&1));
    assert_eq!(players[0].army_per_territory.get(&0), Some(&1));
    assert!(players[1].army_per_territory.is_empty());
}

#[test]
fn ties_go_to_the_defender() {
    let mut players = two_players();
    players[0].army_per_territory.insert(0, 5);
    players[1].army_per_territory.insert(1, 4);
    let o = resolve_attack(&mut players, 0, 1, 0, 1, &vec![4, 4, 4], &vec![4, 4]);
    assert_eq!(o.attacker_losses, 2);
    assert_eq!(o.defender_losses, 0);
    assert!(!o.finished);
    assert_eq!(players[0].army_per_territory.get(&0), Some(&3));
    assert_eq!(players[1].army_per_territory.get(&1), Some(&4));
}

#[test]
fn dice_are_compared_highest_first() {
    let mut players = two_players();
    players[0].army_per_territory.insert(0, 10);
    players[1].army_per_territory.insert(1, 5);
    // Sorted: attacker 6,3,1 against defender 5,2: the attacker wins both.
    let o = resolve_attack(&mut players, 0, 1, 0, 1, &vec![1, 6, 3], &vec![2, 5]);
    assert_eq!(o.defender_losses, 2);
    assert_eq!(o.attacker_losses, 0);
    assert_eq!(players[1].army_per_territory.get(&1), Some(&3));
}

#[test]
fn combat_removes_one_army_per_pair() {
    let mut players = two_players();
    players[0].army_per_territory.insert(0, 7);
    players[0].army_per_territory.insert(4, 2);
    players[1].army_per_territory.insert(1, 6);
    let before = ledger_total(&players[0].army_per_territory)
        + ledger_total(&players[1].army_per_territory);
    let o = resolve_attack(&mut players, 0, 1, 0, 1, &vec![6, 2, 2], &vec![3, 3]);
    assert_eq!(o.attacker_losses + o.defender_losses, 2);
    assert_eq!(o.attacker_losses, 1);
    assert_eq!(o.defender_losses, 1);
    let after = ledger_total(&players[0].army_per_territory)
        + ledger_total(&players[1].army_per_territory);
    assert_eq!(before - after, 2);
}

#[test]
fn conquest_transfer_within_bounds() {
    let mut players = two_players();
    players[0].army_per_territory.insert(0, 8);
    players[1].army_per_territory.insert(1, 2);
    let o = resolve_attack(&mut players, 0, 1, 0, 1, &vec![6, 6, 1], &vec![5, 5]);
    assert!(o.conquered);
    assert_eq!((o.min_move, o.max_move), (3, 7));
    assert_eq!(players[0].army_per_territory.get(&1), Some(&3));
    assert_eq!(players[0].army_per_territory.get(&0), Some(&5));
    assert_eq!(
        complete_conquest(&mut players, 0, 0, 1, &o, 2),
        Err(TransferError::OutOfRange)
    );
    assert_eq!(
        complete_conquest(&mut players, 0, 0, 1, &o, 8),
        Err(TransferError::OutOfRange)
    );
    assert_eq!(players[0].army_per_territory.get(&1), Some(&3));
    assert_eq!(complete_conquest(&mut players, 0, 0, 1, &o, 6), Ok(()));
    assert_eq!(players[0].army_per_territory.get(&1), Some(&6));
    assert_eq!(players[0].army_per_territory.get(&0), Some(&2));
}

#[test]
fn sorted_descending_orders_dice() {
    assert_eq!(sorted_descending(&vec![2, 6, 3]), vec![6, 3, 2]);
    assert_eq!(sorted_descending(&vec![1, 1, 5]), vec![5, 1, 1]);
    assert_eq!(sorted_descending(&vec![]), Vec::<u8>::new());
}

#[test]
fn rolled_dice_are_between_one_and_six() {
    for n in 0..4u32 {
        let dice = roll_dice(n);
        assert_eq!(dice.len(), n as usize);
        assert!(dice.iter().all(|d| (1..=6).contains(d)));
    }
}

fn attack_setup() -> Vec<Player> {
    let mut players = two_players();
    // Western Australia (0) borders Eastern Australia (1) and Indonesia (3).
    players[0].army_per_territory.insert(0, 5);
    players[0].army_per_territory.insert(2, 1);
    players[0].army_per_territory.insert(1, 3);
    players[1].army_per_territory.insert(3, 2);
    players[1].army_per_territory.insert(4, 2);
    players
}

#[test]
fn attack_requests_are_checked_before_rolling() {
    let g = setup_territories();
    let mut players = attack_setup();
    assert_eq!(
        perform_attack(&g, &mut players, 0, 1, 3, 0),
        Err(AttackError::SourceNotOwned)
    );
    assert_eq!(
        perform_attack(&g, &mut players, 0, 1, 2, 3),
        Err(AttackError::TooFewArmies)
    );
    assert_eq!(
        perform_attack(&g, &mut players, 0, 1, 0, 1),
        Err(AttackError::TargetOwned)
    );
    assert_eq!(
        perform_attack(&g, &mut players, 0, 1, 0, 4),
        Err(AttackError::NotAdjacent)
    );
    assert_eq!(
        perform_attack(&g, &mut players, 0, 1, 0, 9),
        Err(AttackError::NotAdjacent)
    );
    players[1].army_per_territory.remove(&3);
    assert_eq!(
        perform_attack(&g, &mut players, 0, 1, 0, 3),
        Err(AttackError::TargetNotDefenders)
    );
    assert_eq!(players[0].army_per_territory.get(&0), Some(&5));
}

#[test]
fn performed_attack_costs_two_armies_in_all() {
    let g = setup_territories();
    let mut players = attack_setup();
    let o = perform_attack(&g, &mut players, 0, 1, 0, 3).unwrap();
    assert_eq!(o.attacking_force, 3);
    assert_eq!(o.defending_force, 2);
    assert_eq!(o.attacker_losses + o.defender_losses, 2);
    assert_eq!(
        players[0].army_per_territory.get(&0),
        Some(&(5 - o.attacker_losses - if o.conquered { 3 } else { 0 }))
    );
}

#[test]
fn borders_follow_the_map() {
    let g = setup_territories();
    assert!(is_adjacent(&g, 0, 1));
    assert!(is_adjacent(&g, 1, 0));
    assert!(is_adjacent(&g, 3, 13));
    assert!(!is_adjacent(&g, 0, 2));
    assert!(!is_adjacent(&g, 0, 0));
    assert!(!is_adjacent(&g, 40, 0));
}

#[test]
fn player_colors_follow_the_palette() {
    let players = two_players();
    assert_eq!(players[0].color, Color::Red);
    assert_eq!(players[1].color, Color::Blue);
}

#[test]
fn empty_target_falls_without_dice() {
    let mut players = two_players();
    players[0].army_per_territory.insert(0, 3);
    players[1].army_per_territory.insert(1, 0);
    let o = resolve_attack(&mut players, 0, 1, 0, 1, &vec![2, 2], &vec![]);
    assert_eq!(o.defending_force, 0);
    assert_eq!(o.attacker_losses + o.defender_losses, 0);
    assert!(o.conquered);
    assert_eq!((o.min_move, o.max_move), (2, 2));
    assert_eq!(players[0].army_per_territory.get(&1), Some(&2));
    assert_eq!(players[0].army_per_territory.get(&0), Some(&1));
}
