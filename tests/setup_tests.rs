use std::collections::HashMap;

use hazard::allocation::{
    allocate_in_order, armies_per_player, assign_territories,
    assign_territories_and_armies_to_players, color_for, deal_in_order, deal_territories,
    place_armies_evenly, place_manual_army, setup_players, shuffled_territories, ManualPlacement,
    PlacementError, SetupError,
};
use hazard::ledger::{distribute_evenly, owned_territories, Color, Player};
use hazard::world::setup_territories;

fn names(n: usize) -> Vec<String> {
    (0..n).map(|i| format!("Player{}", i + 1)).collect()
}

fn total(m: &HashMap<u32, u32>) -> u32 {
    m.values().sum()
}

#[test]
fn starting_pools_by_player_count() {
    assert_eq!(armies_per_player(1), 45);
    assert_eq!(armies_per_player(2), 40);
    assert_eq!(armies_per_player(3), 35);
    assert_eq!(armies_per_player(4), 30);
    assert_eq!(armies_per_player(5), 25);
    assert_eq!(armies_per_player(0), 0);
    assert_eq!(armies_per_player(6), 0);
}

#[test]
fn palette_cycles_to_the_first_color() {
    assert_eq!(color_for(0), Color::Red);
    assert_eq!(color_for(1), Color::Blue);
    assert_eq!(color_for(2), Color::Green);
    assert_eq!(color_for(3), Color::Yellow);
    assert_eq!(color_for(4), Color::Indigo);
    assert_eq!(color_for(5), Color::Red);
}

#[test]
fn new_player_owns_nothing() {
    let p = Player::new("Ann".to_string(), Color::Green);
    assert_eq!(p.name, "Ann");
    assert_eq!(p.color, Color::Green);
    assert!(p.army_per_territory.is_empty());
}

#[test]
fn players_are_named_in_order() {
    let players = setup_players(names(3));
    assert_eq!(players.len(), 3);
    assert_eq!(players[2].name, "Player3");
    assert_eq!(players[2].color, Color::Green);
}

#[test]
fn shuffled_order_is_a_permutation() {
    let g = setup_territories();
    let mut order = shuffled_territories(&g);
    assert_eq!(order.len(), 16);
    order.sort();
    assert_eq!(order, (0..16).collect::<Vec<u32>>());
}

#[test]
fn deal_is_round_robin() {
    let mut players = setup_players(names(3));
    let order: Vec<u32> = vec![5, 0, 7, 2, 9];
    assign_territories(&order, &mut players);
    let mut first = owned_territories(&players[0].army_per_territory);
    first.sort();
    assert_eq!(first, vec![2, 5]);
    let mut second = owned_territories(&players[1].army_per_territory);
    second.sort();
    assert_eq!(second, vec![0, 9]);
    assert_eq!(owned_territories(&players[2].army_per_territory), vec![7]);
    assert_eq!(players[0].army_per_territory.get(&5), Some(&0));
}

#[test]
fn even_allocation_conserves_armies_and_partitions() {
    for n in 1..=5usize {
        let g = setup_territories();
        let mut players = setup_players(names(n));
        assert_eq!(
            assign_territories_and_armies_to_players(&g, &mut players),
            Ok(())
        );
        let sum: u32 = players.iter().map(|p| total(&p.army_per_territory)).sum();
        assert_eq!(sum, armies_per_player(n) * n as u32);
        let mut owned: Vec<u32> = players
            .iter()
            .flat_map(|p| p.army_per_territory.keys().copied())
            .collect();
        owned.sort();
        assert_eq!(owned, (0..16).collect::<Vec<u32>>());
        let sizes: Vec<usize> = players.iter().map(|p| p.army_per_territory.len()).collect();
        let (lo, hi) = (sizes.iter().min().unwrap(), sizes.iter().max().unwrap());
        assert!(hi - lo <= 1);
        for p in &players {
            assert!(p.army_per_territory.values().all(|a| *a >= 1));
        }
    }
}

#[test]
fn wrong_player_counts_are_refused() {
    let g = setup_territories();
    let mut none: Vec<Player> = Vec::new();
    assert_eq!(
        assign_territories_and_armies_to_players(&g, &mut none),
        Err(SetupError::PlayerCount)
    );
    let mut six = setup_players(names(6));
    assert_eq!(
        assign_territories_and_armies_to_players(&g, &mut six),
        Err(SetupError::PlayerCount)
    );
    assert!(six.iter().all(|p| p.army_per_territory.is_empty()));
}

#[test]
fn manual_allocation_starts_empty() {
    let g = setup_territories();
    let mut players = setup_players(names(2));
    assert_eq!(
        deal_territories(&g, &mut players),
        Ok(())
    );
    assert_eq!(players[0].army_per_territory.len(), 8);
    assert!(players.iter().all(|p| total(&p.army_per_territory) == 0));
}

#[test]
fn manual_placement_fills_each_pool_in_turn() {
    let mut players = setup_players(names(2));
    let order: Vec<u32> = (0..16).collect();
    deal_in_order(&order, &mut players);
    let mut progress = ManualPlacement::new();
    assert_eq!(
        place_manual_army(&mut players, &mut progress, 1),
        Err(PlacementError::NotOwned)
    );
    assert_eq!(progress, ManualPlacement { player: 0, placed: 0 });
    for _ in 0..40 {
        assert_eq!(place_manual_army(&mut players, &mut progress, 4), Ok(()));
    }
    assert_eq!(players[0].army_per_territory.get(&4), Some(&40));
    assert_eq!(progress, ManualPlacement { player: 1, placed: 0 });
    assert!(!progress.is_complete(2));
    for _ in 0..40 {
        assert_eq!(place_manual_army(&mut players, &mut progress, 1), Ok(()));
    }
    assert!(progress.is_complete(2));
    assert_eq!(total(&players[1].army_per_territory), 40);
}

#[test]
fn even_placement_splits_pool() {
    let mut players = setup_players(names(2));
    let order: Vec<u32> = (0..6).collect();
    assign_territories(&order, &mut players);
    place_armies_evenly(&mut players, 40);
    for p in &players {
        assert_eq!(total(&p.army_per_territory), 40);
        let mut counts: Vec<u32> = p.army_per_territory.values().copied().collect();
        counts.sort();
        assert_eq!(counts, vec![13, 13, 14]);
    }
}

#[test]
fn distribute_evenly_spreads_round_robin() {
    let mut m: HashMap<u32, u32> = HashMap::new();
    m.insert(1, 2);
    m.insert(4, 0);
    m.insert(9, 5);
    m.insert(12, 1);
    distribute_evenly(&mut m, 6);
    assert_eq!(total(&m), 14);
    let gained: Vec<u32> = [(1, 2), (4, 0), (9, 5), (12, 1)]
        .iter()
        .map(|(t, before)| m[t] - before)
        .collect();
    assert_eq!(gained.iter().filter(|g| **g == 2).count(), 2);
    assert_eq!(gained.iter().filter(|g| **g == 1).count(), 2);
}

#[test]
fn owned_territories_lists_each_once() {
    let mut m: HashMap<u32, u32> = HashMap::new();
    m.insert(3, 1);
    m.insert(8, 2);
    let mut keys = owned_territories(&m);
    keys.sort();
    assert_eq!(keys, vec![3, 8]);
}

#[test]
fn shuffled_order_is_not_the_identity() {
    let g = setup_territories();
    let identity: Vec<u32> = (0..16).collect();
    // Sixteen territories stay in place with odds of one in 16! per draw.
    let moved = (0..5).any(|_| shuffled_territories(&g) != identity);
    assert!(moved);
}

fn sorted_counts(p: &Player) -> Vec<u32> {
    let mut counts: Vec<u32> = p.army_per_territory.values().copied().collect();
    counts.sort();
    counts
}

#[test]
fn even_allocation_exact_splits() {
    let g = setup_territories();
    let mut one = setup_players(names(1));
    assert_eq!(
        assign_territories_and_armies_to_players(&g, &mut one),
        Ok(())
    );
    let mut expected = vec![2; 3];
    expected.extend(vec![3; 13]);
    assert_eq!(sorted_counts(&one[0]), expected);

    let mut three = setup_players(names(3));
    assert_eq!(
        assign_territories_and_armies_to_players(&g, &mut three),
        Ok(())
    );
    let sizes: Vec<usize> = three.iter().map(|p| p.army_per_territory.len()).collect();
    assert_eq!(sizes, vec![6, 5, 5]);
    assert_eq!(sorted_counts(&three[0]), vec![5, 6, 6, 6, 6, 6]);
    assert_eq!(sorted_counts(&three[1]), vec![7; 5]);
    assert_eq!(sorted_counts(&three[2]), vec![7; 5]);
}

#[test]
fn manual_session_places_every_pool() {
    let g = setup_territories();
    let mut players = setup_players(names(3));
    assert_eq!(
        deal_territories(&g, &mut players),
        Ok(())
    );
    let mut progress = ManualPlacement::new();
    let mut steps = 0;
    while !progress.is_complete(players.len()) {
        let t = *players[progress.player].army_per_territory.keys().min().unwrap();
        assert_eq!(place_manual_army(&mut players, &mut progress, t), Ok(()));
        steps += 1;
    }
    assert_eq!(steps, 105);
    let sum: u32 = players.iter().map(|p| total(&p.army_per_territory)).sum();
    assert_eq!(sum, 35 * 3);
    assert!(players.iter().all(|p| total(&p.army_per_territory) == 35));
}
