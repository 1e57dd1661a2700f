//! Reinforcement, the end of the game, and the turn state machine that
//! sequences reinforcement and attacks player after player.
use vstd::prelude::*;
use petgraph::graph::UnGraph;
use crate::ledger::{Player, army_total, spread_over, distribute_evenly};
use crate::world::{adjacent, node_count, neighbor_list, territory_count};
use crate::combat::{
    AttackError, AttackOutcome, attack_applied, attack_rejection, ledgers_positive, perform_attack,
};

verus! {

broadcast use vstd::std_specs::hash::group_hash_axioms;

/// The armies a player holding `k` territories receives at the start of a
/// turn: a third of `k`, rounded down, but never fewer than three.
pub open spec fn reinforcement_grant(k: int) -> int {
    if k / 3 > 3 {
        k / 3
    } else {
        3
    }
}

/// Grants the player `max(3, k / 3)` armies for its `k` territories and
/// spreads them one at a time, round-robin, over those territories. Returns
/// the grant.
pub fn add_armies_to_player(player: &mut Player) -> (grant: u32)
    requires
        old(player).army_per_territory@.dom().len() >= 1,
        forall|t: u32| #[trigger]
            old(player).army_per_territory@.contains_key(t) ==> old(player).army_per_territory@[t]
                + reinforcement_grant(old(player).army_per_territory@.dom().len() as int)
                <= u32::MAX,
    ensures
        grant == reinforcement_grant(old(player).army_per_territory@.dom().len() as int),
        final(player).name == old(player).name,
        final(player).color == old(player).color,
        final(player).army_per_territory@.dom() == old(player).army_per_territory@.dom(),
        army_total(final(player).army_per_territory@) == army_total(
            old(player).army_per_territory@,
        ) + grant,
        spread_over(
            old(player).army_per_territory@,
            final(player).army_per_territory@,
            grant as int / old(player).army_per_territory@.dom().len() as int,
        ),
{
    let ghost m = player.army_per_territory@;
    let k: usize = player.army_per_territory.len();
    let third: usize = k / 3;
    let grant_wide: usize = if third > 3 {
        third
    } else {
        3
    };
    proof {
        if !(exists|t: u32| m.contains_key(t)) {
            assert(m.dom() =~= Set::<u32>::empty());
        }
        let t = choose|t: u32| m.contains_key(t);
        assert(m[t] + grant_wide <= u32::MAX);
    }
    let grant: u32 = grant_wide as u32;
    distribute_evenly(&mut player.army_per_territory, grant);
    grant
}

/// The player has conquered every territory of a map of `count` territories.
pub open spec fn holds_everything(p: Player, count: nat) -> bool {
    p.army_per_territory@.dom().len() == count
}

/// The first player, by index, who holds as many territories as the map has.
pub fn winner(players: &Vec<Player>, g: &UnGraph<&'static str, ()>) -> (r: Option<usize>)
    ensures
        r is None <==> forall|i: int|
            0 <= i < players@.len() ==> !holds_everything(#[trigger] players@[i], territory_count(*g)),
        r matches Some(i) ==> i < players@.len() && holds_everything(
            players@[i as int],
            territory_count(*g),
        ) && forall|j: int|
            0 <= j < i ==> !holds_everything(#[trigger] players@[j], territory_count(*g)),
{
    let total = node_count(g);
    let mut i: usize = 0;
    while i < players.len()
        invariant
            0 <= i <= players@.len(),
            total == territory_count(*g),
            forall|j: int|
                0 <= j < i ==> !holds_everything(#[trigger] players@[j], territory_count(*g)),
        decreases players@.len() - i,
    {
        if players[i].army_per_territory.len() == total {
            return Some(i);
        }
        i = i + 1;
    }
    None
}

/// Whether the game is over: some player holds every territory of the map.
pub fn check_game_over(players: &Vec<Player>, g: &UnGraph<&'static str, ()>) -> (r: bool)
    ensures
        r <==> exists|i: int|
            0 <= i < players@.len() && holds_everything(#[trigger] players@[i], territory_count(*g)),
{
    match winner(players, g) {
        Some(i) => {
            assert(holds_everything(players@[i as int], territory_count(*g)));
            true
        },
        None => false,
    }
}

/// What the player whose turn it is asks for in the attack phase.
#[derive(Clone, Copy, Debug, PartialEq, Eq, Structural)]
pub enum AttackDecision {
    /// Attack `target` from `source`.
    AttackNew(u32, u32),
    /// Attack again from the last source to the last target.
    RepeatLast,
    /// End the turn.
    EndTurn,
}

/// The state of one player's turn: whose it is, the last source and target
/// attacked, whether that attack can go on, and whether the game is over.
#[derive(Clone, Copy, Debug)]
pub struct Turn {
    pub player: usize,
    pub last_attack: Option<(u32, u32)>,
    pub last_finished: bool,
    pub game_over: bool,
}

/// The source and target that a decision asks to attack, if any: a repeat
/// reuses the last pair only while that attack can go on.
pub open spec fn requested_attack(turn: Turn, d: AttackDecision) -> Option<(u32, u32)> {
    match d {
        AttackDecision::AttackNew(source, target) => Some((source, target)),
        AttackDecision::RepeatLast => if !turn.last_finished {
            turn.last_attack
        } else {
            None
        },
        AttackDecision::EndTurn => None,
    }
}

/// `d` is the first player, by index, who owns territory `t`.
pub open spec fn first_owner(ps: Seq<Player>, t: u32, d: int) -> bool {
    &&& 0 <= d < ps.len()
    &&& ps[d].army_per_territory@.contains_key(t)
    &&& forall|j: int| 0 <= j < d ==> !#[trigger] ps[j].army_per_territory@.contains_key(t)
}

/// The player that owns territory `t`, if any: the first by index.
pub fn owner_of(players: &Vec<Player>, t: u32) -> (r: Option<usize>)
    ensures
        r matches Some(i) ==> i < players@.len() && players@[i as int].army_per_territory@.contains_key(t)
            && forall|j: int|
            0 <= j < i ==> !#[trigger] players@[j].army_per_territory@.contains_key(t),
        r is None <==> forall|i: int|
            0 <= i < players@.len() ==> !#[trigger] players@[i].army_per_territory@.contains_key(t),
{
    let mut i: usize = 0;
    while i < players.len()
        invariant
            0 <= i <= players@.len(),
            forall|j: int|
                0 <= j < i ==> !#[trigger] players@[j].army_per_territory@.contains_key(t),
        decreases players@.len() - i,
    {
        if players[i].army_per_territory.contains_key(&t) {
            return Some(i);
        }
        i = i + 1;
    }
    None
}

/// The territories bordering `source` that `player` does not own: the
/// targets it may attack from there.
pub fn attack_targets(g: &UnGraph<&'static str, ()>, player: &Player, source: u32) -> (r: Vec<u32>)
    ensures
        forall|t: u32|
            r@.contains(t) <==> adjacent(*g, source, t) && !player.army_per_territory@.contains_key(t),
{
    let neighbors = neighbor_list(g, source);
    let mut r: Vec<u32> = Vec::new();
    let mut i: usize = 0;
    while i < neighbors.len()
        invariant
            0 <= i <= neighbors@.len(),
            forall|c: u32| neighbors@.contains(c) <==> adjacent(*g, source, c),
            forall|t: u32|
                r@.contains(t) <==> (exists|k: int| 0 <= k < i && neighbors@[k] == t)
                    && !player.army_per_territory@.contains_key(t),
        decreases neighbors@.len() - i,
    {
        let t = neighbors[i];
        let ghost before = r@;
        let owned = player.army_per_territory.contains_key(&t);
        if !owned {
            r.push(t);
        }
        proof {
            assert forall|u: u32|
                r@.contains(u) <==> (exists|k: int| 0 <= k < i + 1 && neighbors@[k] == u)
                    && !player.army_per_territory@.contains_key(u) by {
                if r@.contains(u) {
                    let x = r@.index_of(u);
                    if x < before.len() {
                        assert(before[x] == u);
                        assert(before.contains(u));
                        let k = choose|k: int| 0 <= k < i && neighbors@[k] == u;
                        assert(0 <= k < i + 1 && neighbors@[k] == u);
                    } else {
                        assert(u == t);
                        assert(0 <= i < i + 1 && neighbors@[i as int] == u);
                    }
                }
                if (exists|k: int| 0 <= k < i + 1 && neighbors@[k] == u)
                    && !player.army_per_territory@.contains_key(u) {
                    let k = choose|k: int| 0 <= k < i + 1 && neighbors@[k] == u;
                    if k < i {
                        assert(before.contains(u));
                        let x = before.index_of(u);
                        assert(r@[x] == u);
                    } else {
                        assert(r@[r@.len() - 1] == u);
                    }
                }
            }
        }
        i = i + 1;
    }
    proof {
        assert forall|t: u32|
            r@.contains(t) <==> adjacent(*g, source, t) && !player.army_per_territory@.contains_key(t) by {
            if adjacent(*g, source, t) {
                assert(neighbors@.contains(t));
                let k = neighbors@.index_of(t);
                assert(0 <= k < neighbors@.len() && neighbors@[k] == t);
            }
        }
    }
    r
}

/// Whether the player can be reinforced: it owns a territory, and no count
/// would pass `u32::MAX`.
pub fn can_reinforce(player: &Player) -> (r: bool)
    ensures
        r == (player.army_per_territory@.dom().len() >= 1 && forall|t: u32| #[trigger]
            player.army_per_territory@.contains_key(t) ==> player.army_per_territory@[t]
                + reinforcement_grant(player.army_per_territory@.dom().len() as int)
                <= u32::MAX),
{
    let ts = crate::ledger::owned_territories(&player.army_per_territory);
    let k: usize = ts.len();
    if k == 0 {
        return false;
    }
    let third: usize = k / 3;
    let grant: u64 = if third > 3 {
        third as u64
    } else {
        3
    };
    let ghost m = player.army_per_territory@;
    let mut i: usize = 0;
    while i < k
        invariant
            0 <= i <= k,
            k == ts@.len(),
            k == m.dom().len(),
            ts@.to_set() == m.dom(),
            m == player.army_per_territory@,
            grant == reinforcement_grant(k as int),
            forall|j: int| 0 <= j < i ==> m[#[trigger] ts@[j]] + grant <= u32::MAX,
        decreases k - i,
    {
        let t = ts[i];
        assert(ts@.to_set().contains(t));
        let a: u32 = *player.army_per_territory.get(&t).unwrap();
        if a as u64 + grant > u32::MAX as u64 {
            return false;
        }
        i = i + 1;
    }
    proof {
        assert forall|t: u32| #[trigger] m.contains_key(t) implies m[t] + grant <= u32::MAX by {
            assert(ts@.to_set().contains(t));
            let j = ts@.index_of(t);
            assert(m[ts@[j]] + grant <= u32::MAX);
        }
    }
    true
}

/// Starts the turn of `player`: the player is reinforced, and the attack
/// phase opens with no attack made yet. Returns the turn and the grant.
pub fn begin_turn(players: &mut Vec<Player>, player: usize) -> (r: (Turn, u32))
    requires
        player < old(players)@.len(),
        old(players)@[player as int].army_per_territory@.dom().len() >= 1,
        forall|t: u32| #[trigger]
            old(players)@[player as int].army_per_territory@.contains_key(t) ==> old(
                players,
            )@[player as int].army_per_territory@[t] + reinforcement_grant(
                old(players)@[player as int].army_per_territory@.dom().len() as int,
            ) <= u32::MAX,
    ensures
        r.0 == (Turn { player, last_attack: None, last_finished: false, game_over: false }),
        r.1 == reinforcement_grant(
            old(players)@[player as int].army_per_territory@.dom().len() as int,
        ),
        final(players)@.len() == old(players)@.len(),
        forall|j: int|
            0 <= j < final(players)@.len() && j != player ==> #[trigger] final(players)@[j] == old(
                players,
            )@[j],
        final(players)@[player as int].army_per_territory@.dom() == old(
            players,
        )@[player as int].army_per_territory@.dom(),
        army_total(final(players)@[player as int].army_per_territory@) == army_total(
            old(players)@[player as int].army_per_territory@,
        ) + r.1,
{
    let grant = add_armies_to_player(&mut players[player]);
    (Turn { player, last_attack: None, last_finished: false, game_over: false }, grant)
}

/// The source and target that a decision asks to attack, if any.
pub fn next_attack(turn: &Turn, d: AttackDecision) -> (r: Option<(u32, u32)>)
    ensures
        r == requested_attack(*turn, d),
{
    match d {
        AttackDecision::AttackNew(source, target) => Some((source, target)),
        AttackDecision::RepeatLast => if !turn.last_finished {
            turn.last_attack
        } else {
            None
        },
        AttackDecision::EndTurn => None,
    }
}

/// The current player attacks `target` from `source`; the defender is the
/// target's owner (a target nobody else owns is refused). An attack that
/// takes place becomes the last attack of the turn, and the game is over
/// once some player holds the whole map.
pub fn play_attack(
    g: &UnGraph<&'static str, ()>,
    players: &mut Vec<Player>,
    turn: &mut Turn,
    source: u32,
    target: u32,
) -> (r: Result<AttackOutcome, AttackError>)
    requires
        old(turn).player < old(players)@.len(),
    ensures
        ledgers_positive(old(players)@) ==> ledgers_positive(final(players)@),
        final(players)@.len() == old(players)@.len(),
        r is Err <==> forall|d: int|
            #[trigger] first_owner(old(players)@, target, d) ==> attack_rejection(
                *g,
                old(players)@,
                old(turn).player as int,
                d,
                source,
                target,
            ) is Some,
        r is Err ==> final(players)@ == old(players)@ && *final(turn) == *old(turn),
        r matches Ok(o) ==> {
            &&& final(turn).player == old(turn).player
            &&& final(turn).last_attack == Some((source, target))
            &&& final(turn).last_finished == o.finished
            &&& final(turn).game_over <==> exists|i: int|
                0 <= i < final(players)@.len() && holds_everything(
                    #[trigger] final(players)@[i],
                    territory_count(*g),
                )
            &&& exists|d: int|
                0 <= d < old(players)@.len() && attack_rejection(
                    *g,
                    old(players)@,
                    old(turn).player as int,
                    d,
                    source,
                    target,
                ) is None && attack_applied(
                    old(players)@,
                    final(players)@,
                    old(turn).player as int,
                    d,
                    source,
                    target,
                    o,
                )
        },
{
    let owner = owner_of(players, target);
    let defender = match owner {
        Some(d) => d,
        None => turn.player,
    };
    proof {
        if let Some(i) = owner {
            assert(first_owner(players@, target, i as int));
            assert forall|d: int| #[trigger] first_owner(players@, target, d) implies d == i by {
                if d < i {
                    assert(!players@[d].army_per_territory@.contains_key(target));
                }
                if i < d {
                    assert(!players@[i as int].army_per_territory@.contains_key(target));
                }
            }
        } else {
            assert(!players@[turn.player as int].army_per_territory@.contains_key(target));
            assert forall|d: int| #[trigger] first_owner(players@, target, d) implies false by {
                assert(players@[d].army_per_territory@.contains_key(target));
            }
        }
    }
    let r = perform_attack(g, players, turn.player, defender, source, target);
    if let Ok(o) = r {
        turn.last_attack = Some((source, target));
        turn.last_finished = o.finished;
        turn.game_over = check_game_over(players, g);
    }
    r
}

/// The seat `k` places after `current` round a table of `n` players.
pub open spec fn seat_after(current: int, k: int, n: int) -> int {
    (current + k) % n
}

proof fn lemma_seat_step(current: int, s: int, n: int)
    requires
        0 <= current,
        0 <= s,
        n >= 1,
    ensures
        seat_after(current, s + 1, n) == if seat_after(current, s, n) + 1 == n {
            0
        } else {
            seat_after(current, s, n) + 1
        },
{
    let x = current + s;
    vstd::arithmetic::div_mod::lemma_fundamental_div_mod(x, n);
    vstd::arithmetic::div_mod::lemma_mod_bound(x, n);
    let d = x / n;
    let r = x % n;
    if r + 1 == n {
        assert(x + 1 == (d + 1) * n + 0) by (nonlinear_arith)
            requires
                x == n * d + r,
                r + 1 == n,
        ;
        vstd::arithmetic::div_mod::lemma_fundamental_div_mod_converse(x + 1, n, d + 1, 0);
    } else {
        assert(x + 1 == d * n + (r + 1)) by (nonlinear_arith)
            requires
                x == n * d + r,
        ;
        vstd::arithmetic::div_mod::lemma_fundamental_div_mod_converse(x + 1, n, d, r + 1);
    }
}

/// The player still holds a territory, and so is still in the game.
pub open spec fn in_game(p: Player) -> bool {
    p.army_per_territory@.dom().len() >= 1
}

/// `q` is the first player after `current`, in order and wrapping round,
/// who is still in the game (`current` itself coming last).
pub open spec fn next_seat(ps: Seq<Player>, current: int, q: int) -> bool {
    &&& 0 <= q < ps.len()
    &&& in_game(ps[q])
    &&& exists|k: int|
        #![trigger seat_after(current, k, ps.len() as int)]
        1 <= k <= ps.len() && q == seat_after(current, k, ps.len() as int) && forall|j: int|
            1 <= j < k ==> !in_game(#[trigger] ps[seat_after(current, j, ps.len() as int)])
}

/// The player whose turn follows `current`'s: the first one after it, in
/// order and wrapping round, who still holds a territory (`current` itself
/// last), or none when nobody holds any.
pub fn next_active_player(players: &Vec<Player>, current: usize) -> (r: Option<usize>)
    requires
        current < players@.len(),
    ensures
        r is None <==> forall|i: int| 0 <= i < players@.len() ==> !in_game(#[trigger] players@[i]),
        r matches Some(q) ==> next_seat(players@, current as int, q as int),
{
    let n = players.len();
    let mut q: usize = current;
    let mut s: usize = 0;
    proof {
        vstd::arithmetic::div_mod::lemma_small_mod(current as nat, n as nat);
    }
    while s < n
        invariant
            0 <= s <= n,
            n == players@.len(),
            current < n,
            q < n,
            q == seat_after(current as int, s as int, n as int),
            forall|j: int|
                1 <= j <= s ==> !in_game(#[trigger] players@[seat_after(current as int, j, n as int)]),
        decreases n - s,
    {
        proof {
            lemma_seat_step(current as int, s as int, n as int);
        }
        q = if q + 1 == n {
            0
        } else {
            q + 1
        };
        s = s + 1;
        if players[q].army_per_territory.len() > 0 {
            assert(1 <= s <= n && q == seat_after(current as int, s as int, n as int));
            return Some(q);
        }
    }
    proof {
        assert forall|i: int| 0 <= i < n implies !in_game(#[trigger] players@[i]) by {
            let j = if i > current {
                i - current
            } else {
                i + n - current
            };
            if i > current {
                vstd::arithmetic::div_mod::lemma_fundamental_div_mod_converse(
                    current + j,
                    n as int,
                    0,
                    i,
                );
            } else {
                vstd::arithmetic::div_mod::lemma_fundamental_div_mod_converse(
                    current + j,
                    n as int,
                    1,
                    i,
                );
            }
            assert(!in_game(players@[seat_after(current as int, j, n as int)]));
        }
    }
    None
}

/// Ends the turn: the next player still in the game, in order and wrapping
/// round, starts a fresh attack phase; there is none when nobody holds a
/// territory.
pub fn end_turn(turn: &Turn, players: &Vec<Player>) -> (next: Option<Turn>)
    requires
        turn.player < players@.len(),
    ensures
        next is None <==> forall|i: int| 0 <= i < players@.len() ==> !in_game(#[trigger] players@[i]),
        next matches Some(t) ==> {
            &&& next_seat(players@, turn.player as int, t.player as int)
            &&& t.last_attack is None
            &&& !t.last_finished
            &&& t.game_over == turn.game_over
        },
{
    match next_active_player(players, turn.player) {
        Some(q) => Some(
            Turn { player: q, last_attack: None, last_finished: false, game_over: turn.game_over },
        ),
        None => None,
    }
}

} // verus!
