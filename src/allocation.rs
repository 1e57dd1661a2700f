//! Setting up a game: players and their colors, the random deal of the
//! territories, and the placement of each player's starting armies, evenly
//! or territory by territory as the player chooses.
use vstd::prelude::*;
use rand::seq::SliceRandom;
use petgraph::graph::UnGraph;
use crate::ledger::{
    Color, Player, army_total, all_positive, spread_over, distribute_evenly, set_armies,
    lemma_total_remove,
};
use crate::world::{node_count, territory_count};

verus! {

broadcast use vstd::std_specs::hash::group_hash_axioms;

/// The color of the player at `index`: the palette in order, and the first
/// color again for any player past the fifth.
pub open spec fn palette_color(index: int) -> Color {
    if index == 1 {
        Color::Blue
    } else if index == 2 {
        Color::Green
    } else if index == 3 {
        Color::Yellow
    } else if index == 4 {
        Color::Indigo
    } else {
        Color::Red
    }
}

/// The starting pool of armies of each player in a game of `n` players
/// (none outside one to five players).
pub open spec fn starting_armies(n: int) -> int {
    if n == 1 {
        45
    } else if n == 2 {
        40
    } else if n == 3 {
        35
    } else if n == 4 {
        30
    } else if n == 5 {
        25
    } else {
        0
    }
}

/// The color of the player at `index`.
pub fn color_for(index: usize) -> (c: Color)
    ensures
        c == palette_color(index as int),
{
    match index {
        0 => Color::Red,
        1 => Color::Blue,
        2 => Color::Green,
        3 => Color::Yellow,
        4 => Color::Indigo,
        _ => Color::Red,
    }
}

/// The starting pool of armies of each player in a game of `n` players.
pub fn armies_per_player(n: usize) -> (r: u32)
    ensures
        r == starting_armies(n as int),
{
    match n {
        1 => 45,
        2 => 40,
        3 => 35,
        4 => 30,
        5 => 25,
        _ => 0,
    }
}

/// One player for each name, in order, colored from the palette, owning nothing.
pub fn setup_players(names: Vec<String>) -> (players: Vec<Player>)
    ensures
        players@.len() == names@.len(),
        forall|i: int|
            0 <= i < names@.len() ==> {
                &&& (#[trigger] players@[i]).name@ == names@[i]@
                &&& players@[i].color == palette_color(i)
                &&& players@[i].army_per_territory@ == Map::<u32, u32>::empty()
            },
{
    let mut players: Vec<Player> = Vec::new();
    let mut i: usize = 0;
    while i < names.len()
        invariant
            0 <= i <= names@.len(),
            players@.len() == i,
            forall|j: int|
                0 <= j < i ==> {
                    &&& (#[trigger] players@[j]).name@ == names@[j]@
                    &&& players@[j].color == palette_color(j)
                    &&& players@[j].army_per_territory@ == Map::<u32, u32>::empty()
                },
        decreases names@.len() - i,
    {
        let player = Player::new(names[i].clone(), color_for(i));
        players.push(player);
        i = i + 1;
    }
    players
}

/// Relies on rand's `SliceRandom::shuffle` with the thread-local generator:
/// the elements are permuted, none added or lost.
#[verifier::external_body]
fn shuffle(v: &mut Vec<u32>)
    ensures
        final(v)@.to_multiset() == old(v)@.to_multiset(),
{
    v.shuffle(&mut rand::thread_rng());
}

/// `order` lists every territory index of a map of `count` territories
/// exactly once.
pub open spec fn is_deal_order(order: Seq<u32>, count: nat) -> bool {
    &&& order.len() == count
    &&& order.no_duplicates()
    &&& forall|t: u32| order.contains(t) <==> t < count
}

/// The territory indices of the map in a random order.
pub fn shuffled_territories(g: &UnGraph<&'static str, ()>) -> (order: Vec<u32>)
    requires
        territory_count(*g) <= u32::MAX,
    ensures
        is_deal_order(order@, territory_count(*g)),
{
    let count = node_count(g);
    let mut order: Vec<u32> = Vec::new();
    let mut i: usize = 0;
    while i < count
        invariant
            0 <= i <= count,
            count == territory_count(*g),
            count <= u32::MAX,
            order@.len() == i,
            forall|j: int| 0 <= j < i ==> order@[j] == j,
        decreases count - i,
    {
        order.push(i as u32);
        i = i + 1;
    }
    let ghost before = order@;
    assert(before.no_duplicates());
    assert forall|t: u32| before.contains(t) <==> t < count by {
        if t < count {
            assert(before[t as int] == t);
        }
    }
    proof {
        before.lemma_multiset_has_no_duplicates();
    }
    shuffle(&mut order);
    proof {
        broadcast use vstd::seq_lib::group_to_multiset_ensures;

        assert(order@.len() == before.len()) by {
            vstd::seq_lib::to_multiset_len(order@);
            vstd::seq_lib::to_multiset_len(before);
        }
        assert(forall|x: u32|
            order@.to_multiset().contains(x) ==> order@.to_multiset().count(x) == 1);
        order@.lemma_multiset_has_no_duplicates_conv();
        assert forall|t: u32| order@.contains(t) <==> t < count by {
            assert(order@.to_multiset().contains(t) <==> before.to_multiset().contains(t));
        }
    }
    order
}

/// The territories that dealing the first `len` entries of `order`
/// round-robin over `n` players gives the player at `i`.
pub open spec fn dealt(order: Seq<u32>, n: int, i: int, len: int) -> Set<u32> {
    Set::new(|t: u32| exists|j: int| 0 <= j < len && j % n == i && order[j] == t)
}

/// Deals the territories of `order` to the players round-robin, the first
/// to the first player, each with no army yet.
pub fn assign_territories(order: &Vec<u32>, players: &mut Vec<Player>)
    requires
        old(players)@.len() >= 1,
        forall|i: int|
            0 <= i < old(players)@.len() ==> (#[trigger] old(players)@[i]).army_per_territory@
                == Map::<u32, u32>::empty(),
    ensures
        final(players)@.len() == old(players)@.len(),
        forall|i: int|
            0 <= i < final(players)@.len() ==> {
                &&& (#[trigger] final(players)@[i]).name == old(players)@[i].name
                &&& final(players)@[i].color == old(players)@[i].color
                &&& final(players)@[i].army_per_territory@.dom() == dealt(
                    order@,
                    final(players)@.len() as int,
                    i,
                    order@.len() as int,
                )
                &&& forall|t: u32| #[trigger]
                    final(players)@[i].army_per_territory@.contains_key(t)
                        ==> final(players)@[i].army_per_territory@[t] == 0
            },
{
    let ghost ps0 = players@;
    let n: usize = players.len();
    let mut j: usize = 0;
    while j < order.len()
        invariant
            0 <= j <= order@.len(),
            n == players@.len(),
            n == ps0.len(),
            n >= 1,
            forall|i: int|
                0 <= i < n ==> {
                    &&& (#[trigger] players@[i]).name == ps0[i].name
                    &&& players@[i].color == ps0[i].color
                    &&& players@[i].army_per_territory@.dom() == dealt(
                        order@,
                        n as int,
                        i,
                        j as int,
                    )
                    &&& forall|t: u32| #[trigger]
                        players@[i].army_per_territory@.contains_key(t)
                            ==> players@[i].army_per_territory@[t] == 0
                },
        decreases order@.len() - j,
    {
        let p: usize = j % n;
        let t: u32 = order[j];
        let ghost before = players@;
        set_armies(players, p, t, 0);
        assert forall|i: int| 0 <= i < n implies (#[trigger] players@[i]).army_per_territory@.dom()
            =~= dealt(order@, n as int, i, j as int + 1) by {
            assert forall|u: u32|
                dealt(order@, n as int, i, j as int + 1).contains(u) implies players@[i].army_per_territory@.dom().contains(u) by {
                let k = choose|k: int| 0 <= k < j + 1 && k % (n as int) == i && order@[k] == u;
                if k < j {
                    assert(dealt(order@, n as int, i, j as int).contains(u));
                }
            }
            assert forall|u: u32| players@[i].army_per_territory@.dom().contains(u) implies dealt(
                order@,
                n as int,
                i,
                j as int + 1,
            ).contains(u) by {
                if i == p && u == t {
                    assert(0 <= j < j + 1 && j as int % (n as int) == i && order@[j as int] == u);
                } else {
                    assert(before[i].army_per_territory@.dom().contains(u));
                    assert(dealt(order@, n as int, i, j as int).contains(u));
                    let k = choose|k: int| 0 <= k < j && k % (n as int) == i && order@[k] == u;
                    assert(0 <= k < j + 1 && k % (n as int) == i && order@[k] == u);
                }
            }
        }
        j = j + 1;
    }
}

/// How many of the first `len` positions of a round-robin deal over `n`
/// players fall to the player at `i`: `len / n`, and one more for each of
/// the first `len % n` players.
pub open spec fn seats(n: int, i: int, len: int) -> int {
    len / n + (if i < len % n {
        1int
    } else {
        0int
    })
}

proof fn lemma_seats_step(n: int, i: int, len: int)
    requires
        n >= 1,
        0 <= i < n,
        len >= 0,
    ensures
        seats(n, i, len + 1) == seats(n, i, len) + (if len % n == i {
            1int
        } else {
            0int
        }),
{
    let q = len / n;
    let r = len % n;
    vstd::arithmetic::div_mod::lemma_fundamental_div_mod(len, n);
    vstd::arithmetic::div_mod::lemma_mod_bound(len, n);
    if r == n - 1 {
        assert(len + 1 == (q + 1) * n + 0) by (nonlinear_arith)
            requires
                len == n * q + r,
                r == n - 1,
        ;
        vstd::arithmetic::div_mod::lemma_fundamental_div_mod_converse(len + 1, n, q + 1, 0);
    } else {
        assert(len + 1 == q * n + (r + 1)) by (nonlinear_arith)
            requires
                len == n * q + r,
        ;
        vstd::arithmetic::div_mod::lemma_fundamental_div_mod_converse(len + 1, n, q, r + 1);
    }
}

/// A player of a deal without repeated territories receives exactly its
/// seats of the deal.
pub proof fn lemma_dealt_len(order: Seq<u32>, n: int, i: int, len: int)
    requires
        order.no_duplicates(),
        n >= 1,
        0 <= i < n,
        0 <= len <= order.len(),
    ensures
        dealt(order, n, i, len).finite(),
        dealt(order, n, i, len).len() == seats(n, i, len),
    decreases len,
{
    if len == 0 {
        assert(dealt(order, n, i, len) =~= Set::<u32>::empty());
        assert(seats(n, i, 0) == 0) by {
            vstd::arithmetic::div_mod::lemma_fundamental_div_mod_converse(0, n, 0, 0);
        }
    } else {
        let prev = dealt(order, n, i, len - 1);
        let t = order[len - 1];
        lemma_dealt_len(order, n, i, len - 1);
        lemma_seats_step(n, i, len - 1);
        if (len - 1) % n == i {
            assert(!prev.contains(t)) by {
                if prev.contains(t) {
                    let j = choose|j: int| 0 <= j < len - 1 && j % n == i && order[j] == t;
                    assert(order[j] == order[len - 1]);
                }
            }
            assert(dealt(order, n, i, len) =~= prev.insert(t));
        } else {
            assert(dealt(order, n, i, len) =~= prev);
        }
    }
}

/// Some player is dealt territory `t`.
pub open spec fn dealt_somewhere(order: Seq<u32>, n: int, len: int, t: u32) -> bool {
    exists|i: int| 0 <= i < n && #[trigger] dealt(order, n, i, len).contains(t)
}

/// A deal of a map of `count` territories over `n` players hands every
/// territory to exactly one player.
pub proof fn lemma_deal_partitions(order: Seq<u32>, n: int, count: nat)
    requires
        is_deal_order(order, count),
        n >= 1,
    ensures
        forall|t: u32| #[trigger] dealt_somewhere(order, n, count as int, t) <==> t < count,
        forall|i1: int, i2: int, t: u32|
            0 <= i1 < n && 0 <= i2 < n && i1 != i2 ==> !(#[trigger] dealt(
                order,
                n,
                i1,
                count as int,
            ).contains(t) && #[trigger] dealt(order, n, i2, count as int).contains(t)),
{
    assert forall|t: u32| t < count implies #[trigger] dealt_somewhere(order, n, count as int, t) by {
        assert(order.contains(t));
        let j = order.index_of(t);
        let i = j % n;
        assert(dealt(order, n, i, count as int).contains(t));
    }
    assert forall|t: u32| #[trigger] dealt_somewhere(order, n, count as int, t) implies t < count by {
        let i = choose|i: int| 0 <= i < n && #[trigger] dealt(order, n, i, count as int).contains(t);
        let j = choose|j: int| 0 <= j < count && j % n == i && order[j] == t;
        assert(order.contains(t));
    }
}

/// Every player of a deal of at least as many territories as players is
/// dealt a territory.
proof fn lemma_deal_reaches_everyone(order: Seq<u32>, n: int, i: int, count: nat)
    requires
        order.len() == count,
        0 <= i < n <= count,
    ensures
        dealt(order, n, i, count as int).contains(order[i]),
{
    assert(i % n == i) by {
        vstd::arithmetic::div_mod::lemma_small_mod(i as nat, n as nat);
    }
}

/// Why a game could not be set up.
#[derive(Clone, Copy, Debug, PartialEq, Eq, Structural)]
pub enum SetupError {
    /// A game takes one to five players.
    PlayerCount,
}

/// The armies of all players together.
pub open spec fn players_total(ps: Seq<Player>) -> int
    decreases ps.len(),
{
    if ps.len() == 0 {
        0
    } else {
        players_total(ps.drop_last()) + army_total(ps.last().army_per_territory@)
    }
}

/// Some player owns territory `t`.
pub open spec fn owner_exists(ps: Seq<Player>, t: u32) -> bool {
    exists|i: int| 0 <= i < ps.len() && #[trigger] ps[i].army_per_territory@.contains_key(t)
}

/// The players' ledgers split the territories `0..count` between them: each
/// such territory has exactly one owner, and nothing else is owned.
pub open spec fn partitions_map(ps: Seq<Player>, count: nat) -> bool {
    &&& forall|t: u32| #[trigger] owner_exists(ps, t) <==> t < count
    &&& forall|i1: int, i2: int, t: u32|
        0 <= i1 < ps.len() && 0 <= i2 < ps.len() && i1 != i2 ==> !(
        #[trigger] ps[i1].army_per_territory@.contains_key(t)
            && #[trigger] ps[i2].army_per_territory@.contains_key(t))
}

proof fn lemma_total_zero(m: Map<u32, u32>)
    requires
        m.dom().finite(),
        forall|t: u32| #[trigger] m.contains_key(t) ==> m[t] == 0,
    ensures
        army_total(m) == 0,
    decreases m.dom().len(),
{
    if m.dom().len() > 0 {
        let k = m.dom().choose();
        assert(m.dom().contains(k));
        lemma_total_remove(m, k);
        lemma_total_zero(m.remove(k));
    }
}

proof fn lemma_players_total_uniform(ps: Seq<Player>, pool: int)
    requires
        forall|i: int| 0 <= i < ps.len() ==> army_total(#[trigger] ps[i].army_per_territory@) == pool,
    ensures
        players_total(ps) == pool * ps.len(),
    decreases ps.len(),
{
    if ps.len() > 0 {
        let rest = ps.drop_last();
        assert forall|i: int| 0 <= i < rest.len() implies army_total(
            #[trigger] rest[i].army_per_territory@,
        ) == pool by {
            assert(rest[i] == ps[i]);
        }
        lemma_players_total_uniform(rest, pool);
        assert(pool * rest.len() + pool == pool * ps.len()) by (nonlinear_arith)
            requires
                rest.len() + 1 == ps.len(),
        ;
    }
}

/// Gives every player `pool` armies spread round-robin over its territories,
/// none of which holds an army yet.
pub fn place_armies_evenly(players: &mut Vec<Player>, pool: u32)
    requires
        forall|i: int|
            0 <= i < old(players)@.len() ==> {
                &&& (#[trigger] old(players)@[i]).army_per_territory@.dom().len() >= 1
                &&& forall|t: u32| #[trigger]
                    old(players)@[i].army_per_territory@.contains_key(t)
                        ==> old(players)@[i].army_per_territory@[t] == 0
            },
    ensures
        final(players)@.len() == old(players)@.len(),
        forall|i: int|
            0 <= i < final(players)@.len() ==> {
                &&& (#[trigger] final(players)@[i]).name == old(players)@[i].name
                &&& final(players)@[i].color == old(players)@[i].color
                &&& final(players)@[i].army_per_territory@.dom() == old(
                    players,
                )@[i].army_per_territory@.dom()
                &&& army_total(final(players)@[i].army_per_territory@) == pool
                &&& spread_over(
                    old(players)@[i].army_per_territory@,
                    final(players)@[i].army_per_territory@,
                    pool as int / old(players)@[i].army_per_territory@.dom().len() as int,
                )
            },
{
    let ghost ps0 = players@;
    let mut i: usize = 0;
    while i < players.len()
        invariant
            0 <= i <= players@.len(),
            players@.len() == ps0.len(),
            forall|j: int|
                0 <= j < ps0.len() ==> {
                    &&& (#[trigger] ps0[j]).army_per_territory@.dom().len() >= 1
                    &&& forall|t: u32| #[trigger]
                        ps0[j].army_per_territory@.contains_key(t)
                            ==> ps0[j].army_per_territory@[t] == 0
                },
            forall|j: int| i <= j < players@.len() ==> #[trigger] players@[j] == ps0[j],
            forall|j: int|
                0 <= j < i ==> {
                    &&& (#[trigger] players@[j]).name == ps0[j].name
                    &&& players@[j].color == ps0[j].color
                    &&& players@[j].army_per_territory@.dom() == ps0[j].army_per_territory@.dom()
                    &&& army_total(players@[j].army_per_territory@) == pool
                    &&& spread_over(
                        ps0[j].army_per_territory@,
                        players@[j].army_per_territory@,
                        pool as int / ps0[j].army_per_territory@.dom().len() as int,
                    )
                },
        decreases players@.len() - i,
    {
        proof {
            lemma_total_zero(ps0[i as int].army_per_territory@);
        }
        distribute_evenly(&mut players[i].army_per_territory, pool);
        i = i + 1;
    }
}

/// Every territory of the ledger holds `pool / k` armies or one more, where
/// `k` is the number of territories.
pub open spec fn evenly_spread(m: Map<u32, u32>, pool: int) -> bool {
    forall|t: u32| #[trigger]
        m.contains_key(t) ==> m[t] == pool / (m.dom().len() as int) || m[t] == pool / (
        m.dom().len() as int) + 1
}

/// The ledgers after dealing `order` round-robin over the players: every
/// territory of `order` has exactly one owner, each player holds its seats
/// of the deal, and no army stands anywhere yet.
pub open spec fn dealt_out(old_ps: Seq<Player>, ps: Seq<Player>, order: Seq<u32>) -> bool {
    let n = ps.len() as int;
    &&& ps.len() == old_ps.len()
    &&& partitions_map(ps, order.len())
    &&& forall|i: int|
        0 <= i < n ==> {
            &&& (#[trigger] ps[i]).name == old_ps[i].name
            &&& ps[i].color == old_ps[i].color
            &&& ps[i].army_per_territory@.dom() == dealt(order, n, i, order.len() as int)
            &&& ps[i].army_per_territory@.dom().len() == seats(n, i, order.len() as int)
            &&& ps[i].army_per_territory@.dom().len() >= 1
            &&& forall|t: u32| #[trigger]
                ps[i].army_per_territory@.contains_key(t) ==> ps[i].army_per_territory@[t] == 0
            &&& army_total(ps[i].army_per_territory@) == 0
        }
    &&& players_total(ps) == 0
}

/// The ledgers after dealing `order` round-robin over the players and
/// spreading each player's starting pool evenly over its territories: every
/// territory of `order` has exactly one owner, and each player holds exactly
/// its pool, `pool / k` or one more on each of its `k` territories.
pub open spec fn allocated(old_ps: Seq<Player>, ps: Seq<Player>, order: Seq<u32>) -> bool {
    let n = ps.len() as int;
    &&& ps.len() == old_ps.len()
    &&& partitions_map(ps, order.len())
    &&& forall|i: int|
        0 <= i < n ==> {
            &&& (#[trigger] ps[i]).name == old_ps[i].name
            &&& ps[i].color == old_ps[i].color
            &&& ps[i].army_per_territory@.dom() == dealt(order, n, i, order.len() as int)
            &&& ps[i].army_per_territory@.dom().len() == seats(n, i, order.len() as int)
            &&& army_total(ps[i].army_per_territory@) == starting_armies(n)
            &&& evenly_spread(ps[i].army_per_territory@, starting_armies(n))
            &&& starting_armies(n) >= ps[i].army_per_territory@.dom().len() ==> all_positive(
                ps[i].army_per_territory@,
            )
        }
    &&& players_total(ps) == starting_armies(n) * n
}

/// Deals the territories of `order` round-robin over the players, with no
/// army on any of them yet.
pub fn deal_in_order(order: &Vec<u32>, players: &mut Vec<Player>)
    requires
        1 <= old(players)@.len(),
        old(players)@.len() <= order@.len(),
        is_deal_order(order@, order@.len()),
        forall|i: int|
            0 <= i < old(players)@.len() ==> (#[trigger] old(players)@[i]).army_per_territory@
                == Map::<u32, u32>::empty(),
    ensures
        dealt_out(old(players)@, final(players)@, order@),
{
    let n = players.len();
    assign_territories(order, players);
    let ghost ps1 = players@;
    proof {
        lemma_deal_partitions(order@, n as int, order@.len());
        assert forall|i: int| 0 <= i < n implies (#[trigger] ps1[i]).army_per_territory@.dom().len()
            == seats(n as int, i, order@.len() as int) by {
            lemma_dealt_len(order@, n as int, i, order@.len() as int);
        }
        assert forall|t: u32| #[trigger] owner_exists(ps1, t) <==> t < order@.len() by {
            if owner_exists(ps1, t) {
                let i = choose|i: int|
                    0 <= i < ps1.len() && #[trigger] ps1[i].army_per_territory@.contains_key(t);
                assert(dealt(order@, n as int, i, order@.len() as int).contains(t));
                assert(dealt_somewhere(order@, n as int, order@.len() as int, t));
            }
            if t < order@.len() {
                assert(dealt_somewhere(order@, n as int, order@.len() as int, t));
                let i = choose|i: int|
                    0 <= i < n && #[trigger] dealt(order@, n as int, i, order@.len() as int).contains(
                        t,
                    );
                assert(ps1[i].army_per_territory@.contains_key(t));
            }
        }
        assert forall|i: int| 0 <= i < n implies (#[trigger] ps1[i]).army_per_territory@.dom().len()
            >= 1 && army_total(ps1[i].army_per_territory@) == 0 by {
            lemma_deal_reaches_everyone(order@, n as int, i, order@.len());
            let m = ps1[i].army_per_territory@;
            assert(m.dom().contains(order@[i]));
            assert(m.dom().remove(order@[i]).len() + 1 == m.dom().len());
            lemma_total_zero(m);
        }
        lemma_players_total_uniform(ps1, 0);
    }
}

/// Deals the territories of `order` round-robin over the players, then
/// spreads each player's starting pool evenly over its territories.
pub fn allocate_in_order(order: &Vec<u32>, players: &mut Vec<Player>)
    requires
        1 <= old(players)@.len() <= 5,
        old(players)@.len() <= order@.len(),
        is_deal_order(order@, order@.len()),
        forall|i: int|
            0 <= i < old(players)@.len() ==> (#[trigger] old(players)@[i]).army_per_territory@
                == Map::<u32, u32>::empty(),
    ensures
        allocated(old(players)@, final(players)@, order@),
{
    let n = players.len();
    deal_in_order(order, players);
    let ghost ps1 = players@;
    let pool = armies_per_player(n);
    place_armies_evenly(players, pool);
    proof {
        lemma_players_total_uniform(players@, pool as int);
        assert forall|i: int| 0 <= i < n implies evenly_spread(
            #[trigger] players@[i].army_per_territory@,
            pool as int,
        ) && (pool >= players@[i].army_per_territory@.dom().len() ==> all_positive(
            players@[i].army_per_territory@,
        )) && players@[i].army_per_territory@.dom().len() == ps1[i].army_per_territory@.dom().len() by {
            let m = players@[i].army_per_territory@;
            let k = m.dom().len() as int;
            assert(m.dom() == ps1[i].army_per_territory@.dom());
            assert forall|t: u32| #[trigger] m.contains_key(t) implies m[t] == pool as int / k
                || m[t] == pool as int / k + 1 by {
                assert(ps1[i].army_per_territory@.contains_key(t));
            }
            if pool >= k {
                assert(pool as int / k >= 1) by {
                    vstd::arithmetic::div_mod::lemma_div_by_self(k);
                    vstd::arithmetic::div_mod::lemma_div_is_ordered(k, pool as int, k);
                }
            }
        }
        assert forall|t: u32| #[trigger] owner_exists(players@, t) <==> owner_exists(ps1, t) by {
            if owner_exists(players@, t) {
                let i = choose|i: int|
                    0 <= i < players@.len() && #[trigger] players@[i].army_per_territory@.contains_key(
                        t,
                    );
                assert(ps1[i].army_per_territory@.contains_key(t));
            }
            if owner_exists(ps1, t) {
                let i = choose|i: int|
                    0 <= i < ps1.len() && #[trigger] ps1[i].army_per_territory@.contains_key(t);
                assert(players@[i].army_per_territory@.dom() == ps1[i].army_per_territory@.dom());
                assert(players@[i].army_per_territory@.contains_key(t));
            }
        }
        assert forall|i1: int, i2: int, t: u32|
            0 <= i1 < n && 0 <= i2 < n && i1 != i2 implies !(
            #[trigger] players@[i1].army_per_territory@.contains_key(t)
                && #[trigger] players@[i2].army_per_territory@.contains_key(t)) by {
            assert(players@[i1].army_per_territory@.dom() == ps1[i1].army_per_territory@.dom());
            assert(players@[i2].army_per_territory@.dom() == ps1[i2].army_per_territory@.dom());
            if players@[i1].army_per_territory@.contains_key(t) {
                assert(ps1[i1].army_per_territory@.dom().contains(t));
            }
            if players@[i2].army_per_territory@.contains_key(t) {
                assert(ps1[i2].army_per_territory@.dom().contains(t));
            }
        }
    }
}

/// Deals the map's territories to the players round-robin in a random order,
/// with no army placed, ready for placement by hand. Checks that there are
/// one to five players; with a wrong number nothing changes.
pub fn deal_territories(g: &UnGraph<&'static str, ()>, players: &mut Vec<Player>) -> (r: Result<
    (),
    SetupError,
>)
    requires
        territory_count(*g) <= u32::MAX,
        1 <= old(players)@.len() <= 5 ==> old(players)@.len() <= territory_count(*g),
        forall|i: int|
            0 <= i < old(players)@.len() ==> (#[trigger] old(players)@[i]).army_per_territory@
                == Map::<u32, u32>::empty(),
    ensures
        r is Err <==> !(1 <= old(players)@.len() <= 5),
        r is Err ==> final(players)@ == old(players)@,
        r is Ok ==> exists|order: Seq<u32>|
            #![trigger is_deal_order(order, territory_count(*g))]
            is_deal_order(order, territory_count(*g)) && dealt_out(
                old(players)@,
                final(players)@,
                order,
            ),
{
    let n = players.len();
    if n < 1 || n > 5 {
        return Err(SetupError::PlayerCount);
    }
    let order = shuffled_territories(g);
    deal_in_order(&order, players);
    assert(is_deal_order(order@, territory_count(*g)));
    Ok(())
}

/// Sets up a game on the map: checks that there are one to five players,
/// deals the territories round-robin in a random order, and spreads each
/// player's starting pool evenly over its territories. With a wrong number
/// of players nothing changes.
pub fn assign_territories_and_armies_to_players(
    g: &UnGraph<&'static str, ()>,
    players: &mut Vec<Player>,
) -> (r: Result<(), SetupError>)
    requires
        territory_count(*g) <= u32::MAX,
        1 <= old(players)@.len() <= 5 ==> old(players)@.len() <= territory_count(*g),
        forall|i: int|
            0 <= i < old(players)@.len() ==> (#[trigger] old(players)@[i]).army_per_territory@
                == Map::<u32, u32>::empty(),
    ensures
        r is Err <==> !(1 <= old(players)@.len() <= 5),
        r is Err ==> final(players)@ == old(players)@,
        r is Ok ==> exists|order: Seq<u32>|
            #![trigger is_deal_order(order, territory_count(*g))]
            is_deal_order(order, territory_count(*g)) && allocated(
                old(players)@,
                final(players)@,
                order,
            ),
{
    let n = players.len();
    if n < 1 || n > 5 {
        return Err(SetupError::PlayerCount);
    }
    let order = shuffled_territories(g);
    allocate_in_order(&order, players);
    assert(is_deal_order(order@, territory_count(*g)));
    Ok(())
}

/// How far placing the starting armies by hand has come: whose turn it is
/// and how many of that player's pool are placed.
#[derive(Clone, Copy, Debug, PartialEq, Eq, Structural)]
pub struct ManualPlacement {
    pub player: usize,
    pub placed: u32,
}

/// Why a nomination of a territory for an army was refused.
#[derive(Clone, Copy, Debug, PartialEq, Eq, Structural)]
pub enum PlacementError {
    /// The nominating player does not own the territory.
    NotOwned,
}

impl ManualPlacement {
    /// Placement by hand starts with the first player, nothing placed.
    pub fn new() -> (p: ManualPlacement)
        ensures
            p.player == 0,
            p.placed == 0,
    {
        ManualPlacement { player: 0, placed: 0 }
    }

    /// Every player of a game of `n` players has placed its pool.
    pub fn is_complete(&self, n: usize) -> (r: bool)
        ensures
            r == (self.player >= n),
    {
        self.player >= n
    }
}

/// One army of the current player's pool went onto `territory`, and the
/// turn passed to the next player once that pool was placed.
pub open spec fn manual_step(
    old_ps: Seq<Player>,
    ps: Seq<Player>,
    old_progress: ManualPlacement,
    progress: ManualPlacement,
    territory: u32,
) -> bool {
    let p = old_progress.player as int;
    let m = old_ps[p].army_per_territory@;
    &&& crate::ledger::others_unchanged(old_ps, ps, p)
    &&& m.contains_key(territory)
    &&& m[territory] < u32::MAX
    &&& ps[p].army_per_territory@ == m.insert(territory, (m[territory] + 1) as u32)
    &&& if old_progress.placed + 1 == starting_armies(old_ps.len() as int) {
        progress.player == p + 1 && progress.placed == 0
    } else {
        progress.player == p && progress.placed == old_progress.placed + 1
    }
}

proof fn lemma_players_total_change(ps0: Seq<Player>, ps1: Seq<Player>, p: int, delta: int)
    requires
        ps0.len() == ps1.len(),
        0 <= p < ps0.len(),
        forall|j: int| 0 <= j < ps0.len() && j != p ==> #[trigger] ps1[j] == ps0[j],
        army_total(ps1[p].army_per_territory@) == army_total(ps0[p].army_per_territory@) + delta,
    ensures
        players_total(ps1) == players_total(ps0) + delta,
    decreases ps0.len(),
{
    let last = ps0.len() - 1;
    if p == last {
        assert(ps0.drop_last() =~= ps1.drop_last());
    } else {
        assert(ps1[last] == ps0[last]);
        assert forall|j: int| 0 <= j < ps0.drop_last().len() && j != p implies #[trigger] ps1.drop_last()[j]
            == ps0.drop_last()[j] by {
            assert(ps1[j] == ps0[j]);
        }
        lemma_players_total_change(ps0.drop_last(), ps1.drop_last(), p, delta);
    }
}

/// Placing by hand keeps the total of all armies at the pools of the players
/// already done plus what the current player has placed: a session that
/// starts on an empty deal at the first player and runs until every player
/// is done leaves `starting_armies(n) * n` armies in all.
pub proof fn law_manual_placement_total(
    ps0: Seq<Player>,
    ps1: Seq<Player>,
    progress0: ManualPlacement,
    progress1: ManualPlacement,
    territory: u32,
)
    requires
        progress0.player < ps0.len(),
        manual_step(ps0, ps1, progress0, progress1, territory),
        players_total(ps0) == starting_armies(ps0.len() as int) * progress0.player
            + progress0.placed,
    ensures
        players_total(ps1) == starting_armies(ps1.len() as int) * progress1.player
            + progress1.placed,
        progress1.player <= ps1.len(),
{
    let p = progress0.player as int;
    let m = ps0[p].army_per_territory@;
    let pool = starting_armies(ps0.len() as int);
    crate::ledger::lemma_total_insert(m, territory, (m[territory] + 1) as u32);
    lemma_players_total_change(ps0, ps1, p, 1);
    assert(pool * (p + 1) == pool * p + pool) by (nonlinear_arith);
}

/// Where a placement by hand stands: every player before the current one
/// holds exactly its pool, the current one holds what it has placed, and
/// the players after it hold nothing yet.
pub open spec fn session_holds(ps: Seq<Player>, progress: ManualPlacement) -> bool {
    let pool = starting_armies(ps.len() as int);
    &&& progress.player <= ps.len()
    &&& forall|i: int|
        0 <= i < ps.len() ==> army_total(#[trigger] ps[i].army_per_territory@) == if i
            < progress.player {
            pool
        } else if i == progress.player {
            progress.placed as int
        } else {
            0
        }
}

/// A placement by hand starts right after the deal, at the first player with
/// nothing placed.
pub proof fn law_manual_session_start(old_ps: Seq<Player>, ps: Seq<Player>, order: Seq<u32>)
    requires
        dealt_out(old_ps, ps, order),
    ensures
        session_holds(ps, ManualPlacement { player: 0, placed: 0 }),
{
}

/// Each accepted nomination keeps the session where it should be; so once
/// every player is done (`is_complete`), each player holds exactly its
/// starting pool, `starting_armies(n)`.
pub proof fn law_manual_session_step(
    ps0: Seq<Player>,
    ps1: Seq<Player>,
    progress0: ManualPlacement,
    progress1: ManualPlacement,
    territory: u32,
)
    requires
        progress0.player < ps0.len(),
        session_holds(ps0, progress0),
        manual_step(ps0, ps1, progress0, progress1, territory),
    ensures
        session_holds(ps1, progress1),
        progress1.player == ps1.len() ==> forall|i: int|
            0 <= i < ps1.len() ==> army_total(#[trigger] ps1[i].army_per_territory@)
                == starting_armies(ps1.len() as int),
{
    let p = progress0.player as int;
    let m = ps0[p].army_per_territory@;
    crate::ledger::lemma_total_insert(m, territory, (m[territory] + 1) as u32);
    assert forall|i: int| 0 <= i < ps1.len() && i != p implies #[trigger] ps1[i] == ps0[i] by {}
}

/// The current player of a placement by hand puts one army on `territory`.
/// A territory the player does not own is refused and nothing changes. Once
/// the player's pool is placed, the next player's turn begins.
pub fn place_manual_army(
    players: &mut Vec<Player>,
    progress: &mut ManualPlacement,
    territory: u32,
) -> (r: Result<(), PlacementError>)
    requires
        old(progress).player < old(players)@.len(),
        old(progress).placed < starting_armies(old(players)@.len() as int),
        forall|t: u32| #[trigger]
            old(players)@[old(progress).player as int].army_per_territory@.contains_key(t)
                ==> old(players)@[old(progress).player as int].army_per_territory@[t] < u32::MAX,
    ensures
        old(players)@[old(progress).player as int].army_per_territory@.contains_key(territory)
            <==> r is Ok,
        r is Err ==> final(players)@ == old(players)@ && *final(progress) == *old(progress),
        r is Ok ==> manual_step(
            old(players)@,
            final(players)@,
            *old(progress),
            *final(progress),
            territory,
        ),
{
    let p = progress.player;
    let armies: u32 = match players[p].army_per_territory.get(&territory) {
        Some(a) => *a,
        None => {
            return Err(PlacementError::NotOwned);
        },
    };
    set_armies(players, p, territory, armies + 1);
    let pool = armies_per_player(players.len());
    if progress.placed + 1 == pool {
        progress.player = p + 1;
        progress.placed = 0;
    } else {
        progress.placed = progress.placed + 1;
    }
    Ok(())
}

} // verus!
