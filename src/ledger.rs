//! Players and their ownership ledgers: which territories a player holds and
//! how many armies stand on each.
use vstd::prelude::*;
use std::collections::HashMap;
use vstd::std_specs::iter::IteratorSpec;

verus! {

broadcast use vstd::std_specs::hash::group_hash_axioms;

/// A player's display color, drawn from a fixed palette of five.
#[derive(Clone, Copy, Debug, PartialEq, Eq, Structural)]
pub enum Color {
    Red,
    Blue,
    Green,
    Yellow,
    Indigo,
}

/// A player: a name, a color, and the ledger mapping each owned territory's
/// index to its army count.
#[derive(Debug)]
pub struct Player {
    pub name: String,
    pub color: Color,
    pub army_per_territory: HashMap<u32, u32>,
}

/// The sum of the army counts of a ledger.
pub open spec fn army_total(m: Map<u32, u32>) -> int
    decreases m.dom().len(),
    when m.dom().finite()
{
    if m.dom().len() == 0 {
        0
    } else {
        let k = m.dom().choose();
        m[k] + army_total(m.remove(k))
    }
}

/// Any entry can be taken out of the total first.
pub proof fn lemma_total_remove(m: Map<u32, u32>, k: u32)
    requires
        m.dom().finite(),
        m.contains_key(k),
    ensures
        army_total(m) == m[k] + army_total(m.remove(k)),
    decreases m.dom().len(),
{
    assert(m.dom().contains(k));
    let c = m.dom().choose();
    if c != k {
        assert(m.remove(c).contains_key(k));
        lemma_total_remove(m.remove(c), k);
        assert(m.remove(k).contains_key(c));
        lemma_total_remove(m.remove(k), c);
        assert(m.remove(c).remove(k) =~= m.remove(k).remove(c));
    }
}

/// Setting the count of one territory changes the total by the difference.
pub proof fn lemma_total_insert(m: Map<u32, u32>, k: u32, v: u32)
    requires
        m.dom().finite(),
    ensures
        m.contains_key(k) ==> army_total(m.insert(k, v)) == army_total(m) - m[k] + v,
        !m.contains_key(k) ==> army_total(m.insert(k, v)) == army_total(m) + v,
{
    let n = m.insert(k, v);
    lemma_total_remove(n, k);
    if m.contains_key(k) {
        lemma_total_remove(m, k);
        assert(n.remove(k) =~= m.remove(k));
    } else {
        assert(n.remove(k) =~= m);
    }
}

/// Every count of a ledger is at least one.
pub open spec fn all_positive(m: Map<u32, u32>) -> bool {
    forall|t: u32| m.contains_key(t) ==> #[trigger] m[t] >= 1
}

impl Player {
    /// A player with the given name and color, owning nothing yet.
    pub fn new(name: String, color: Color) -> (p: Player)
        ensures
            p.name@ == name@,
            p.color == color,
            p.army_per_territory@ == Map::<u32, u32>::empty(),
    {
        Player { name, color, army_per_territory: HashMap::new() }
    }
}

/// The territories of a ledger, each once, in the ledger's iteration order.
pub fn owned_territories(m: &HashMap<u32, u32>) -> (r: Vec<u32>)
    ensures
        r@.to_set() == m@.dom(),
        r@.no_duplicates(),
        r@.len() == m@.dom().len(),
{
    let ghost keys = vstd::std_specs::hash::spec_keys_iter(m).remaining();
    let mut r: Vec<u32> = Vec::new();
    for k in it: m.keys()
        invariant
            it.seq() == keys,
            r@.len() == it.index(),
            forall|i: int| 0 <= i < it.index() ==> r@[i] == *keys[i],
        ensures
            r@.len() == keys.len(),
            forall|i: int| 0 <= i < keys.len() ==> r@[i] == *keys[i],
    {
        r.push(*k);
    }
    assert(r@ =~= keys.unref());
    assert(keys.unref().no_duplicates());
    r
}

/// Each territory of `m` received `share` or `share + 1` armies over `old_m`.
pub open spec fn spread_over(old_m: Map<u32, u32>, m: Map<u32, u32>, share: int) -> bool {
    forall|t: u32|
        #[trigger] m.contains_key(t) ==> m[t] == old_m[t] + share || m[t] == old_m[t] + share + 1
}

/// Places `count` armies on the territories of a ledger one at a time,
/// round-robin in the ledger's iteration order, until none is left: every
/// territory receives `count / k` or one more, where `k` is the number of
/// territories, and the total grows by exactly `count`.
pub fn distribute_evenly(m: &mut HashMap<u32, u32>, count: u32)
    requires
        old(m)@.dom().len() >= 1,
        forall|t: u32| #[trigger] old(m)@.contains_key(t) ==> old(m)@[t] + count <= u32::MAX,
    ensures
        final(m)@.dom() == old(m)@.dom(),
        army_total(final(m)@) == army_total(old(m)@) + count,
        spread_over(old(m)@, final(m)@, count as int / old(m)@.dom().len() as int),
{
    let ghost m0 = m@;
    let keys = owned_territories(m);
    let k: usize = keys.len();
    let share: u64 = count as u64 / k as u64;
    let rest: u64 = count as u64 % k as u64;
    proof {
        vstd::arithmetic::div_mod::lemma_fundamental_div_mod(count as int, k as int);
        vstd::arithmetic::div_mod::lemma_mod_bound(count as int, k as int);
        assert(share * k + rest == count) by (nonlinear_arith)
            requires
                count as int == k as int * (count as int / k as int) + count as int % k as int,
                share as int == count as int / k as int,
                rest as int == count as int % k as int,
        ;
        assert(share <= count) by (nonlinear_arith)
            requires
                share * k + rest == count,
                k >= 1,
                rest >= 0,
                share >= 0,
        ;
        assert(rest > 0 ==> share + 1 <= count) by (nonlinear_arith)
            requires
                share * k + rest == count,
                k >= 1,
                rest >= 0,
                share >= 0,
        ;
    }
    let mut i: usize = 0;
    while i < k
        invariant
            0 <= i <= k,
            k == keys@.len(),
            k == m0.dom().len(),
            keys@.to_set() == m0.dom(),
            keys@.no_duplicates(),
            m0.dom().finite(),
            share * k + rest == count,
            rest < k,
            share as int == count as int / k as int,
            share <= count,
            rest > 0 ==> share + 1 <= count,
            forall|t: u32| #[trigger] m0.contains_key(t) ==> m0[t] + count <= u32::MAX,
            m@.dom() == m0.dom(),
            forall|j: int|
                0 <= j < i ==> m@[#[trigger] keys@[j]] == m0[keys@[j]] + share + (if j < rest {
                    1int
                } else {
                    0int
                }),
            forall|j: int| i <= j < k ==> m@[#[trigger] keys@[j]] == m0[keys@[j]],
            army_total(m@) == army_total(m0) + share * i + (if i < rest {
                i as int
            } else {
                rest as int
            }),
        decreases k - i,
    {
        let t = keys[i];
        assert(keys@.to_set().contains(t));
        assert(m@.contains_key(t));
        let v: u32 = *m.get(&t).unwrap();
        let extra: u64 = if (i as u64) < rest {
            1
        } else {
            0
        };
        let nv: u32 = (v as u64 + share + extra) as u32;
        proof {
            lemma_total_insert(m@, t, nv);
            assert(share * (i + 1) == share * i + share) by (nonlinear_arith);
            assert forall|j: int| 0 <= j < k && j != i implies keys@[j] != t by {
                assert(keys@[j] != keys@[i as int]);
            }
        }
        m.insert(t, nv);
        i = i + 1;
    }
    proof {
        assert forall|t: u32| #[trigger] m@.contains_key(t) implies m@[t] == m0[t] + share || m@[t]
            == m0[t] + share + 1 by {
            assert(keys@.to_set().contains(t));
            let j = keys@.index_of(t);
        }
    }
}

/// Every player other than `i` is unchanged, and player `i` keeps its name and color.
pub open spec fn others_unchanged(old_ps: Seq<Player>, ps: Seq<Player>, i: int) -> bool {
    &&& ps.len() == old_ps.len()
    &&& ps[i].name == old_ps[i].name
    &&& ps[i].color == old_ps[i].color
    &&& forall|j: int| 0 <= j < ps.len() && j != i ==> #[trigger] ps[j] == old_ps[j]
}

/// Sets the army count of territory `t` in the ledger of player `i`.
pub fn set_armies(players: &mut Vec<Player>, i: usize, t: u32, armies: u32)
    requires
        i < old(players).len(),
    ensures
        others_unchanged(old(players)@, final(players)@, i as int),
        final(players)@[i as int].army_per_territory@ == old(
            players,
        )@[i as int].army_per_territory@.insert(t, armies),
{
    players[i].army_per_territory.insert(t, armies);
}

/// Takes territory `t` out of the ledger of player `i`.
pub fn remove_territory(players: &mut Vec<Player>, i: usize, t: u32)
    requires
        i < old(players).len(),
    ensures
        others_unchanged(old(players)@, final(players)@, i as int),
        final(players)@[i as int].army_per_territory@ == old(
            players,
        )@[i as int].army_per_territory@.remove(t),
{
    players[i].army_per_territory.remove(&t);
}

} // verus!
