//! Dice combat: force sizing, dice rolls, pairwise comparison of the sorted
//! dice, casualties, conquest and the transfer of armies into a conquered
//! territory.
use vstd::prelude::*;
use rand::Rng;
use petgraph::graph::UnGraph;
use crate::ledger::{
    Player, army_total, all_positive, set_armies, remove_territory, lemma_total_insert,
    lemma_total_remove,
};
use crate::world::{adjacent, neighbor_list};

verus! {

/// The most armies an attack from a territory holding `armies` may commit:
/// one must stay behind, and at most three attack.
pub open spec fn attack_force(armies: int) -> int {
    if armies - 1 < 3 {
        armies - 1
    } else {
        3
    }
}

/// The most armies a territory holding `armies` defends with: at most two.
pub open spec fn defense_force(armies: int) -> int {
    if armies < 2 {
        armies
    } else {
        2
    }
}

/// The dice of `s` are in descending order.
pub open spec fn is_descending(s: Seq<u8>) -> bool {
    forall|i: int, j: int| 0 <= i < j < s.len() ==> s[i] >= s[j]
}

/// The dice of `s`, highest first: the descending sequence holding the same
/// dice (there is exactly one, see `lemma_descending_unique`).
pub open spec fn sort_desc(s: Seq<u8>) -> Seq<u8> {
    choose|r: Seq<u8>| r.to_multiset() == s.to_multiset() && is_descending(r)
}

/// How many of the first `n` pairs of two sorted dice lists the attacker
/// wins: a pair is won only by a strictly higher die, so ties go to the
/// defender.
pub open spec fn pair_wins(a: Seq<u8>, d: Seq<u8>, n: int) -> int
    decreases n,
{
    if n <= 0 {
        0
    } else {
        pair_wins(a, d, n - 1) + (if a[n - 1] > d[n - 1] {
            1int
        } else {
            0int
        })
    }
}

/// The pairs of an attack with these dice that the attacker wins.
pub open spec fn attacker_wins(attack: Seq<u8>, defend: Seq<u8>) -> int {
    let n = if attack.len() < defend.len() {
        attack.len()
    } else {
        defend.len()
    };
    pair_wins(sort_desc(attack), sort_desc(defend), n as int)
}

/// Two descending sequences holding the same dice are equal.
pub proof fn lemma_descending_unique(a: Seq<u8>, b: Seq<u8>)
    requires
        is_descending(a),
        is_descending(b),
        a.to_multiset() == b.to_multiset(),
    ensures
        a == b,
    decreases a.len(),
{
    broadcast use vstd::seq_lib::group_to_multiset_ensures;

    assert(a.len() == b.len()) by {
        vstd::seq_lib::to_multiset_len(a);
        vstd::seq_lib::to_multiset_len(b);
    }
    if a.len() == 0 {
        assert(a =~= b);
    } else {
        assert(a.contains(a[0]));
        assert(b.to_multiset().contains(a[0]));
        assert(b.contains(a[0]));
        let k = b.index_of(a[0]);
        assert(b[0] >= b[k]);
        assert(b.contains(b[0]));
        assert(a.to_multiset().contains(b[0]));
        assert(a.contains(b[0]));
        let l = a.index_of(b[0]);
        assert(a[0] >= a[l]);
        assert(a[0] == b[0]);
        vstd::seq_lib::to_multiset_remove(a, 0);
        vstd::seq_lib::to_multiset_remove(b, 0);
        assert(a.remove(0) =~= a.drop_first());
        assert(b.remove(0) =~= b.drop_first());
        lemma_descending_unique(a.drop_first(), b.drop_first());
        assert(a =~= seq![a[0]] + a.drop_first());
        assert(b =~= seq![b[0]] + b.drop_first());
    }
}

/// The dice of `v`, sorted highest first.
pub fn sorted_descending(v: &Vec<u8>) -> (r: Vec<u8>)
    ensures
        r@ == sort_desc(v@),
        r@.to_multiset() == v@.to_multiset(),
        is_descending(r@),
        r@.len() == v@.len(),
{
    broadcast use vstd::seq_lib::group_to_multiset_ensures;

    let mut r: Vec<u8> = Vec::new();
    let mut i: usize = 0;
    while i < v.len()
        invariant
            0 <= i <= v@.len(),
            r@.to_multiset() == v@.take(i as int).to_multiset(),
            is_descending(r@),
            r@.len() == i,
        decreases v@.len() - i,
    {
        let x = v[i];
        let mut j: usize = 0;
        while j < r.len() && r[j] > x
            invariant
                0 <= j <= r@.len(),
                forall|k: int| 0 <= k < j ==> r@[k] > x,
            decreases r@.len() - j,
        {
            j = j + 1;
        }
        let ghost before = r@;
        r.insert(j, x);
        proof {
            assert(v@.take(i as int + 1) =~= v@.take(i as int).push(x));
            vstd::seq_lib::to_multiset_insert(before, j as int, x);
            vstd::seq_lib::to_multiset_build(v@.take(i as int), x);
            assert(r@ == before.insert(j as int, x));
            assert forall|a: int, b: int| 0 <= a < b < r@.len() implies r@[a] >= r@[b] by {
                if b < j {
                    assert(r@[a] == before[a] && r@[b] == before[b]);
                } else if b == j {
                    assert(r@[a] == before[a]);
                } else if a == j {
                    assert(r@[b] == before[b - 1]);
                    assert(before[j as int] <= x);
                    assert(before[j as int] >= before[b - 1]);
                } else if a < j {
                    assert(r@[a] == before[a] && r@[b] == before[b - 1]);
                    assert(before[a] > x);
                } else {
                    assert(r@[a] == before[a - 1] && r@[b] == before[b - 1]);
                }
            }
        }
        i = i + 1;
    }
    assert(v@.take(v@.len() as int) =~= v@);
    proof {
        let s = sort_desc(v@);
        assert(s.to_multiset() == v@.to_multiset() && is_descending(s));
        lemma_descending_unique(r@, s);
    }
    r
}

/// Relies on rand's `Rng::gen_range` over `1..=6` with the thread-local
/// generator: a die value between 1 and 6.
#[verifier::external_body]
fn roll_die() -> (r: u8)
    ensures
        1 <= r <= 6,
{
    rand::thread_rng().gen_range(1..=6)
}

/// Rolls `n` independent dice.
pub fn roll_dice(n: u32) -> (r: Vec<u8>)
    ensures
        r@.len() == n,
        forall|i: int| 0 <= i < n ==> 1 <= #[trigger] r@[i] <= 6,
{
    let mut r: Vec<u8> = Vec::new();
    let mut i: u32 = 0;
    while i < n
        invariant
            i <= n,
            r@.len() == i,
            forall|k: int| 0 <= k < i ==> 1 <= #[trigger] r@[k] <= 6,
        decreases n - i,
    {
        r.push(roll_die());
        i = i + 1;
    }
    r
}

/// Counts the pairs that the attacker wins among the first `n` pairs of two
/// sorted dice lists.
fn count_wins(a: &Vec<u8>, d: &Vec<u8>, n: usize) -> (r: u32)
    requires
        n <= a@.len(),
        n <= d@.len(),
        n <= 3,
    ensures
        r == pair_wins(a@, d@, n as int),
        r <= n,
{
    let mut w: u32 = 0;
    let mut i: usize = 0;
    while i < n
        invariant
            i <= n,
            n <= a@.len(),
            n <= d@.len(),
            n <= 3,
            w == pair_wins(a@, d@, i as int),
            w <= i,
        decreases n - i,
    {
        if a[i] > d[i] {
            w = w + 1;
        }
        i = i + 1;
    }
    w
}

/// What one round of an attack did.
#[derive(Clone, Copy, Debug, PartialEq, Eq, Structural)]
pub struct AttackOutcome {
    /// Armies the attacker committed (its number of dice).
    pub attacking_force: u32,
    /// Armies the defender committed (its number of dice).
    pub defending_force: u32,
    /// Armies the source territory lost.
    pub attacker_losses: u32,
    /// Armies the target territory lost.
    pub defender_losses: u32,
    /// The target fell and now belongs to the attacker.
    pub conquered: bool,
    /// This source and target pair cannot go on: the target fell, or one army
    /// is left at the source.
    pub finished: bool,
    /// On conquest, the fewest armies that may stand in the conquered territory.
    pub min_move: u32,
    /// On conquest, the most armies that may stand in the conquered territory.
    pub max_move: u32,
}

/// Why an attack request was refused before any die was rolled.
#[derive(Clone, Copy, Debug, PartialEq, Eq, Structural)]
pub enum AttackError {
    /// The attacker does not own the source territory.
    SourceNotOwned,
    /// The source territory holds fewer than two armies.
    TooFewArmies,
    /// The attacker already owns the target territory.
    TargetOwned,
    /// The target does not border the source.
    NotAdjacent,
    /// The target does not belong to the named defender.
    TargetNotDefenders,
}

/// Why a transfer into a conquered territory was refused.
#[derive(Clone, Copy, Debug, PartialEq, Eq, Structural)]
pub enum TransferError {
    /// The amount lies outside the bounds that the conquest set.
    OutOfRange,
}

/// The number of dice pairs compared in an attack.
pub open spec fn pair_count(attacking_force: int, defending_force: int) -> int {
    if attacking_force < defending_force {
        attacking_force
    } else {
        defending_force
    }
}

/// Both players exist and differ, the attacker holds the source with at least
/// two armies and not the target, and the defender holds the target (an
/// empty target falls without a die being compared).
pub open spec fn attack_ready(
    ps: Seq<Player>,
    attacker: int,
    defender: int,
    source: u32,
    target: u32,
) -> bool {
    &&& 0 <= attacker < ps.len()
    &&& 0 <= defender < ps.len()
    &&& attacker != defender
    &&& ps[attacker].army_per_territory@.contains_key(source)
    &&& ps[attacker].army_per_territory@[source] >= 2
    &&& !ps[attacker].army_per_territory@.contains_key(target)
    &&& ps[defender].army_per_territory@.contains_key(target)
}

/// The ledgers `ps` are those of `old_ps` after an attack round with outcome
/// `r`: casualties come off the source and the target; a target left empty
/// leaves the defender's ledger and enters the attacker's with the committed
/// armies, which leave the source.
pub open spec fn attack_applied(
    old_ps: Seq<Player>,
    ps: Seq<Player>,
    attacker: int,
    defender: int,
    source: u32,
    target: u32,
    r: AttackOutcome,
) -> bool {
    let a0 = old_ps[attacker].army_per_territory@;
    let d0 = old_ps[defender].army_per_territory@;
    let a1 = ps[attacker].army_per_territory@;
    let d1 = ps[defender].army_per_territory@;
    let source_left = a0[source] - r.attacker_losses;
    &&& ps.len() == old_ps.len()
    &&& ps[attacker].name == old_ps[attacker].name
    &&& ps[attacker].color == old_ps[attacker].color
    &&& ps[defender].name == old_ps[defender].name
    &&& ps[defender].color == old_ps[defender].color
    &&& forall|j: int|
        0 <= j < ps.len() && j != attacker && j != defender ==> #[trigger] ps[j] == old_ps[j]
    &&& r.attacking_force == attack_force(a0[source] as int)
    &&& r.defending_force == defense_force(d0[target] as int)
    &&& r.attacker_losses + r.defender_losses == pair_count(
        r.attacking_force as int,
        r.defending_force as int,
    )
    &&& r.conquered == (d0[target] == r.defender_losses)
    &&& r.finished == (r.conquered || source_left == 1)
    &&& if r.conquered {
        &&& d1 == d0.remove(target)
        &&& a1 == a0.insert(source, (source_left - r.attacking_force) as u32).insert(
            target,
            r.attacking_force,
        )
        &&& r.min_move == r.attacking_force
        &&& r.max_move == source_left - 1
    } else {
        &&& d1 == d0.insert(target, (d0[target] - r.defender_losses) as u32)
        &&& a1 == a0.insert(source, source_left as u32)
    }
}

/// Every player's ledger holds only positive counts.
pub open spec fn ledgers_positive(ps: Seq<Player>) -> bool {
    forall|i: int| 0 <= i < ps.len() ==> all_positive(#[trigger] ps[i].army_per_territory@)
}

/// Resolves one round of an attack from `source` (held by `attacker`) on
/// `target` (held by `defender`) with the given dice: both lists are sorted
/// highest first and compared pair by pair; each pair costs its loser one
/// army, ties going to the defender. A target left with no army is conquered.
pub fn resolve_attack(
    players: &mut Vec<Player>,
    attacker: usize,
    defender: usize,
    source: u32,
    target: u32,
    attack_rolls: &Vec<u8>,
    defend_rolls: &Vec<u8>,
) -> (r: AttackOutcome)
    requires
        attack_ready(old(players)@, attacker as int, defender as int, source, target),
        attack_rolls@.len() == attack_force(
            old(players)@[attacker as int].army_per_territory@[source] as int,
        ),
        defend_rolls@.len() == defense_force(
            old(players)@[defender as int].army_per_territory@[target] as int,
        ),
    ensures
        attack_applied(
            old(players)@,
            final(players)@,
            attacker as int,
            defender as int,
            source,
            target,
            r,
        ),
        r.defender_losses == attacker_wins(attack_rolls@, defend_rolls@),
        army_total(final(players)@[attacker as int].army_per_territory@) + army_total(
            final(players)@[defender as int].army_per_territory@,
        ) == army_total(old(players)@[attacker as int].army_per_territory@) + army_total(
            old(players)@[defender as int].army_per_territory@,
        ) - pair_count(r.attacking_force as int, r.defending_force as int),
        all_positive(old(players)@[attacker as int].army_per_territory@) ==> all_positive(
            final(players)@[attacker as int].army_per_territory@,
        ),
        all_positive(old(players)@[defender as int].army_per_territory@) ==> all_positive(
            final(players)@[defender as int].army_per_territory@,
        ),
{
    let ghost ps0 = players@;
    let ghost a0 = players@[attacker as int].army_per_territory@;
    let ghost d0 = players@[defender as int].army_per_territory@;
    let source_armies: u32 = *players[attacker].army_per_territory.get(&source).unwrap();
    let target_armies: u32 = *players[defender].army_per_territory.get(&target).unwrap();
    let attacking_force: u32 = if source_armies - 1 < 3 {
        source_armies - 1
    } else {
        3
    };
    let defending_force: u32 = if target_armies < 2 {
        target_armies
    } else {
        2
    };
    let sorted_attack = sorted_descending(attack_rolls);
    let sorted_defence = sorted_descending(defend_rolls);
    let n: usize = if attacking_force < defending_force {
        attacking_force as usize
    } else {
        defending_force as usize
    };
    let wins = count_wins(&sorted_attack, &sorted_defence, n);
    let losses: u32 = n as u32 - wins;
    let source_left: u32 = source_armies - losses;
    let target_left: u32 = target_armies - wins;
    let conquered = target_left == 0;
    proof {
        lemma_total_insert(a0, source, source_left);
    }
    if conquered {
        let stay: u32 = source_left - attacking_force;
        proof {
            lemma_total_remove(d0, target);
            lemma_total_insert(a0, source, stay);
            lemma_total_insert(a0.insert(source, stay), target, attacking_force);
        }
        remove_territory(players, defender, target);
        set_armies(players, attacker, source, stay);
        set_armies(players, attacker, target, attacking_force);
    } else {
        proof {
            lemma_total_insert(d0, target, target_left);
        }
        set_armies(players, defender, target, target_left);
        set_armies(players, attacker, source, source_left);
    }
    let (min_move, max_move): (u32, u32) = if conquered {
        (attacking_force, source_left - 1)
    } else {
        (0, 0)
    };
    AttackOutcome {
        attacking_force,
        defending_force,
        attacker_losses: losses,
        defender_losses: wins,
        conquered,
        finished: conquered || source_left == 1,
        min_move,
        max_move,
    }
}

/// Whether `a` and `b` share a border on the map.
pub fn is_adjacent(g: &UnGraph<&'static str, ()>, a: u32, b: u32) -> (r: bool)
    ensures
        r == adjacent(*g, a, b),
{
    let neighbors = neighbor_list(g, a);
    let mut i: usize = 0;
    while i < neighbors.len()
        invariant
            0 <= i <= neighbors@.len(),
            forall|c: u32| neighbors@.contains(c) <==> adjacent(*g, a, c),
            forall|k: int| 0 <= k < i ==> neighbors@[k] != b,
        decreases neighbors@.len() - i,
    {
        if neighbors[i] == b {
            assert(neighbors@.contains(b));
            return true;
        }
        i = i + 1;
    }
    false
}

/// Why an attack request is refused, if it is: the checks in order are the
/// source's owner, the source's armies, the target's owner being the
/// attacker, the border, and the target's owner being the defender.
pub open spec fn attack_rejection(
    g: UnGraph<&'static str, ()>,
    ps: Seq<Player>,
    attacker: int,
    defender: int,
    source: u32,
    target: u32,
) -> Option<AttackError> {
    let a = ps[attacker].army_per_territory@;
    if !a.contains_key(source) {
        Some(AttackError::SourceNotOwned)
    } else if a[source] < 2 {
        Some(AttackError::TooFewArmies)
    } else if a.contains_key(target) {
        Some(AttackError::TargetOwned)
    } else if !adjacent(g, source, target) {
        Some(AttackError::NotAdjacent)
    } else if !ps[defender].army_per_territory@.contains_key(target) {
        Some(AttackError::TargetNotDefenders)
    } else {
        None
    }
}

/// Performs one round of an attack with freshly rolled dice, each side
/// committing the most armies it may. A request that fails a check is
/// refused before any die is rolled and leaves every ledger as it was.
pub fn perform_attack(
    g: &UnGraph<&'static str, ()>,
    players: &mut Vec<Player>,
    attacker: usize,
    defender: usize,
    source: u32,
    target: u32,
) -> (r: Result<AttackOutcome, AttackError>)
    requires
        attacker < old(players)@.len(),
        defender < old(players)@.len(),
    ensures
        match r {
            Err(e) => {
                &&& attack_rejection(
                    *g,
                    old(players)@,
                    attacker as int,
                    defender as int,
                    source,
                    target,
                ) == Some(e)
                &&& final(players)@ == old(players)@
            },
            Ok(o) => {
                &&& attack_rejection(
                    *g,
                    old(players)@,
                    attacker as int,
                    defender as int,
                    source,
                    target,
                ) is None
                &&& attack_applied(
                    old(players)@,
                    final(players)@,
                    attacker as int,
                    defender as int,
                    source,
                    target,
                    o,
                )
                &&& o.defender_losses <= o.defending_force
                &&& army_total(final(players)@[attacker as int].army_per_territory@) + army_total(
                    final(players)@[defender as int].army_per_territory@,
                ) == army_total(old(players)@[attacker as int].army_per_territory@) + army_total(
                    old(players)@[defender as int].army_per_territory@,
                ) - pair_count(o.attacking_force as int, o.defending_force as int)
            },
        },
        ledgers_positive(old(players)@) ==> ledgers_positive(final(players)@),
{
    let ghost ps0 = players@;
    let source_armies: u32 = match players[attacker].army_per_territory.get(&source) {
        Some(armies) => *armies,
        None => {
            return Err(AttackError::SourceNotOwned);
        },
    };
    if source_armies < 2 {
        return Err(AttackError::TooFewArmies);
    }
    if players[attacker].army_per_territory.contains_key(&target) {
        return Err(AttackError::TargetOwned);
    }
    if !is_adjacent(g, source, target) {
        return Err(AttackError::NotAdjacent);
    }
    let target_armies: u32 = match players[defender].army_per_territory.get(&target) {
        Some(armies) => *armies,
        None => {
            return Err(AttackError::TargetNotDefenders);
        },
    };
    assert(attacker != defender);
    let attacking_force: u32 = if source_armies - 1 < 3 {
        source_armies - 1
    } else {
        3
    };
    let defending_force: u32 = if target_armies < 2 {
        target_armies
    } else {
        2
    };
    let attack_rolls = roll_dice(attacking_force);
    let defend_rolls = roll_dice(defending_force);
    let o = resolve_attack(
        players,
        attacker,
        defender,
        source,
        target,
        &attack_rolls,
        &defend_rolls,
    );
    proof {
        if ledgers_positive(ps0) {
            assert(all_positive(ps0[attacker as int].army_per_territory@));
            assert(all_positive(ps0[defender as int].army_per_territory@));
            assert forall|i: int| 0 <= i < players@.len() implies all_positive(
                #[trigger] players@[i].army_per_territory@,
            ) by {
                if i != attacker && i != defender {
                    assert(players@[i] == ps0[i]);
                    assert(all_positive(ps0[i].army_per_territory@));
                }
            }
        }
    }
    Ok(o)
}

/// The ledgers `ps` are those of `old_ps` after `m` armies were settled into
/// the territory that `o` conquered, the rest staying at the source.
pub open spec fn transfer_applied(
    old_ps: Seq<Player>,
    ps: Seq<Player>,
    attacker: int,
    source: u32,
    target: u32,
    o: AttackOutcome,
    m: u32,
) -> bool {
    &&& ps.len() == old_ps.len()
    &&& ps[attacker].name == old_ps[attacker].name
    &&& ps[attacker].color == old_ps[attacker].color
    &&& forall|j: int| 0 <= j < ps.len() && j != attacker ==> #[trigger] ps[j] == old_ps[j]
    &&& ps[attacker].army_per_territory@ == old_ps[attacker].army_per_territory@.insert(
        target,
        m,
    ).insert(source, (o.max_move + 1 - m) as u32)
}

/// After the conquest `o` of `target` from `source`, sets the armies standing
/// in the conquered territory to `m`, taking them from or returning them to
/// the source. `m` must lie between `o.min_move` and `o.max_move`; any other
/// amount is refused and nothing changes.
pub fn complete_conquest(
    players: &mut Vec<Player>,
    attacker: usize,
    source: u32,
    target: u32,
    o: &AttackOutcome,
    m: u32,
) -> (r: Result<(), TransferError>)
    requires
        attacker < old(players)@.len(),
        o.conquered,
        o.min_move <= o.max_move,
        source != target,
        old(players)@[attacker as int].army_per_territory@.contains_key(source),
        old(players)@[attacker as int].army_per_territory@.contains_key(target),
        old(players)@[attacker as int].army_per_territory@[target] == o.min_move,
        old(players)@[attacker as int].army_per_territory@[source] + o.min_move == o.max_move
            + 1,
    ensures
        r is Err <==> m < o.min_move || m > o.max_move,
        r is Err ==> final(players)@ == old(players)@,
        r is Ok ==> transfer_applied(
            old(players)@,
            final(players)@,
            attacker as int,
            source,
            target,
            *o,
            m,
        ),
        army_total(final(players)@[attacker as int].army_per_territory@) == army_total(
            old(players)@[attacker as int].army_per_territory@,
        ),
{
    if m < o.min_move || m > o.max_move {
        return Err(TransferError::OutOfRange);
    }
    let ghost a0 = players@[attacker as int].army_per_territory@;
    let stay: u32 = (o.max_move - m) + 1;
    proof {
        lemma_total_insert(a0, target, m);
        lemma_total_insert(a0.insert(target, m), source, stay);
    }
    set_armies(players, attacker, target, m);
    set_armies(players, attacker, source, stay);
    Ok(())
}

/// After a round that conquers the target and a transfer of `m` armies into
/// it, `m` lies between the committed force and the source's armies after
/// losses less one, the source keeps at least one army, and the conquered
/// territory holds exactly `m`.
pub proof fn law_conquest_transfer_bounds(
    ps0: Seq<Player>,
    ps1: Seq<Player>,
    ps2: Seq<Player>,
    attacker: int,
    defender: int,
    source: u32,
    target: u32,
    o: AttackOutcome,
    m: u32,
)
    requires
        attack_ready(ps0, attacker, defender, source, target),
        attack_applied(ps0, ps1, attacker, defender, source, target, o),
        o.conquered,
        o.min_move <= m <= o.max_move,
        transfer_applied(ps1, ps2, attacker, source, target, o, m),
    ensures
        o.attacking_force <= m <= ps0[attacker].army_per_territory@[source] - o.attacker_losses
            - 1,
        ps2[attacker].army_per_territory@.contains_key(source),
        ps2[attacker].army_per_territory@[source] >= 1,
        ps2[attacker].army_per_territory@.contains_key(target),
        ps2[attacker].army_per_territory@[target] == m,
{
}

} // verus!
