//! The score ledger: points per player handle, kept for the whole match,
//! and the rule by which a finished round pays into it.

use bevy::platform::collections::HashMap;
use bevy::platform::hash::FixedHasher;
use vstd::prelude::*;

verus! {

/// The hash map of bevy's platform collections. The verifier sees nothing
/// inside it; what it holds is named by `entries`.
#[verifier::external_type_specification]
#[verifier::external_body]
#[verifier::reject_recursive_types(K)]
#[verifier::reject_recursive_types(V)]
#[verifier::reject_recursive_types(S)]
pub struct ExHashMap<K, V, S>(HashMap<K, V, S>);

/// The hasher that bevy's hash map takes by default: one with a fixed
/// seed. It only occurs as a parameter of the map's type.
#[verifier::external_type_specification]
#[verifier::external_body]
pub struct ExFixedHasher(FixedHasher);

/// The entries that a hash map of scores holds, as a mathematical map from
/// handle to points. The wrappers below say what each call of the map does
/// to them.
pub uninterp spec fn entries(m: HashMap<usize, u32>) -> Map<usize, u32>;

/// The map without entries.
pub open spec fn blank() -> Map<usize, u32> {
    Map::empty()
}

/// `HashMap::new` of bevy's platform collections: the map it returns holds
/// no entry.
#[verifier::external_body]
fn map_new() -> (out: HashMap<usize, u32>)
    ensures
        entries(out) == blank(),
{
    HashMap::new()
}

/// `HashMap::clear`: afterwards the map holds no entry.
#[verifier::external_body]
fn map_clear(m: &mut HashMap<usize, u32>)
    ensures
        entries(*final(m)) == blank(),
{
    m.clear();
}

/// `HashMap::insert`: afterwards the entry for `k` is `v`, and every other
/// entry is as it was. What `insert` returns, the value it replaced, is
/// dropped.
#[verifier::external_body]
fn map_insert(m: &mut HashMap<usize, u32>, k: usize, v: u32)
    ensures
        entries(*final(m)) == entries(*old(m)).insert(k, v),
{
    m.insert(k, v);
}

/// `HashMap::get`: the points stored for `k`, or `None` where the map has
/// no entry for it.
#[verifier::external_body]
fn map_get(m: &HashMap<usize, u32>, k: usize) -> (r: Option<u32>)
    ensures
        r == (if entries(*m).contains_key(k) {
            Some(entries(*m)[k])
        } else {
            None
        }),
{
    m.get(&k).copied()
}

/// Points per player handle, one entry for each slot of the match.
pub struct Scores {
    slots: usize,
    points: HashMap<usize, u32>,
}

impl View for Scores {
    type V = Map<usize, u32>;

    closed spec fn view(&self) -> Map<usize, u32> {
        entries(self.points)
    }
}

/// `score + points`, or the largest `u32` where the sum does not fit.
pub open spec fn credited(score: u32, points: nat) -> u32 {
    if score + points > u32::MAX {
        u32::MAX
    } else {
        (score + points) as u32
    }
}

/// A ledger of `n` slots with no points yet.
pub open spec fn zeroed(n: nat) -> Map<usize, u32> {
    Map::new(|h: usize| (h as nat) < n, |h: usize| 0u32)
}

/// The ledger whose slots hold `points`, by handle in ascending order.
pub open spec fn listed(points: Seq<u32>) -> Map<usize, u32> {
    Map::new(|h: usize| (h as nat) < points.len(), |h: usize| points[h as int])
}

/// Points for the last player standing among `n`: `n - 1`.
pub open spec fn survivor_points(n: nat) -> nat {
    if n >= 1 {
        (n - 1) as nat
    } else {
        0
    }
}

/// Points for the player eliminated `later` places before the last
/// elimination, among `n` players: `n - 2` for the last one eliminated, one
/// less for each earlier one, never less than zero.
pub open spec fn placed_points(n: nat, later: nat) -> nat {
    if n >= 2 + later {
        (n - 2 - later) as nat
    } else {
        0
    }
}

/// Where `h` stands in the order of elimination.
pub open spec fn position(deaths: Seq<usize>, h: usize) -> int {
    choose|i: int| 0 <= i < deaths.len() && deaths[i] == h
}

/// Points that a finished round pays to `h`.
pub open spec fn round_points(
    n: nat,
    survivor: Option<usize>,
    deaths: Seq<usize>,
    h: usize,
) -> nat {
    if survivor == Some(h) {
        survivor_points(n)
    } else if deaths.contains(h) {
        placed_points(n, (deaths.len() - 1 - position(deaths, h)) as nat)
    } else {
        0
    }
}

/// The ledger after a finished round has paid out.
pub open spec fn settled(
    scores: Map<usize, u32>,
    n: nat,
    survivor: Option<usize>,
    deaths: Seq<usize>,
) -> Map<usize, u32> {
    Map::new(
        |h: usize| scores.contains_key(h),
        |h: usize| credited(scores[h], round_points(n, survivor, deaths, h)),
    )
}

/// Whether a round's outcome can be paid into a ledger of `slots` slots:
/// every handle named has a slot, nobody was eliminated twice, and the
/// survivor was not eliminated.
pub open spec fn payable(slots: nat, survivor: Option<usize>, deaths: Seq<usize>) -> bool {
    &&& deaths.no_duplicates()
    &&& forall|i: int| 0 <= i < deaths.len() ==> (#[trigger] deaths[i]) < slots
    &&& survivor matches Some(s) ==> (s as nat) < slots && !deaths.contains(s)
}

/// With nobody eliminated twice, a handle's position is the index at which
/// it stands.
pub proof fn lemma_position(deaths: Seq<usize>, i: int)
    requires
        deaths.no_duplicates(),
        0 <= i < deaths.len(),
    ensures
        deaths.contains(deaths[i]),
        position(deaths, deaths[i]) == i,
{
}

impl Scores {
    /// Number of slots the ledger has an entry for.
    pub closed spec fn slots(&self) -> nat {
        self.slots as nat
    }

    /// The ledger has an entry for each handle below its number of slots and
    /// for no other.
    pub open spec fn wf(&self) -> bool {
        forall|h: usize| self@.contains_key(h) <==> (h as nat) < self.slots()
    }

    /// A ledger without slots.
    pub fn new() -> (s: Scores)
        ensures
            s@ == blank(),
            s.slots() == 0,
            s.wf(),
    {
        Scores { slots: 0, points: map_new() }
    }

    /// A ledger with one slot for each entry of `points`, by handle in
    /// ascending order.
    pub fn from_points(points: &Vec<u32>) -> (s: Scores)
        ensures
            s@ == listed(points@),
            s.slots() == points@.len(),
            s.wf(),
    {
        let mut map = map_new();
        let mut h: usize = 0;
        while h < points.len()
            invariant
                h <= points.len(),
                entries(map) == listed(points@.take(h as int)),
            decreases points.len() - h,
        {
            map_insert(&mut map, h, points[h]);
            assert(entries(map) =~= listed(points@.take(h + 1)));
            h = h + 1;
        }
        assert(points@.take(h as int) =~= points@);
        Scores { slots: points.len(), points: map }
    }

    /// Drops every entry and gives each of `n` slots zero points.
    pub fn reset(&mut self, n: usize)
        ensures
            final(self)@ == zeroed(n as nat),
            final(self).slots() == n,
            final(self).wf(),
    {
        map_clear(&mut self.points);
        let mut h: usize = 0;
        while h < n
            invariant
                h <= n,
                entries(self.points) == zeroed(h as nat),
            decreases n - h,
        {
            map_insert(&mut self.points, h, 0);
            assert(entries(self.points) =~= zeroed((h + 1) as nat));
            h = h + 1;
        }
        self.slots = n;
    }

    /// Number of slots.
    pub fn len(&self) -> (n: usize)
        ensures
            n == self.slots(),
    {
        self.slots
    }

    /// The points of `handle`, or `None` where it has no slot.
    pub fn get(&self, handle: usize) -> (r: Option<u32>)
        ensures
            r == (if self@.contains_key(handle) {
                Some(self@[handle])
            } else {
                None
            }),
    {
        map_get(&self.points, handle)
    }

    /// Adds `points` to the score of `handle`.
    pub fn award(&mut self, handle: usize, points: u32)
        requires
            old(self).wf(),
            (handle as nat) < old(self).slots(),
        ensures
            final(self)@ == old(self)@.insert(handle, credited(old(self)@[handle], points as nat)),
            final(self).slots() == old(self).slots(),
            final(self).wf(),
    {
        let current: u32 = match map_get(&self.points, handle) {
            Some(v) => v,
            None => 0,
        };
        map_insert(&mut self.points, handle, current.saturating_add(points));
    }

    /// The points of all slots, by handle in ascending order.
    pub fn in_order(&self) -> (r: Vec<u32>)
        requires
            self.wf(),
        ensures
            r@.len() == self.slots(),
            forall|h: usize| (h as nat) < self.slots() ==> r@[h as int] == self@[h],
    {
        let mut out: Vec<u32> = Vec::new();
        let mut h: usize = 0;
        while h < self.slots
            invariant
                self.wf(),
                h <= self.slots,
                out@.len() == h,
                forall|k: usize| k < h ==> out@[k as int] == self@[k],
            decreases self.slots - h,
        {
            let v: u32 = match map_get(&self.points, h) {
                Some(v) => v,
                None => 0,
            };
            out.push(v);
            h = h + 1;
        }
        out
    }

    /// Pays out a finished round among `num_players`: `num_players - 1`
    /// points to the survivor, if there is one, then to the eliminated from
    /// the last to the first `num_players - 2` points, one less each, never
    /// less than zero.
    pub fn settle_round(&mut self, num_players: u32, survivor: Option<usize>, deaths: &Vec<usize>)
        requires
            old(self).wf(),
            payable(old(self).slots(), survivor, deaths@),
        ensures
            final(self)@ == settled(old(self)@, num_players as nat, survivor, deaths@),
            final(self).slots() == old(self).slots(),
            final(self).wf(),
    {
        let ghost before = self@;
        let ghost n = num_players as nat;
        match survivor {
            Some(s) => {
                self.award(s, num_players.saturating_sub(1));
            },
            None => {},
        }
        let mut add_score: u32 = num_players.saturating_sub(2);
        let mut i: usize = deaths.len();
        while i > 0
            invariant
                i <= deaths.len(),
                self.wf(),
                self.slots() == old(self).slots(),
                old(self).wf(),
                before == old(self)@,
                n == num_players as nat,
                payable(self.slots(), survivor, deaths@),
                add_score as nat == placed_points(n, (deaths.len() - i) as nat),
                forall|h: usize| self@.contains_key(h) <==> before.contains_key(h),
                forall|h: usize| #[trigger]
                    before.contains_key(h) ==> self@[h] == (if survivor == Some(h) {
                        credited(before[h], survivor_points(n))
                    } else if exists|j: int| i <= j < deaths.len() && deaths@[j] == h {
                        credited(before[h], round_points(n, survivor, deaths@, h))
                    } else {
                        before[h]
                    }),
            decreases i,
        {
            i = i - 1;
            let h: usize = deaths[i];
            let ghost mid = self@;
            proof {
                lemma_position(deaths@, i as int);
                assert(!(exists|j: int| i + 1 <= j < deaths.len() && deaths@[j] == h));
                assert(survivor != Some(h));
            }
            self.award(h, add_score);
            add_score = add_score.saturating_sub(1);
            proof {
                assert forall|k: usize| #[trigger]
                    before.contains_key(k) implies self@[k] == (if survivor == Some(k) {
                    credited(before[k], survivor_points(n))
                } else if exists|j: int| i <= j < deaths.len() && deaths@[j] == k {
                    credited(before[k], round_points(n, survivor, deaths@, k))
                } else {
                    before[k]
                }) by {
                    if k == h {
                    } else {
                        assert(self@[k] == mid[k]);
                        assert((exists|j: int| i <= j < deaths.len() && deaths@[j] == k) <==> (
                        exists|j: int| i + 1 <= j < deaths.len() && deaths@[j] == k));
                    }
                }
            }
        }
        proof {
            assert forall|h: usize| before.contains_key(h) implies self@[h] == credited(
                before[h],
                round_points(n, survivor, deaths@, h),
            ) by {
                if survivor != Some(h) && deaths@.contains(h) {
                    let j = position(deaths@, h);
                    assert(0 <= j < deaths.len() && deaths@[j] == h);
                }
            }
            assert(self@ =~= settled(before, n, survivor, deaths@));
        }
    }
}

} // verus!
