//! Entity/component storage with a deferred structural-command queue.
//!
//! Entities are opaque `u64` identifiers, allocated in ascending order and
//! never reused.  Queries read `entities`, which reflects the world as
//! committed at the start of the current tick; spawns and despawns issued
//! during a tick are buffered and applied atomically by `commit` at its
//! end, so no system observes a half-created or half-destroyed entity.
//! Iteration order — and with it every documented tie-break — is entity-id
//! ascending.

use vstd::prelude::*;

verus! {

use crate::components::Bullet;
use crate::components::Health;
use crate::components::Lifetime;
use crate::components::Player;
use crate::components::Target;
use crate::components::TargetDeathEvent;
use crate::components::Tower;
use crate::math::COORD_LIMIT;
use crate::math::Vec3Fix;

/// The set of components a single entity holds; absent components are
/// `None`.
#[derive(Clone, Copy)]
pub struct Components {
    pub position: Option<Vec3Fix>,
    pub tower: Option<Tower>,
    pub target: Option<Target>,
    pub bullet: Option<Bullet>,
    pub health: Option<Health>,
    pub lifetime: Option<Lifetime>,
    pub player: Option<Player>,
}

impl Components {
    pub open spec fn wf(self) -> bool {
        &&& (self.position is Some ==> self.position->0.bounded(COORD_LIMIT as int))
        &&& (self.tower is Some ==> self.tower->0.wf())
        &&& (self.target is Some ==> self.target->0.wf())
        &&& (self.bullet is Some ==> self.bullet->0.wf())
        &&& (self.lifetime is Some ==> self.lifetime->0.wf())
    }

    /// An entity with no components at all.
    pub fn empty() -> (c: Components)
        ensures
            c == Components::empty_spec(),
    {
        Components {
            position: None,
            tower: None,
            target: None,
            bullet: None,
            health: None,
            lifetime: None,
            player: None,
        }
    }

    pub open spec fn empty_spec() -> Components {
        Components {
            position: None,
            tower: None,
            target: None,
            bullet: None,
            health: None,
            lifetime: None,
            player: None,
        }
    }
}

/// One entity: its identifier and its components.
#[derive(Clone, Copy)]
pub struct EntityRec {
    pub id: u64,
    pub comps: Components,
}

impl EntityRec {
    pub open spec fn wf(self) -> bool {
        self.comps.wf()
    }
}

/// Identifiers appear in strictly ascending order.
pub open spec fn ids_sorted(s: Seq<EntityRec>) -> bool {
    forall|i: int, j: int| 0 <= i < j < s.len() ==> s[i].id < s[j].id
}

pub open spec fn all_wf(s: Seq<EntityRec>) -> bool {
    forall|i: int| 0 <= i < s.len() ==> #[trigger] s[i].wf()
}

pub open spec fn ids_below(s: Seq<EntityRec>, bound: int) -> bool {
    forall|i: int| 0 <= i < s.len() ==> #[trigger] s[i].id < bound
}

/// Some entry of `s` carries the identifier `id`.
pub open spec fn contains_id(s: Seq<EntityRec>, id: u64) -> bool {
    exists|i: int| 0 <= i < s.len() && #[trigger] s[i].id == id
}

/// The entries of `s` whose identifiers are not marked for despawn, in
/// order.  Duplicate marks have no further effect, which makes despawning
/// idempotent.
pub open spec fn despawn_filter(s: Seq<EntityRec>, dead: Seq<u64>) -> Seq<EntityRec>
    decreases s.len(),
{
    if s.len() == 0 {
        Seq::empty()
    } else {
        let rest = despawn_filter(s.drop_last(), dead);
        if dead.contains(s.last().id) {
            rest
        } else {
            rest.push(s.last())
        }
    }
}

/// Every entry the filter keeps is an entry of the input.
pub proof fn lemma_filter_member(s: Seq<EntityRec>, dead: Seq<u64>)
    ensures
        forall|k: int|
            0 <= k < despawn_filter(s, dead).len() ==> s.contains(
                #[trigger] despawn_filter(s, dead)[k],
            ),
    decreases s.len(),
{
    if s.len() > 0 {
        lemma_filter_member(s.drop_last(), dead);
        assert forall|k: int| 0 <= k < despawn_filter(s, dead).len() implies s.contains(
            #[trigger] despawn_filter(s, dead)[k],
        ) by {
            let rest = despawn_filter(s.drop_last(), dead);
            if k < rest.len() {
                let e = rest[k];
                let i = choose|i: int| 0 <= i < s.drop_last().len() && s.drop_last()[i] == e;
                assert(s[i] == e);
            } else {
                assert(despawn_filter(s, dead)[k] == s.last());
                assert(s[s.len() - 1] == s.last());
            }
        }
    }
}

/// The filter keeps identifiers sorted, records well-formed and bounds
/// intact.
pub proof fn lemma_filter_props(s: Seq<EntityRec>, dead: Seq<u64>, bound: int)
    requires
        ids_sorted(s),
        all_wf(s),
        ids_below(s, bound),
    ensures
        ids_sorted(despawn_filter(s, dead)),
        all_wf(despawn_filter(s, dead)),
        ids_below(despawn_filter(s, dead), bound),
    decreases s.len(),
{
    if s.len() > 0 {
        assert(ids_sorted(s.drop_last()));
        assert(all_wf(s.drop_last())) by {
            assert(forall|i: int|
                0 <= i < s.drop_last().len() ==> s.drop_last()[i] == #[trigger] s[i]);
        }
        assert(ids_below(s.drop_last(), bound)) by {
            assert(forall|i: int|
                0 <= i < s.drop_last().len() ==> s.drop_last()[i] == #[trigger] s[i]);
        }
        lemma_filter_props(s.drop_last(), dead, bound);
        lemma_filter_member(s.drop_last(), dead);
        let rest = despawn_filter(s.drop_last(), dead);
        if !dead.contains(s.last().id) {
            assert forall|i: int| 0 <= i < rest.len() implies rest[i].id < s.last().id by {
                let e = rest[i];
                let j = choose|j: int| 0 <= j < s.drop_last().len() && s.drop_last()[j] == e;
                assert(s[j] == e);
                assert(s[j].id < s[s.len() - 1].id);
            }
            assert(s.last().wf()) by {
                assert(s[s.len() - 1].wf());
            }
            assert(s.last().id < bound) by {
                assert(s[s.len() - 1].id < bound);
            }
        }
    }
}

/// An identifier marked for despawn does not survive the filter.
pub proof fn lemma_filter_excludes(s: Seq<EntityRec>, dead: Seq<u64>, id: u64)
    requires
        dead.contains(id),
    ensures
        !contains_id(despawn_filter(s, dead), id),
    decreases s.len(),
{
    if s.len() > 0 {
        lemma_filter_excludes(s.drop_last(), dead, id);
    }
}

/// An identifier present and not marked for despawn survives the filter.
pub proof fn lemma_filter_keeps(s: Seq<EntityRec>, dead: Seq<u64>, id: u64)
    requires
        contains_id(s, id),
        !dead.contains(id),
    ensures
        contains_id(despawn_filter(s, dead), id),
    decreases s.len(),
{
    if s.len() > 0 {
        let i = choose|i: int| 0 <= i < s.len() && s[i].id == id;
        if i == s.len() - 1 {
            let r = despawn_filter(s, dead);
            assert(r[r.len() - 1].id == id);
        } else {
            assert(s.drop_last()[i].id == id);
            lemma_filter_keeps(s.drop_last(), dead, id);
            let rest = despawn_filter(s.drop_last(), dead);
            let j = choose|j: int| 0 <= j < rest.len() && rest[j].id == id;
            assert(despawn_filter(s, dead)[j].id == id);
        }
    }
}

/// Two despawn queues marking the same identifiers filter identically:
/// despawning is idempotent.
pub proof fn lemma_filter_same_membership(s: Seq<EntityRec>, d1: Seq<u64>, d2: Seq<u64>)
    requires
        forall|x: u64| d1.contains(x) == d2.contains(x),
    ensures
        despawn_filter(s, d1) == despawn_filter(s, d2),
    decreases s.len(),
{
    if s.len() > 0 {
        lemma_filter_same_membership(s.drop_last(), d1, d2);
    }
}

/// The mathematical state of a `World`: the committed entities, the two
/// command buffers, the number of death events of the current tick, and
/// the next fresh identifier.  The per-tick systems are specified as pure
/// functions from model to model.
#[verifier::ext_equal]
pub ghost struct WorldModel {
    pub entities: Seq<EntityRec>,
    pub spawns: Seq<EntityRec>,
    pub despawns: Seq<u64>,
    pub events: nat,
    pub next_id: int,
}

/// The world: committed entities, the buffered structural commands of the
/// current tick, the death events of the current tick, and the next fresh
/// identifier.
pub struct World {
    pub entities: Vec<EntityRec>,
    pub spawns: Vec<EntityRec>,
    pub despawns: Vec<u64>,
    pub death_events: Vec<TargetDeathEvent>,
    pub next_id: u64,
}

impl World {
    pub open spec fn wf(self) -> bool {
        &&& ids_sorted(self.entities@)
        &&& all_wf(self.entities@)
        &&& ids_below(self.entities@, self.next_id as int)
        &&& ids_sorted(self.spawns@)
        &&& all_wf(self.spawns@)
        &&& ids_below(self.spawns@, self.next_id as int)
        &&& (forall|i: int, j: int|
            #![trigger self.entities@[i], self.spawns@[j]]
            0 <= i < self.entities@.len() && 0 <= j < self.spawns@.len()
                ==> self.entities@[i].id < self.spawns@[j].id)
    }

    /// The mathematical state this world holds.
    pub open spec fn model(self) -> WorldModel {
        WorldModel {
            entities: self.entities@,
            spawns: self.spawns@,
            despawns: self.despawns@,
            events: self.death_events@.len(),
            next_id: self.next_id as int,
        }
    }

    /// `id` names an entity committed and not yet removed.
    pub open spec fn live(self, id: u64) -> bool {
        contains_id(self.entities@, id)
    }

    /// `id` names an entity spawned this tick and not yet committed.
    pub open spec fn pending(self, id: u64) -> bool {
        contains_id(self.spawns@, id)
    }

    pub fn new() -> (w: World)
        ensures
            w.wf(),
            w.entities@.len() == 0,
            w.spawns@.len() == 0,
            w.despawns@.len() == 0,
            w.death_events@.len() == 0,
            w.next_id == 0,
    {
        World {
            entities: Vec::new(),
            spawns: Vec::new(),
            despawns: Vec::new(),
            death_events: Vec::new(),
            next_id: 0,
        }
    }

    /// Allocates a fresh entity id and buffers the entity for insertion at
    /// end of tick; it is invisible to queries until then.
    pub fn spawn(&mut self, comps: Components) -> (id: u64)
        requires
            old(self).wf(),
            comps.wf(),
            old(self).next_id < u64::MAX,
        ensures
            id == old(self).next_id,
            final(self).next_id == old(self).next_id + 1,
            final(self).entities@ == old(self).entities@,
            final(self).spawns@ == old(self).spawns@.push(EntityRec { id, comps }),
            final(self).despawns@ == old(self).despawns@,
            final(self).death_events@ == old(self).death_events@,
            final(self).wf(),
    {
        let id = self.next_id;
        self.next_id = self.next_id + 1;
        self.spawns.push(EntityRec { id, comps });
        id
    }

    /// Marks a live or pending entity for removal at end of tick.  Marking
    /// the same entity twice in one tick is harmless; a despawned-and-
    /// committed id is a caller error and is excluded by the precondition.
    pub fn despawn(&mut self, id: u64)
        requires
            old(self).wf(),
            old(self).live(id) || old(self).pending(id),
        ensures
            final(self).despawns@ == old(self).despawns@.push(id),
            final(self).entities@ == old(self).entities@,
            final(self).spawns@ == old(self).spawns@,
            final(self).death_events@ == old(self).death_events@,
            final(self).next_id == old(self).next_id,
            final(self).wf(),
    {
        self.despawns.push(id);
    }

    /// Discards the death events of the previous tick; the host calls this
    /// (through `advance`) before any system runs, so events never persist
    /// across tick boundaries.
    pub fn clear_events(&mut self)
        requires
            old(self).wf(),
        ensures
            final(self).death_events@.len() == 0,
            final(self).entities@ == old(self).entities@,
            final(self).spawns@ == old(self).spawns@,
            final(self).despawns@ == old(self).despawns@,
            final(self).next_id == old(self).next_id,
            final(self).wf(),
    {
        self.death_events = Vec::new();
    }

    /// End-of-tick commit: appends the buffered spawns, then removes every
    /// entity marked for despawn — including entities spawned this very
    /// tick, which then never become visible — and clears both buffers.
    pub fn commit(&mut self)
        requires
            old(self).wf(),
        ensures
            final(self).entities@ == despawn_filter(
                old(self).entities@ + old(self).spawns@,
                old(self).despawns@,
            ),
            final(self).spawns@.len() == 0,
            final(self).despawns@.len() == 0,
            final(self).death_events@ == old(self).death_events@,
            final(self).next_id == old(self).next_id,
            final(self).wf(),
    {
        let ghost all = self.entities@ + self.spawns@;
        proof {
            assert forall|i: int, j: int| 0 <= i < j < all.len() implies all[i].id < all[j].id by {
                if j < self.entities@.len() {
                    assert(self.entities@[i].id < self.entities@[j].id);
                } else if i >= self.entities@.len() {
                    assert(self.spawns@[i - self.entities@.len()].id
                        < self.spawns@[j - self.entities@.len()].id);
                } else {
                    assert(self.entities@[i].id
                        < self.spawns@[j - self.entities@.len()].id);
                }
            }
            assert(all_wf(all)) by {
                assert forall|i: int| 0 <= i < all.len() implies #[trigger] all[i].wf() by {
                    if i < self.entities@.len() {
                        assert(self.entities@[i].wf());
                    } else {
                        assert(self.spawns@[i - self.entities@.len()].wf());
                    }
                }
            }
            assert(ids_below(all, self.next_id as int)) by {
                assert forall|i: int| 0 <= i < all.len() implies #[trigger] all[i].id
                    < self.next_id as int by {
                    if i < self.entities@.len() {
                        assert(self.entities@[i].id < self.next_id);
                    } else {
                        assert(self.spawns@[i - self.entities@.len()].id < self.next_id);
                    }
                }
            }
            lemma_filter_props(all, self.despawns@, self.next_id as int);
        }
        let n_spawns = self.spawns.len();
        let mut k: usize = 0;
        while k < n_spawns
            invariant
                k <= n_spawns,
                n_spawns == self.spawns@.len(),
                self.spawns@ == old(self).spawns@,
                self.despawns@ == old(self).despawns@,
                self.death_events@ == old(self).death_events@,
                self.next_id == old(self).next_id,
                self.entities@ == old(self).entities@ + self.spawns@.take(k as int),
            decreases n_spawns - k,
        {
            let rec = self.spawns[k];
            self.entities.push(rec);
            proof {
                assert(self.spawns@.take(k as int + 1)
                    == self.spawns@.take(k as int).push(self.spawns@[k as int]));
                assert(self.entities@ == old(self).entities@ + self.spawns@.take(k as int + 1));
            }
            k = k + 1;
        }
        proof {
            assert(self.spawns@.take(n_spawns as int) == self.spawns@);
            assert(self.entities@ == all);
        }
        let n = self.entities.len();
        let mut kept: Vec<EntityRec> = Vec::new();
        let mut i: usize = 0;
        while i < n
            invariant
                i <= n,
                n == self.entities@.len(),
                self.entities@ == all,
                self.despawns@ == old(self).despawns@,
                self.death_events@ == old(self).death_events@,
                self.next_id == old(self).next_id,
                kept@ == despawn_filter(all.take(i as int), old(self).despawns@),
            decreases n - i,
        {
            let rec = self.entities[i];
            let marked = contains_u64(&self.despawns, rec.id);
            proof {
                assert(all.take(i as int + 1).drop_last() == all.take(i as int));
                assert(all.take(i as int + 1).last() == all[i as int]);
            }
            if !marked {
                kept.push(rec);
            }
            i = i + 1;
        }
        proof {
            assert(all.take(n as int) == all);
        }
        self.entities = kept;
        self.spawns = Vec::new();
        self.despawns = Vec::new();
    }
}

/// Well-formedness carries over to a world whose entities were rewritten
/// in place: same identifiers position by position, records still
/// well-formed, buffers and id counter untouched.
pub proof fn lemma_wf_entities_replaced(w1: World, w2: World)
    requires
        w1.wf(),
        w2.spawns@ == w1.spawns@,
        w2.next_id == w1.next_id,
        w2.entities@.len() == w1.entities@.len(),
        forall|j: int|
            0 <= j < w2.entities@.len() ==> #[trigger] w2.entities@[j].id == w1.entities@[j].id,
        forall|j: int| 0 <= j < w2.entities@.len() ==> #[trigger] w2.entities@[j].wf(),
    ensures
        w2.wf(),
{
    assert forall|i: int, j: int| 0 <= i < j < w2.entities@.len() implies w2.entities@[i].id
        < w2.entities@[j].id by {
        assert(w1.entities@[i].id < w1.entities@[j].id);
    }
    assert forall|i: int| 0 <= i < w2.entities@.len() implies #[trigger] w2.entities@[i].id
        < w2.next_id as int by {
        assert(w1.entities@[i].id < w1.next_id);
    }
    assert forall|i: int, j: int|
        #![trigger w2.entities@[i], w2.spawns@[j]]
        0 <= i < w2.entities@.len() && 0 <= j < w2.spawns@.len() implies w2.entities@[i].id
        < w2.spawns@[j].id by {
        assert(w1.entities@[i].id < w1.spawns@[j].id);
    }
}

/// Linear membership scan over a despawn queue.
pub fn contains_u64(v: &Vec<u64>, x: u64) -> (r: bool)
    ensures
        r == v@.contains(x),
{
    let n = v.len();
    let mut i: usize = 0;
    while i < n
        invariant
            i <= n,
            n == v@.len(),
            forall|j: int| 0 <= j < i ==> v@[j] != x,
        decreases n - i,
    {
        if v[i] == x {
            return true;
        }
        i = i + 1;
    }
    false
}

} // verus!
