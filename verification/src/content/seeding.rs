//! Turning campaign content into world state.

use vstd::prelude::*;
use crate::text::{views, text_eq};
use crate::content::{CampaignContent, LocationContent};
use crate::model::{
    World, Region, Location, RegionModel, LocationModel, EntityId, first_match, lemma_first_match,
    lemma_first_match_step, lemma_first_match_none, location_named, world_entity_ids, fresh_distinct,
    lemma_fresh_insert,
};

verus! {

pub open spec fn content_with_id(id: Seq<char>) -> spec_fn(LocationContent) -> bool {
    |l: LocationContent| l.id@ == id
}

/// The regions after seeding's first step and the next free id: a world without regions
/// gets one from the content under a fresh id.
pub open spec fn seeded_regions(regions: Seq<RegionModel>, next: EntityId, c: CampaignContent) -> (Seq<RegionModel>, EntityId) {
    if regions.len() == 0 {
        (seq![RegionModel {
            id: next,
            name: c.world.region.name@,
            description: c.world.region.description@,
            location_ids: seq![],
        }], (next + 1) as EntityId)
    } else {
        (regions, next)
    }
}

/// A location made from content, not yet linked to its neighbours.
pub open spec fn new_location_model(id: EntityId, l: LocationContent, region_id: EntityId) -> LocationModel {
    LocationModel {
        id,
        name: l.name@,
        description: l.description@,
        region_id,
        dangerous: l.dangerous,
        corpse_ids: seq![],
        exits: seq![],
    }
}

/// The locations after each content location whose name the world lacks is added under a
/// fresh id, in content order, and the next free id.
pub open spec fn add_missing_locations(
    locs: Seq<LocationModel>,
    next: EntityId,
    cl: Seq<LocationContent>,
    region_id: EntityId,
) -> (Seq<LocationModel>, EntityId)
    decreases cl.len(),
{
    if cl.len() == 0 {
        (locs, next)
    } else {
        let r = add_missing_locations(locs, next, cl.drop_last(), region_id);
        let l = cl.last();
        if first_match(r.0, location_named(l.name@)) < r.0.len() {
            r
        } else {
            (r.0.push(new_location_model(r.1, l, region_id)), (r.1 + 1) as EntityId)
        }
    }
}

/// The world ids of the exits that content names: each exit id is looked up among the
/// content locations, and that location's name in the world; exits that fail either lookup
/// are dropped.
pub open spec fn exit_ids(cl: Seq<LocationContent>, locs: Seq<LocationModel>, exits: Seq<Seq<char>>) -> Seq<EntityId>
    decreases exits.len(),
{
    if exits.len() == 0 {
        seq![]
    } else {
        let prev = exit_ids(cl, locs, exits.drop_last());
        let j = first_match(cl, content_with_id(exits.last()));
        if j < cl.len() {
            let k = first_match(locs, location_named(cl[j].name@));
            if k < locs.len() {
                prev.push(locs[k].id)
            } else {
                prev
            }
        } else {
            prev
        }
    }
}

/// A location with its exits replaced.
pub open spec fn with_exits(l: LocationModel, exits: Seq<EntityId>) -> LocationModel {
    LocationModel {
        id: l.id,
        name: l.name,
        description: l.description,
        region_id: l.region_id,
        dangerous: l.dangerous,
        corpse_ids: l.corpse_ids,
        exits,
    }
}

/// The locations after the exits of each content location, in order, are written to the
/// first world location of the same name.
pub open spec fn apply_exits(locs: Seq<LocationModel>, all: Seq<LocationContent>, cl: Seq<LocationContent>) -> Seq<LocationModel>
    decreases cl.len(),
{
    if cl.len() == 0 {
        locs
    } else {
        let prev = apply_exits(locs, all, cl.drop_last());
        let l = cl.last();
        let k = first_match(prev, location_named(l.name@));
        if k < prev.len() {
            prev.update(k, with_exits(prev[k], exit_ids(all, prev, views(l.exits@))))
        } else {
            prev
        }
    }
}

/// The ids of the locations in a region, in order.
pub open spec fn ids_in_region(locs: Seq<LocationModel>, region_id: EntityId) -> Seq<EntityId>
    decreases locs.len(),
{
    if locs.len() == 0 {
        seq![]
    } else {
        let prev = ids_in_region(locs.drop_last(), region_id);
        if locs.last().region_id == region_id {
            prev.push(locs.last().id)
        } else {
            prev
        }
    }
}

/// A region with its location list replaced.
pub open spec fn with_location_ids(r: RegionModel, ids: Seq<EntityId>) -> RegionModel {
    RegionModel { id: r.id, name: r.name, description: r.description, location_ids: ids }
}

/// The regions, locations and next free id after content seeds a world.
pub open spec fn seed_result(
    regions: Seq<RegionModel>,
    locs: Seq<LocationModel>,
    next: EntityId,
    c: CampaignContent,
) -> (Seq<RegionModel>, Seq<LocationModel>, EntityId) {
    let r = seeded_regions(regions, next, c);
    let region_id = r.0[0].id;
    let added = add_missing_locations(locs, r.1, c.world.locations@, region_id);
    let linked = apply_exits(added.0, c.world.locations@, c.world.locations@);
    (r.0.update(0, with_location_ids(r.0[0], ids_in_region(linked, region_id))), linked, added.1)
}

proof fn lemma_add_missing_next(locs: Seq<LocationModel>, next: EntityId, cl: Seq<LocationContent>, region_id: EntityId)
    requires
        next + cl.len() <= u64::MAX,
    ensures
        add_missing_locations(locs, next, cl, region_id).1 <= next + cl.len(),
        add_missing_locations(locs, next, cl, region_id).1 >= next,
        add_missing_locations(locs, next, cl, region_id).0.len()
            == locs.len() + (add_missing_locations(locs, next, cl, region_id).1 - next),
    decreases cl.len(),
{
    if cl.len() > 0 {
        lemma_add_missing_next(locs, next, cl.drop_last(), region_id);
    }
}

/// The position of the first content location with `id`.
fn content_location_index(cl: &[LocationContent], id: &str) -> (r: Option<usize>)
    ensures
        ({
            let k = first_match(cl@, content_with_id(id@));
            &&& (r is Some) == (k < cl@.len())
            &&& r matches Some(i) ==> i as int == k
        }),
{
    proof { lemma_first_match(cl@, content_with_id(id@)); }
    let mut i: usize = 0;
    while i < cl.len()
        invariant
            i <= cl@.len(),
            forall|j: int| 0 <= j < i ==> !content_with_id(id@)(#[trigger] cl@[j]),
        decreases cl@.len() - i,
    {
        proof { lemma_first_match_step(cl@, content_with_id(id@), i as int); }
        if text_eq(cl[i].id.as_str(), id) {
            return Some(i);
        }
        i = i + 1;
    }
    proof { lemma_first_match_none(cl@, content_with_id(id@)); }
    None
}

/// The world ids of the exits content names.
fn resolve_exits(cl: &[LocationContent], world: &World, exits: &[String]) -> (r: Vec<EntityId>)
    ensures
        r@ == exit_ids(cl@, world.locations.deep_view(), views(exits@)),
{
    let ghost locs = world.locations.deep_view();
    let mut r: Vec<EntityId> = Vec::new();
    let mut i: usize = 0;
    while i < exits.len()
        invariant
            locs == world.locations.deep_view(),
            i <= exits@.len(),
            r@ == exit_ids(cl@, locs, views(exits@).take(i as int)),
        decreases exits@.len() - i,
    {
        let ghost t = views(exits@).take(i + 1);
        proof {
            assert(t.drop_last() =~= views(exits@).take(i as int));
            assert(t.last() == exits@[i as int]@);
        }
        match content_location_index(cl, exits[i].as_str()) {
            Some(j) => {
                proof { lemma_first_match(locs, location_named(cl@[j as int].name@)); }
                match world.location_index_by_name(cl[j].name.as_str()) {
                    Some(k) => r.push(world.locations[k].id),
                    None => {},
                }
            },
            None => {},
        }
        i = i + 1;
    }
    assert(views(exits@).take(exits@.len() as int) =~= views(exits@));
    r
}


/// The ids of the locations of a region, collected from the world's locations in order.
fn region_location_ids(world: &World, region_id: EntityId) -> (r: Vec<EntityId>)
    ensures
        r@ == ids_in_region(world.locations.deep_view(), region_id),
{
    let ghost locs = world.locations.deep_view();
    let mut r: Vec<EntityId> = Vec::new();
    let mut i: usize = 0;
    while i < world.locations.len()
        invariant
            locs == world.locations.deep_view(),
            i <= locs.len(),
            r@ == ids_in_region(locs.take(i as int), region_id),
        decreases locs.len() - i,
    {
        proof {
            assert(locs.take(i + 1).drop_last() =~= locs.take(i as int));
        }
        if world.locations[i].region_id == region_id {
            r.push(world.locations[i].id);
        }
        i = i + 1;
    }
    assert(locs.take(locs.len() as int) =~= locs);
    r
}

impl CampaignContent {
    /// Seeds `world` from this content: a world without regions gets the content's region;
    /// each content location whose name the world lacks is added to the first region under
    /// a fresh id; each content location's exits are resolved to world ids by name; and the
    /// first region lists the locations that belong to it.
    #[verifier::spinoff_prover]
    pub fn seed_world(&self, world: &mut World)
        requires
            old(world).next_id + 1 + self.world.locations@.len() < u64::MAX,
        ensures
            ({
                let r = seed_result(old(world).regions.deep_view(), old(world).locations.deep_view(), old(world).next_id, *self);
                &&& final(world).regions.deep_view() == r.0
                &&& final(world).locations.deep_view() == r.1
                &&& final(world).next_id == r.2
            }),
            final(world).id == old(world).id,
            final(world).name == old(world).name,
            final(world).mode == old(world).mode,
            final(world).history == old(world).history,
            final(world).day == old(world).day,
            final(world).time_points == old(world).time_points,
            final(world).event_cooldowns == old(world).event_cooldowns,
            old(world).wf() ==> final(world).wf(),
    {
        let ghost w0 = *world;
        let ghost c = *self;
        if world.regions.len() == 0 {
            let region_id = world.allocate_id();
            world.regions.push(Region {
                id: region_id,
                name: self.world.region.name.clone(),
                description: self.world.region.description.clone(),
                location_ids: Vec::new(),
            });
            proof {
                let a = w0.regions@.map_values(|r: Region| r.id);
                let b = w0.locations@.map_values(|l: Location| l.id);
                let h = w0.history@.map_values(|e: crate::model::HistoryEntry| e.id);
                assert(a =~= seq![]);
                assert(world.regions@.map_values(|r: Region| r.id) =~= a.push(region_id));
                if w0.wf() {
                    assert(seq![] + a + (b + h) =~= world_entity_ids(w0));
                    lemma_fresh_insert(seq![], a, b + h, region_id);
                    assert(seq![] + a.push(region_id) + (b + h) =~= world_entity_ids(*world));
                }
            }
        }
        let ghost r = seeded_regions(w0.regions.deep_view(), w0.next_id, c);
        assert(world.regions.deep_view() =~= r.0);
        let region_id = world.regions[0].id;
        let ghost regions1 = world.regions;
        let cl = &self.world.locations;
        proof {
            lemma_add_missing_next(w0.locations.deep_view(), r.1, cl@, region_id);
        }
        let mut i: usize = 0;
        while i < cl.len()
            invariant
                cl == &c.world.locations,
                i <= cl@.len(),
                r.1 + cl@.len() < u64::MAX,
                world.regions == regions1,
                region_id == r.0[0].id,
                (world.locations.deep_view(), world.next_id)
                    == add_missing_locations(w0.locations.deep_view(), r.1, cl@.take(i as int), region_id),
                world.id == w0.id,
                world.name == w0.name,
                world.mode == w0.mode,
                world.history == w0.history,
                world.day == w0.day,
                world.time_points == w0.time_points,
                world.event_cooldowns == w0.event_cooldowns,
                w0.wf() ==> world.wf(),
            decreases cl@.len() - i,
        {
            let ghost t = cl@.take(i + 1);
            proof {
                assert(t.drop_last() =~= cl@.take(i as int));
                assert(t.last() == cl@[i as int]);
                lemma_add_missing_next(w0.locations.deep_view(), r.1, cl@.take(i as int), region_id);
                lemma_first_match(world.locations.deep_view(), location_named(cl@[i as int].name@));
            }
            if world.location_index_by_name(cl[i].name.as_str()).is_none() {
                let ghost before = *world;
                let id = world.allocate_id();
                world.locations.push(Location {
                    id,
                    name: cl[i].name.clone(),
                    description: cl[i].description.clone(),
                    region_id,
                    dangerous: cl[i].dangerous,
                    corpse_ids: Vec::new(),
                    exits: Vec::new(),
                });
                proof {
                    assert(world.locations.deep_view() =~= before.locations.deep_view().push(
                        new_location_model(id, cl@[i as int], region_id)));
                    let a = before.regions@.map_values(|r: Region| r.id);
                    let b = before.locations@.map_values(|l: Location| l.id);
                    let h = before.history@.map_values(|e: crate::model::HistoryEntry| e.id);
                    assert(world.locations@.map_values(|l: Location| l.id) =~= b.push(id));
                    if w0.wf() {
                        lemma_fresh_insert(a, b, h, id);
                    }
                }
            }
            i = i + 1;
        }
        proof {
            assert(cl@.take(cl@.len() as int) =~= cl@);
        }
        let ghost added = world.locations.deep_view();
        let ghost next_after = world.next_id;
        let ghost ids_before = world_entity_ids(*world);
        let mut i: usize = 0;
        while i < cl.len()
            invariant
                cl == &c.world.locations,
                i <= cl@.len(),
                world.regions == regions1,
                world.next_id == next_after,
                world.locations.deep_view() == apply_exits(added, cl@, cl@.take(i as int)),
                world_entity_ids(*world) == ids_before,
                world.id == w0.id,
                world.name == w0.name,
                world.mode == w0.mode,
                world.history == w0.history,
                world.day == w0.day,
                world.time_points == w0.time_points,
                world.event_cooldowns == w0.event_cooldowns,
            decreases cl@.len() - i,
        {
            let ghost t = cl@.take(i + 1);
            proof {
                assert(t.drop_last() =~= cl@.take(i as int));
                assert(t.last() == cl@[i as int]);
                lemma_first_match(world.locations.deep_view(), location_named(cl@[i as int].name@));
            }
            let exits = resolve_exits(cl.as_slice(), world, cl[i].exits.as_slice());
            match world.location_index_by_name(cl[i].name.as_str()) {
                Some(k) => {
                    let ghost before = *world;
                    world.locations[k].exits = exits;
                    proof {
                        assert(world.locations.deep_view() =~= before.locations.deep_view().update(k as int,
                            with_exits(before.locations.deep_view()[k as int], exits@)));
                        assert(world.locations@.map_values(|l: Location| l.id) =~= before.locations@.map_values(|l: Location| l.id));
                    }
                },
                None => {},
            }
            i = i + 1;
        }
        proof {
            assert(cl@.take(cl@.len() as int) =~= cl@);
        }
        let ids = region_location_ids(world, region_id);
        let ghost before = *world;
        world.regions[0].location_ids = ids;
        proof {
            assert(world.regions.deep_view() =~= before.regions.deep_view().update(0, with_location_ids(before.regions.deep_view()[0], ids@)));
            assert(world.regions@.map_values(|r: Region| r.id) =~= before.regions@.map_values(|r: Region| r.id));
        }
    }
}


/// Two location lists with the same names at each position.
pub open spec fn same_names(a: Seq<LocationModel>, b: Seq<LocationModel>) -> bool {
    &&& a.len() == b.len()
    &&& forall|k: int| 0 <= k < a.len() ==> (#[trigger] a[k]).name == b[k].name
}

/// Two location lists alike in all but their exits.
pub open spec fn same_but_exits(a: Seq<LocationModel>, b: Seq<LocationModel>) -> bool {
    &&& a.len() == b.len()
    &&& forall|k: int| 0 <= k < a.len() ==> with_exits(#[trigger] a[k], seq![]) == with_exits(b[k], seq![])
}

proof fn lemma_first_match_named_congruent(a: Seq<LocationModel>, b: Seq<LocationModel>, name: Seq<char>)
    requires
        same_names(a, b),
    ensures
        first_match(a, location_named(name)) == first_match(b, location_named(name)),
    decreases a.len(),
{
    if a.len() > 0 {
        assert(same_names(a.drop_last(), b.drop_last())) by {
            assert forall|k: int| 0 <= k < a.drop_last().len() implies (#[trigger] a.drop_last()[k]).name == b.drop_last()[k].name by {
                assert(a.drop_last()[k] == a[k]);
                assert(b.drop_last()[k] == b[k]);
            }
        }
        lemma_first_match_named_congruent(a.drop_last(), b.drop_last(), name);
        assert(a.last().name == b[b.len() - 1].name);
    }
}

proof fn lemma_first_match_push<T>(s: Seq<T>, x: T, pred: spec_fn(T) -> bool)
    ensures
        first_match(s, pred) < s.len() ==> first_match(s.push(x), pred) == first_match(s, pred),
        first_match(s, pred) == s.len() && pred(x) ==> first_match(s.push(x), pred) == s.len(),
{
    lemma_first_match(s, pred);
    assert(s.push(x).drop_last() =~= s);
}

proof fn lemma_apply_exits_keeps(locs: Seq<LocationModel>, all: Seq<LocationContent>, cl: Seq<LocationContent>)
    ensures
        same_but_exits(apply_exits(locs, all, cl), locs),
        same_names(apply_exits(locs, all, cl), locs),
    decreases cl.len(),
{
    if cl.len() > 0 {
        lemma_apply_exits_keeps(locs, all, cl.drop_last());
        let prev = apply_exits(locs, all, cl.drop_last());
        let res = apply_exits(locs, all, cl);
        lemma_first_match(prev, location_named(cl.last().name@));
        assert(res.len() == prev.len());
        assert forall|k: int| 0 <= k < res.len() implies with_exits(#[trigger] res[k], seq![]) == with_exits(locs[k], seq![]) by {
            assert(with_exits(prev[k], seq![]) == with_exits(locs[k], seq![]));
        }
        assert forall|k: int| 0 <= k < res.len() implies (#[trigger] res[k]).name == locs[k].name by {
            assert(with_exits(res[k], seq![]) == with_exits(locs[k], seq![]));
        }
    }
}

proof fn lemma_add_missing_present(locs: Seq<LocationModel>, next: EntityId, cl: Seq<LocationContent>, region_id: EntityId)
    ensures
        ({
            let r = add_missing_locations(locs, next, cl, region_id);
            &&& forall|i: int| 0 <= i < cl.len() ==> first_match(r.0, location_named((#[trigger] cl[i]).name@)) < r.0.len()
            &&& forall|n: Seq<char>| first_match(locs, location_named(n)) < locs.len()
                ==> #[trigger] first_match(r.0, location_named(n)) < r.0.len()
        }),
    decreases cl.len(),
{
    if cl.len() > 0 {
        let prev = cl.drop_last();
        lemma_add_missing_present(locs, next, prev, region_id);
        let r0 = add_missing_locations(locs, next, prev, region_id);
        let r = add_missing_locations(locs, next, cl, region_id);
        let l = cl.last();
        if first_match(r0.0, location_named(l.name@)) < r0.0.len() {
            assert forall|i: int| 0 <= i < cl.len() implies first_match(r.0, location_named((#[trigger] cl[i]).name@)) < r.0.len() by {
                if i < prev.len() {
                    assert(cl[i] == prev[i]);
                }
            }
        } else {
            let x = new_location_model(r0.1, l, region_id);
            assert forall|n: Seq<char>| first_match(r0.0, location_named(n)) < r0.0.len()
                implies #[trigger] first_match(r0.0.push(x), location_named(n)) < r0.0.len() + 1 by {
                lemma_first_match_push(r0.0, x, location_named(n));
            }
            lemma_first_match_push(r0.0, x, location_named(l.name@));
            assert forall|i: int| 0 <= i < cl.len() implies first_match(r.0, location_named((#[trigger] cl[i]).name@)) < r.0.len() by {
                if i < prev.len() {
                    assert(cl[i] == prev[i]);
                    lemma_first_match_push(r0.0, x, location_named(prev[i].name@));
                }
            }
            assert forall|n: Seq<char>| first_match(locs, location_named(n)) < locs.len()
                implies #[trigger] first_match(r.0, location_named(n)) < r.0.len() by {
                lemma_first_match_push(r0.0, x, location_named(n));
            }
        }
    }
}

proof fn lemma_add_missing_identity(locs: Seq<LocationModel>, next: EntityId, cl: Seq<LocationContent>, region_id: EntityId)
    requires
        forall|i: int| 0 <= i < cl.len() ==> first_match(locs, location_named((#[trigger] cl[i]).name@)) < locs.len(),
    ensures
        add_missing_locations(locs, next, cl, region_id) == (locs, next),
    decreases cl.len(),
{
    if cl.len() > 0 {
        assert forall|i: int| 0 <= i < cl.drop_last().len() implies
            first_match(locs, location_named((#[trigger] cl.drop_last()[i]).name@)) < locs.len() by {
            assert(cl.drop_last()[i] == cl[i]);
        }
        lemma_add_missing_identity(locs, next, cl.drop_last(), region_id);
        assert(cl.last() == cl[cl.len() - 1]);
    }
}

/// After content seeds a world, the world has a location of every name the content defines.
pub proof fn law_seed_world_places_every_location(
    regions: Seq<RegionModel>,
    locs: Seq<LocationModel>,
    next: EntityId,
    c: CampaignContent,
)
    ensures
        ({
            let r = seed_result(regions, locs, next, c);
            forall|i: int| 0 <= i < c.world.locations@.len()
                ==> first_match(r.1, location_named((#[trigger] c.world.locations@[i]).name@)) < r.1.len()
        }),
{
    let cl = c.world.locations@;
    let sr = seeded_regions(regions, next, c);
    let added = add_missing_locations(locs, sr.1, cl, sr.0[0].id);
    lemma_add_missing_present(locs, sr.1, cl, sr.0[0].id);
    let linked = apply_exits(added.0, cl, cl);
    lemma_apply_exits_keeps(added.0, cl, cl);
    assert forall|i: int| 0 <= i < cl.len() implies first_match(linked, location_named((#[trigger] cl[i]).name@)) < linked.len() by {
        lemma_first_match_named_congruent(linked, added.0, cl[i].name@);
    }
}

/// Seeding a world that already has a location of every name the content defines, and a
/// region, adds nothing: no region, no location, no id is spent; only exits and the region's
/// location list are written.
pub proof fn law_seed_world_adds_nothing_when_seeded(
    regions: Seq<RegionModel>,
    locs: Seq<LocationModel>,
    next: EntityId,
    c: CampaignContent,
)
    requires
        regions.len() > 0,
        forall|i: int| 0 <= i < c.world.locations@.len()
            ==> first_match(locs, location_named((#[trigger] c.world.locations@[i]).name@)) < locs.len(),
    ensures
        ({
            let r = seed_result(regions, locs, next, c);
            &&& r.2 == next
            &&& r.0.len() == regions.len()
            &&& same_but_exits(r.1, locs)
        }),
{
    let cl = c.world.locations@;
    lemma_add_missing_identity(locs, next, cl, regions[0].id);
    lemma_apply_exits_keeps(locs, cl, cl);
}

/// The exits that content writes to the location at `k`: those of the last content location
/// whose name is first found at `k`, if any.
pub open spec fn exits_for(locs: Seq<LocationModel>, all: Seq<LocationContent>, cl: Seq<LocationContent>, k: int) -> Option<Seq<EntityId>>
    decreases cl.len(),
{
    if cl.len() == 0 {
        None
    } else if first_match(locs, location_named(cl.last().name@)) == k {
        Some(exit_ids(all, locs, views(cl.last().exits@)))
    } else {
        exits_for(locs, all, cl.drop_last(), k)
    }
}

/// The locations with the exits content writes to them.
pub open spec fn exits_written(locs: Seq<LocationModel>, all: Seq<LocationContent>, cl: Seq<LocationContent>) -> Seq<LocationModel> {
    Seq::new(locs.len(), |k: int| match exits_for(locs, all, cl, k) {
        Some(e) => with_exits(locs[k], e),
        None => locs[k],
    })
}

proof fn lemma_same_but_exits_names(a: Seq<LocationModel>, b: Seq<LocationModel>)
    requires
        same_but_exits(a, b),
    ensures
        same_names(a, b),
        forall|k: int| 0 <= k < a.len() ==> (#[trigger] a[k]).id == b[k].id,
{
    assert forall|k: int| 0 <= k < a.len() implies (#[trigger] a[k]).name == b[k].name && a[k].id == b[k].id by {
        assert(with_exits(a[k], seq![]) == with_exits(b[k], seq![]));
    }
}

/// Exits resolve alike in location lists that differ only in exits.
proof fn lemma_exit_ids_congruent(all: Seq<LocationContent>, a: Seq<LocationModel>, b: Seq<LocationModel>, exits: Seq<Seq<char>>)
    requires
        same_but_exits(a, b),
    ensures
        exit_ids(all, a, exits) == exit_ids(all, b, exits),
    decreases exits.len(),
{
    if exits.len() > 0 {
        lemma_exit_ids_congruent(all, a, b, exits.drop_last());
        lemma_same_but_exits_names(a, b);
        let j = first_match(all, content_with_id(exits.last()));
        if j < all.len() {
            lemma_first_match_named_congruent(a, b, all[j].name@);
            lemma_first_match(a, location_named(all[j].name@));
        }
    }
}

/// Content writes the same exits to location lists that differ only in exits.
proof fn lemma_exits_for_congruent(a: Seq<LocationModel>, b: Seq<LocationModel>, all: Seq<LocationContent>, cl: Seq<LocationContent>, k: int)
    requires
        same_but_exits(a, b),
    ensures
        exits_for(a, all, cl, k) == exits_for(b, all, cl, k),
    decreases cl.len(),
{
    if cl.len() > 0 {
        lemma_same_but_exits_names(a, b);
        lemma_first_match_named_congruent(a, b, cl.last().name@);
        lemma_exit_ids_congruent(all, a, b, views(cl.last().exits@));
        lemma_exits_for_congruent(a, b, all, cl.drop_last(), k);
    }
}

/// Writing exits in content order leaves each location with the exits the last content
/// location of its name gives it.
proof fn lemma_apply_exits_written(locs: Seq<LocationModel>, all: Seq<LocationContent>, cl: Seq<LocationContent>)
    ensures
        apply_exits(locs, all, cl) == exits_written(locs, all, cl),
    decreases cl.len(),
{
    if cl.len() == 0 {
        assert(apply_exits(locs, all, cl) =~= exits_written(locs, all, cl));
    } else {
        let d = cl.drop_last();
        let l = cl.last();
        lemma_apply_exits_written(locs, all, d);
        let prev = apply_exits(locs, all, d);
        lemma_apply_exits_keeps(locs, all, d);
        lemma_first_match_named_congruent(prev, locs, l.name@);
        lemma_first_match(locs, location_named(l.name@));
        lemma_exit_ids_congruent(all, prev, locs, views(l.exits@));
        let k0 = first_match(locs, location_named(l.name@));
        let res = apply_exits(locs, all, cl);
        let w = exits_written(locs, all, cl);
        assert forall|k: int| 0 <= k < locs.len() implies #[trigger] res[k] == w[k] by {
            if k == k0 {
                assert(with_exits(prev[k], seq![]) == with_exits(locs[k], seq![]));
            } else {
                assert(res[k] == prev[k]);
            }
        }
        assert(res =~= w);
    }
}

/// Writing the content's exits a second time changes nothing.
proof fn lemma_apply_exits_idempotent(locs: Seq<LocationModel>, all: Seq<LocationContent>, cl: Seq<LocationContent>)
    ensures
        apply_exits(apply_exits(locs, all, cl), all, cl) == apply_exits(locs, all, cl),
{
    let w = apply_exits(locs, all, cl);
    lemma_apply_exits_written(locs, all, cl);
    lemma_apply_exits_written(w, all, cl);
    lemma_apply_exits_keeps(locs, all, cl);
    let ww = apply_exits(w, all, cl);
    assert forall|k: int| 0 <= k < w.len() implies #[trigger] ww[k] == w[k] by {
        lemma_exits_for_congruent(w, locs, all, cl, k);
    }
    assert(ww =~= w);
}

/// Seeding twice with the same content changes nothing the second time: the regions, the
/// locations with their exits, and the next free id are what the first seeding left.
pub proof fn law_seed_world_twice_adds_nothing(
    regions: Seq<RegionModel>,
    locs: Seq<LocationModel>,
    next: EntityId,
    c: CampaignContent,
)
    ensures
        seed_result(seed_result(regions, locs, next, c).0, seed_result(regions, locs, next, c).1,
            seed_result(regions, locs, next, c).2, c) == seed_result(regions, locs, next, c),
{
    let cl = c.world.locations@;
    law_seed_world_places_every_location(regions, locs, next, c);
    let once = seed_result(regions, locs, next, c);
    let r = seeded_regions(regions, next, c);
    let region_id = r.0[0].id;
    let added = add_missing_locations(locs, r.1, cl, region_id);
    let linked = apply_exits(added.0, cl, cl);
    assert(once.1 == linked);
    assert(once.0[0].id == region_id);
    lemma_add_missing_identity(once.1, once.2, cl, region_id);
    lemma_apply_exits_idempotent(added.0, cl, cl);
    let twice = seed_result(once.0, once.1, once.2, c);
    assert(twice.1 == once.1);
    assert(twice.0 =~= once.0);
}


/// Whether `l` is made from the content location `cl`: same name, description and danger,
/// in the region, with no corpses.
pub open spec fn made_from(l: LocationModel, cl: LocationContent, region_id: EntityId) -> bool {
    &&& l.name == cl.name@
    &&& l.description == cl.description@
    &&& l.dangerous == cl.dangerous
    &&& l.region_id == region_id
    &&& l.corpse_ids.len() == 0
}

proof fn lemma_add_missing_shape(locs: Seq<LocationModel>, next: EntityId, cl: Seq<LocationContent>, region_id: EntityId)
    ensures
        ({
            let a = add_missing_locations(locs, next, cl, region_id);
            &&& a.0.len() >= locs.len()
            &&& forall|k: int| 0 <= k < locs.len() ==> #[trigger] a.0[k] == locs[k]
            &&& forall|k: int| locs.len() <= k < a.0.len() ==>
                exists|j: int| 0 <= j < cl.len() && made_from(#[trigger] a.0[k], #[trigger] cl[j], region_id)
        }),
    decreases cl.len(),
{
    if cl.len() > 0 {
        let d = cl.drop_last();
        lemma_add_missing_shape(locs, next, d, region_id);
        let r = add_missing_locations(locs, next, d, region_id);
        let a = add_missing_locations(locs, next, cl, region_id);
        assert forall|k: int| locs.len() <= k < a.0.len() implies
            exists|j: int| 0 <= j < cl.len() && made_from(#[trigger] a.0[k], #[trigger] cl[j], region_id) by {
            if k < r.0.len() {
                let j = choose|j: int| 0 <= j < d.len() && made_from(r.0[k], d[j], region_id);
                assert(a.0[k] == r.0[k]);
                assert(cl[j] == d[j]);
            } else {
                assert(made_from(a.0[k], cl[cl.len() - 1], region_id));
            }
        }
        assert forall|k: int| 0 <= k < locs.len() implies #[trigger] a.0[k] == locs[k] by {
            assert(a.0[k] == r.0[k]);
        }
    }
}

/// Seeding keeps every location the world had, in place, as it was but for its exits, and
/// every location it adds is made from a content location: its name, description and danger
/// are that location's, it lies in the seeded region, and it holds no corpses.
pub proof fn law_seed_world_adds_locations_from_content(
    regions: Seq<RegionModel>,
    locs: Seq<LocationModel>,
    next: EntityId,
    c: CampaignContent,
)
    ensures
        ({
            let r = seed_result(regions, locs, next, c);
            &&& r.1.len() >= locs.len()
            &&& forall|k: int| 0 <= k < locs.len() ==> {
                &&& (#[trigger] r.1[k]).id == locs[k].id
                &&& r.1[k].name == locs[k].name
                &&& r.1[k].description == locs[k].description
                &&& r.1[k].region_id == locs[k].region_id
                &&& r.1[k].dangerous == locs[k].dangerous
                &&& r.1[k].corpse_ids == locs[k].corpse_ids
            }
            &&& forall|k: int| locs.len() <= k < r.1.len() ==>
                exists|j: int| 0 <= j < c.world.locations@.len()
                    && made_from(#[trigger] r.1[k], #[trigger] c.world.locations@[j], r.0[0].id)
        }),
{
    let cl = c.world.locations@;
    let sr = seeded_regions(regions, next, c);
    let region_id = sr.0[0].id;
    let added = add_missing_locations(locs, sr.1, cl, region_id);
    lemma_add_missing_shape(locs, sr.1, cl, region_id);
    let linked = apply_exits(added.0, cl, cl);
    lemma_apply_exits_keeps(added.0, cl, cl);
    let r = seed_result(regions, locs, next, c);
    assert(r.1 == linked);
    assert(r.0[0].id == region_id);
    assert forall|k: int| 0 <= k < linked.len() implies with_exits(#[trigger] linked[k], seq![]) == with_exits(added.0[k], seq![]) by {}
    assert forall|k: int| 0 <= k < locs.len() implies {
        &&& (#[trigger] r.1[k]).id == locs[k].id
        &&& r.1[k].name == locs[k].name
        &&& r.1[k].description == locs[k].description
        &&& r.1[k].region_id == locs[k].region_id
        &&& r.1[k].dangerous == locs[k].dangerous
        &&& r.1[k].corpse_ids == locs[k].corpse_ids
    } by {
        assert(with_exits(linked[k], seq![]) == with_exits(added.0[k], seq![]));
        assert(added.0[k] == locs[k]);
    }
    assert forall|k: int| locs.len() <= k < r.1.len() implies
        exists|j: int| 0 <= j < cl.len() && made_from(#[trigger] r.1[k], #[trigger] cl[j], region_id) by {
        assert(with_exits(linked[k], seq![]) == with_exits(added.0[k], seq![]));
        let j = choose|j: int| 0 <= j < cl.len() && made_from(added.0[k], cl[j], region_id);
        assert(made_from(linked[k], cl[j], region_id));
    }
}

} // verus!
