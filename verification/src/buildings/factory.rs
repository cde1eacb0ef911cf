use vstd::prelude::*;

use super::{BuildingPlacement, BuildingType, Footprint, PlacementView, type_footprint};

verus! {

/// Hands out building and goods-yard group identifiers in increasing order.
#[derive(Debug, Clone, Copy)]
pub struct BuildingFactory {
    next_id: u32,
    next_goods_yard_group_id: u32,
}

/// A freshly created building: no group, resource or entry point yet.
pub open spec fn fresh_placement(id: u32, t: BuildingType, x: i32, y: i32, group: Option<u32>) -> PlacementView {
    PlacementView {
        id,
        building_type: t,
        x,
        y,
        goods_yard_group_id: group,
        stockpile_resource: None,
        entry_point: None,
        footprint: type_footprint(t),
        components: Seq::empty(),
    }
}

/// Offset of the `k`-th goods-yard stack from the yard's anchor.
pub open spec fn stack_offset(k: int) -> (int, int) {
    if k == 0 {
        (0, 0)
    } else if k == 1 {
        (3, 0)
    } else if k == 2 {
        (0, 3)
    } else {
        (3, 3)
    }
}

/// One `create` call: from factory `before`, a building of type `t` at
/// `(x, y)` came out as `r`, and the factory became `after`.
pub open spec fn created(before: BuildingFactory, t: BuildingType, x: i32, y: i32, r: PlacementView, after: BuildingFactory) -> bool {
    &&& r == fresh_placement(before.next_building_id(), t, x, y, None)
    &&& after.next_building_id() == before.next_building_id() + 1
    &&& after.next_group_id() == before.next_group_id()
}

/// The `i`-th of a run of `create` calls.
pub open spec fn create_step(
    factories: Seq<BuildingFactory>,
    requests: Seq<(BuildingType, i32, i32)>,
    results: Seq<PlacementView>,
    i: int,
) -> bool {
    created(factories[i], requests[i].0, requests[i].1, requests[i].2, results[i], factories[i + 1])
}

/// Successive `create` calls hand out successive identifiers: the `i`-th
/// of a run of calls from a factory whose next identifier is `n` returns a
/// fresh building of the requested type and place with identifier `n + i`,
/// the factory then hands out `n` plus the number of calls, and the goods
/// yard group identifier does not move.
pub proof fn lemma_create_run(
    factories: Seq<BuildingFactory>,
    requests: Seq<(BuildingType, i32, i32)>,
    results: Seq<PlacementView>,
)
    requires
        factories.len() == requests.len() + 1,
        results.len() == requests.len(),
        forall|i: int| 0 <= i < requests.len() ==> #[trigger] create_step(factories, requests, results, i),
    ensures
        forall|i: int|
            0 <= i < results.len() ==> #[trigger] results[i] == fresh_placement(
                (factories[0].next_building_id() + i) as u32,
                requests[i].0,
                requests[i].1,
                requests[i].2,
                None,
            ),
        factories.last().next_building_id() == factories[0].next_building_id() + requests.len(),
        factories.last().next_group_id() == factories[0].next_group_id(),
    decreases requests.len(),
{
    if requests.len() > 0 {
        let n = requests.len() - 1;
        let f = factories.drop_last();
        let q = requests.drop_last();
        let r = results.drop_last();
        assert forall|i: int| 0 <= i < q.len() implies #[trigger] create_step(f, q, r, i) by {
            assert(create_step(factories, requests, results, i));
            assert(f[i] == factories[i] && f[i + 1] == factories[i + 1]);
        }
        lemma_create_run(f, q, r);
        assert(create_step(factories, requests, results, n));
        assert(f.last() == factories[n]);
        assert forall|i: int| 0 <= i < results.len() implies #[trigger] results[i] == fresh_placement(
            (factories[0].next_building_id() + i) as u32,
            requests[i].0,
            requests[i].1,
            requests[i].2,
            None,
        ) by {
            if i < n {
                assert(r[i] == results[i] && q[i] == requests[i]);
            }
        }
    }
}

impl BuildingFactory {
    /// The identifier the next building gets.
    pub closed spec fn next_building_id(&self) -> u32 {
        self.next_id
    }

    /// The identifier the next goods yard group gets.
    pub closed spec fn next_group_id(&self) -> u32 {
        self.next_goods_yard_group_id
    }

    /// The identifiers the next building and the next goods yard group get.
    pub fn next_ids(&self) -> (r: (u32, u32))
        ensures
            r == (self.next_building_id(), self.next_group_id()),
    {
        (self.next_id, self.next_goods_yard_group_id)
    }

    pub fn new() -> (r: BuildingFactory)
        ensures
            r.next_building_id() == 1,
            r.next_group_id() == 1,
    {
        BuildingFactory { next_id: 1, next_goods_yard_group_id: 1 }
    }

    /// A factory that continues after identifiers already in use.
    pub fn with_next_ids(next_id: u32, next_goods_yard_group_id: u32) -> (r: BuildingFactory)
        ensures
            r.next_building_id() == next_id,
            r.next_group_id() == next_goods_yard_group_id,
    {
        BuildingFactory { next_id, next_goods_yard_group_id }
    }

    /// A new building of type `t` anchored at `(x, y)`.
    pub fn create(&mut self, building_type: BuildingType, x: i32, y: i32) -> (r: BuildingPlacement)
        requires
            old(self).next_building_id() < u32::MAX,
        ensures
            created(*old(self), building_type, x, y, r@, *final(self)),
    {
        let placement = BuildingPlacement {
            id: self.next_id,
            building_type,
            x,
            y,
            goods_yard_group_id: None,
            stockpile_resource: None,
            entry_point: None,
            footprint: Footprint::for_type(building_type),
            components: Vec::new(),
        };
        assert(placement.components@ =~= Seq::<super::BuildingComponent>::empty());
        self.next_id = self.next_id + 1;
        placement
    }

    fn create_stack(&mut self, x: i32, y: i32, group_id: u32) -> (r: BuildingPlacement)
        requires
            old(self).next_building_id() < u32::MAX,
        ensures
            r@ == fresh_placement(old(self).next_building_id(), BuildingType::Stockpile, x, y, Some(group_id)),
            final(self).next_building_id() == old(self).next_building_id() + 1,
            final(self).next_group_id() == old(self).next_group_id(),
    {
        let placement = BuildingPlacement {
            id: self.next_id,
            building_type: BuildingType::Stockpile,
            x,
            y,
            goods_yard_group_id: Some(group_id),
            stockpile_resource: None,
            entry_point: None,
            footprint: Footprint::for_type(BuildingType::Stockpile),
            components: Vec::new(),
        };
        assert(placement.components@ =~= Seq::<super::BuildingComponent>::empty());
        self.next_id = self.next_id + 1;
        placement
    }

    /// The four stockpiles of a goods yard anchored at `(x, y)`, sharing a
    /// new group identifier, which is returned with them.
    pub fn create_goods_yard_stacks(&mut self, x: i32, y: i32) -> (r: (u32, Vec<BuildingPlacement>))
        requires
            old(self).next_building_id() + 4 <= u32::MAX,
            old(self).next_group_id() < u32::MAX,
            x + 3 <= i32::MAX,
            y + 3 <= i32::MAX,
        ensures
            r.0 == old(self).next_group_id(),
            r.1@.len() == 4,
            forall|k: int|
                0 <= k < 4 ==> (#[trigger] r.1@[k])@ == fresh_placement(
                    (old(self).next_building_id() + k) as u32,
                    BuildingType::Stockpile,
                    (x + stack_offset(k).0) as i32,
                    (y + stack_offset(k).1) as i32,
                    Some(old(self).next_group_id()),
                ),
            final(self).next_building_id() == old(self).next_building_id() + 4,
            final(self).next_group_id() == old(self).next_group_id() + 1,
    {
        let group_id = self.next_goods_yard_group_id;
        self.next_goods_yard_group_id = self.next_goods_yard_group_id + 1;
        let mut stacks: Vec<BuildingPlacement> = Vec::new();
        let a = self.create_stack(x, y, group_id);
        stacks.push(a);
        let b = self.create_stack(x + 3, y, group_id);
        stacks.push(b);
        let c = self.create_stack(x, y + 3, group_id);
        stacks.push(c);
        let d = self.create_stack(x + 3, y + 3, group_id);
        stacks.push(d);
        (group_id, stacks)
    }
}

} // verus!
