//! Decisions of the client-side streaming coordinator: when the subscription
//! window moves, what to subscribe to, and what to do with each dirty chunk.

use vstd::prelude::*;
use vstd::string::StringExecFns;
use crate::coords::XZCoords;
use crate::dirty::{
    due_coords, in_window, pending_after, retry_due, window, DirtyChunks, Retry,
    RETRY_DELAY_NANOS,
};
use crate::text::{decimal_text, push_decimal};

verus! {

/// The rectangle of chunk addresses that a pair of subscriptions covers,
/// bounds included.
#[derive(Clone, Copy, Debug, PartialEq, Eq, Structural)]
pub struct SubscriptionWindow {
    pub min_x: i64,
    pub max_x: i64,
    pub min_z: i64,
    pub max_z: i64,
}

/// Text of the query that selects the rows of `table` inside `bounds`.
pub open spec fn query_text(table: Seq<char>, bounds: SubscriptionWindow) -> Seq<char> {
    "SELECT * FROM "@ + table + " WHERE grid_x >= "@ + decimal_text(bounds.min_x as int)
        + " AND grid_x <= "@ + decimal_text(bounds.max_x as int) + " AND grid_z >= "@
        + decimal_text(bounds.min_z as int) + " AND grid_z <= "@ + decimal_text(
        bounds.max_z as int,
    )
}

/// Name of the render entity that shows the chunk at `coord`.
pub open spec fn entity_name_text(coord: XZCoords) -> Seq<char> {
    "TerrainChunk_"@ + decimal_text(coord.x as int) + "_"@ + decimal_text(coord.z as int)
}

impl SubscriptionWindow {
    /// The window that reaches `radius` chunks from `center` in every
    /// direction.
    pub open spec fn centered(center: XZCoords, radius: u8) -> SubscriptionWindow {
        SubscriptionWindow {
            min_x: (center.x - radius) as i64,
            max_x: (center.x + radius) as i64,
            min_z: (center.z - radius) as i64,
            max_z: (center.z + radius) as i64,
        }
    }

    /// The chunk at `coord` lies inside the window.
    pub open spec fn covers(self, coord: XZCoords) -> bool {
        self.min_x <= coord.x <= self.max_x && self.min_z <= coord.z <= self.max_z
    }

    /// The window that reaches `radius` chunks from `center` in every
    /// direction.
    pub fn around(center: XZCoords, radius: u8) -> (bounds: Self)
        ensures
            bounds == Self::centered(center, radius),
    {
        SubscriptionWindow {
            min_x: center.x as i64 - radius as i64,
            max_x: center.x as i64 + radius as i64,
            min_z: center.z as i64 - radius as i64,
            max_z: center.z as i64 + radius as i64,
        }
    }

    /// Tells whether the chunk at `coord` lies inside the window.
    pub fn contains(&self, coord: XZCoords) -> (inside: bool)
        ensures
            inside == self.covers(coord),
    {
        self.min_x <= coord.x as i64 && coord.x as i64 <= self.max_x && self.min_z
            <= coord.z as i64 && coord.z as i64 <= self.max_z
    }

    /// The query that selects the rows of `table` inside the window.
    pub fn query(&self, table: &str) -> (sql: String)
        ensures
            sql@ == query_text(table@, *self),
    {
        let mut sql = String::new();
        sql.append("SELECT * FROM ");
        sql.append(table);
        sql.append(" WHERE grid_x >= ");
        push_decimal(&mut sql, self.min_x);
        sql.append(" AND grid_x <= ");
        push_decimal(&mut sql, self.max_x);
        sql.append(" AND grid_z >= ");
        push_decimal(&mut sql, self.min_z);
        sql.append(" AND grid_z <= ");
        push_decimal(&mut sql, self.max_z);
        assert(sql@ =~= query_text(table@, *self));
        sql
    }

    /// The query for the vertex rows inside the window.
    pub fn vertex_query(&self) -> (sql: String)
        ensures
            sql@ == query_text("chunk_vertex"@, *self),
    {
        self.query("chunk_vertex")
    }

    /// The query for the mesh rows inside the window.
    pub fn mesh_query(&self) -> (sql: String)
        ensures
            sql@ == query_text("chunk_mesh"@, *self),
    {
        self.query("chunk_mesh")
    }
}

/// Name of the render entity that shows the chunk at `coord`.
pub fn entity_name(coord: XZCoords) -> (name: String)
    ensures
        name@ == entity_name_text(coord),
{
    let mut name = String::new();
    name.append("TerrainChunk_");
    push_decimal(&mut name, coord.x as i64);
    name.append("_");
    push_decimal(&mut name, coord.z as i64);
    assert(name@ =~= entity_name_text(coord));
    name
}

/// `handle` is the subscription that `subscribe` opened for the rows of
/// `table` inside `bounds`.
pub open spec fn opened<H, S: Fn(String) -> H>(
    subscribe: S,
    table: Seq<char>,
    bounds: SubscriptionWindow,
    handle: Option<H>,
) -> bool {
    exists|sql: String, live: H|
        sql@ == query_text(table, bounds) && handle == Some(live) && #[trigger] call_ensures(
            subscribe,
            (sql,),
            live,
        )
}

/// The subscriptions that are live and the centre of the window they cover.
/// `H` is the store's token for one live subscription.
pub struct TerrainSubscription<H> {
    pub vertex_handle: Option<H>,
    pub mesh_handle: Option<H>,
    pub last_center: Option<XZCoords>,
}

impl<H> TerrainSubscription<H> {
    /// The state before the first window: nothing subscribed, no centre.
    pub fn new() -> (sub: Self)
        ensures
            sub.vertex_handle is None,
            sub.mesh_handle is None,
            sub.last_center is None,
    {
        TerrainSubscription { vertex_handle: None, mesh_handle: None, last_center: None }
    }

    /// The window has to be set up anew: after a reconnect, and whenever the
    /// camera's chunk is not the centre of the current window.
    pub open spec fn stale(&self, reconnect: bool, center: XZCoords) -> bool {
        reconnect || self.last_center != Some(center)
    }

    /// Tells whether the window has to be set up anew for `center`.
    pub fn window_changed(&self, reconnect: bool, center: XZCoords) -> (changed: bool)
        ensures
            changed == self.stale(reconnect, center),
    {
        if reconnect {
            return true;
        }
        match self.last_center {
            Some(last) => !(last == center),
            None => true,
        }
    }

    /// Decides the window for this tick. Where the window is stale, every
    /// chunk of the square around `center` is marked dirty, beside those that
    /// are dirty already, and the bounds to subscribe to are returned;
    /// otherwise nothing changes.
    pub fn plan_window(&self, dirty: &mut DirtyChunks, reconnect: bool, center: XZCoords) -> (plan:
        Option<SubscriptionWindow>)
        ensures
            plan == if self.stale(reconnect, center) {
                Some(SubscriptionWindow::centered(center, old(dirty)@.radius))
            } else {
                None
            },
            final(dirty)@.dirty == if self.stale(reconnect, center) {
                old(dirty)@.dirty.union(window(center, old(dirty)@.radius as int))
            } else {
                old(dirty)@.dirty
            },
            final(dirty)@.radius == old(dirty)@.radius,
            final(dirty)@.retries == old(dirty)@.retries,
    {
        if self.window_changed(reconnect, center) {
            dirty.populate_radius(center);
            Some(SubscriptionWindow::around(center, dirty.radius()))
        } else {
            None
        }
    }

    /// Follows the camera for one tick. Where the window is stale, every
    /// chunk of the square around `center` is marked dirty, beside those that
    /// are dirty already, `subscribe` opens the vertex and the mesh
    /// subscription for the new window, and only then `unsubscribe` cancels
    /// the subscriptions they replace. Otherwise nothing changes. Tells
    /// whether the window was set up anew.
    pub fn update_window<S: Fn(String) -> H, U: Fn(H)>(
        &mut self,
        dirty: &mut DirtyChunks,
        reconnect: bool,
        center: XZCoords,
        subscribe: S,
        unsubscribe: U,
    ) -> (changed: bool)
        requires
            forall|sql: String| call_requires(subscribe, (sql,)),
            forall|handle: H| call_requires(unsubscribe, (handle,)),
        ensures
            changed == old(self).stale(reconnect, center),
            !changed ==> *final(self) == *old(self),
            changed ==> final(self).last_center == Some(center),
            changed ==> opened(
                subscribe,
                "chunk_vertex"@,
                SubscriptionWindow::centered(center, old(dirty)@.radius),
                final(self).vertex_handle,
            ),
            changed ==> opened(
                subscribe,
                "chunk_mesh"@,
                SubscriptionWindow::centered(center, old(dirty)@.radius),
                final(self).mesh_handle,
            ),
            changed ==> (old(self).vertex_handle matches Some(handle) ==> call_ensures(
                unsubscribe,
                (handle,),
                (),
            )),
            changed ==> (old(self).mesh_handle matches Some(handle) ==> call_ensures(
                unsubscribe,
                (handle,),
                (),
            )),
            final(dirty)@.dirty == if changed {
                old(dirty)@.dirty.union(window(center, old(dirty)@.radius as int))
            } else {
                old(dirty)@.dirty
            },
            final(dirty)@.radius == old(dirty)@.radius,
            final(dirty)@.retries == old(dirty)@.retries,
    {
        match self.plan_window(dirty, reconnect, center) {
            Some(bounds) => {
                let vertex_sql = bounds.vertex_query();
                let mesh_sql = bounds.mesh_query();
                let ghost vertex_text = vertex_sql;
                let ghost mesh_text = mesh_sql;
                let vertex = subscribe(vertex_sql);
                let mesh = subscribe(mesh_sql);
                let ghost vertex_live = vertex;
                let ghost mesh_live = mesh;
                let previous = self.install(center, vertex, mesh);
                match previous.0 {
                    Some(handle) => unsubscribe(handle),
                    None => {},
                }
                match previous.1 {
                    Some(handle) => unsubscribe(handle),
                    None => {},
                }
                proof {
                    assert(call_ensures(subscribe, (vertex_text,), vertex_live));
                    assert(call_ensures(subscribe, (mesh_text,), mesh_live));
                }
                true
            },
            None => false,
        }
    }

    /// Notes that a subscription failed: the window counts as stale from now
    /// on, so that the next tick sets it up anew wherever the camera is.
    pub fn invalidate(&mut self)
        ensures
            final(self).last_center is None,
            final(self).vertex_handle == old(self).vertex_handle,
            final(self).mesh_handle == old(self).mesh_handle,
            forall|center: XZCoords| final(self).stale(false, center),
    {
        self.last_center = None;
    }

    /// Records the subscriptions that were just opened for the window around
    /// `center` and hands back the ones they replace, which may be cancelled
    /// now that their successors are live.
    pub fn install(&mut self, center: XZCoords, vertex: H, mesh: H) -> (previous: (
        Option<H>,
        Option<H>,
    ))
        ensures
            final(self).vertex_handle == Some(vertex),
            final(self).mesh_handle == Some(mesh),
            final(self).last_center == Some(center),
            previous.0 == old(self).vertex_handle,
            previous.1 == old(self).mesh_handle,
    {
        let mut vertex_slot: Option<H> = Some(vertex);
        let mut mesh_slot: Option<H> = Some(mesh);
        core::mem::swap(&mut self.vertex_handle, &mut vertex_slot);
        core::mem::swap(&mut self.mesh_handle, &mut mesh_slot);
        self.last_center = Some(center);
        (vertex_slot, mesh_slot)
    }
}

impl<H> Default for TerrainSubscription<H> {
    fn default() -> (sub: Self)
        ensures
            sub.vertex_handle is None,
            sub.mesh_handle is None,
            sub.last_center is None,
    {
        TerrainSubscription::new()
    }
}

/// What the local replica holds for one chunk.
#[derive(Clone, Copy, Debug, PartialEq, Eq, Structural)]
pub struct ChunkRows {
    /// The vertex row is there.
    pub vertex: bool,
    /// The mesh row is there.
    pub mesh: bool,
    /// The buffers of the two rows agree with each other.
    pub consistent: bool,
}

/// What to do with a chunk that was taken from the dirty set.
#[derive(Clone, Copy, Debug, PartialEq, Eq, Structural)]
pub enum Materialization {
    /// Both rows are there: build the render mesh and spawn its entity.
    Upload,
    /// No vertex row yet: ask the server for the chunk and look again later.
    Request,
    /// The mesh row has not arrived yet: look again later.
    Wait,
    /// The rows do not fit together: leave the chunk out.
    Skip,
}

/// The step that the rows found for a chunk call for.
pub open spec fn decide(rows: ChunkRows) -> Materialization {
    if !rows.vertex {
        Materialization::Request
    } else if !rows.mesh {
        Materialization::Wait
    } else if rows.consistent {
        Materialization::Upload
    } else {
        Materialization::Skip
    }
}

/// The chunk is looked at again after this step.
pub open spec fn retries(step: Materialization) -> bool {
    step == Materialization::Request || step == Materialization::Wait
}

/// Settles one chunk that was taken from the dirty set: decides the step
/// from the rows found for it, and puts the chunk on the waiting list where
/// the step calls for a later look.
pub fn settle(dirty: &mut DirtyChunks, coord: XZCoords, rows: ChunkRows) -> (step:
    Materialization)
    ensures
        step == decide(rows),
        final(dirty)@.retries == if retries(step) {
            old(dirty)@.retries.push(Retry { coord, remaining: RETRY_DELAY_NANOS })
        } else {
            old(dirty)@.retries
        },
        final(dirty)@.dirty == old(dirty)@.dirty,
        final(dirty)@.radius == old(dirty)@.radius,
{
    if !rows.vertex {
        dirty.schedule_retry(coord, RETRY_DELAY_NANOS);
        Materialization::Request
    } else if !rows.mesh {
        dirty.schedule_retry(coord, RETRY_DELAY_NANOS);
        Materialization::Wait
    } else if rows.consistent {
        Materialization::Upload
    } else {
        Materialization::Skip
    }
}

/// A chunk that was settled, with the step that was decided for it.
#[derive(Clone, Copy, Debug, PartialEq, Eq, Structural)]
pub struct Settled {
    pub coord: XZCoords,
    pub step: Materialization,
}

/// The chunks of a list of settled chunks, in order.
pub open spec fn settled_coords(steps: Seq<Settled>) -> Seq<XZCoords> {
    Seq::new(steps.len(), |i: int| steps[i].coord)
}

/// The waits that a list of settled chunks puts on the waiting list, in
/// order: one for every chunk that is looked at again.
pub open spec fn retries_of(steps: Seq<Settled>) -> Seq<Retry>
    decreases steps.len(),
{
    if steps.len() == 0 {
        Seq::empty()
    } else {
        let earlier = retries_of(steps.drop_last());
        let last = steps.last();
        if retries(last.step) {
            earlier.push(Retry { coord: last.coord, remaining: RETRY_DELAY_NANOS })
        } else {
            earlier
        }
    }
}

/// Drains the dirty set: every dirty chunk is taken out once, `lookup` is
/// asked what the local replica holds for it, and the chunk is settled
/// accordingly. Returns the chunks in the order in which they were settled,
/// each with the step that remains to be carried out for it.
pub fn drain<F: Fn(XZCoords) -> ChunkRows>(dirty: &mut DirtyChunks, lookup: F) -> (steps: Vec<
    Settled,
>)
    requires
        forall|coord: XZCoords| call_requires(lookup, (coord,)),
    ensures
        final(dirty)@.dirty == Set::<XZCoords>::empty(),
        final(dirty)@.radius == old(dirty)@.radius,
        final(dirty)@.retries == old(dirty)@.retries + retries_of(steps@),
        settled_coords(steps@).no_duplicates(),
        settled_coords(steps@).to_set() == old(dirty)@.dirty,
        forall|i: int|
            0 <= i < steps@.len() ==> exists|rows: ChunkRows|
                #[trigger] call_ensures(lookup, ((#[trigger] steps@[i]).coord,), rows)
                    && steps@[i].step == decide(rows),
{
    let ghost before = dirty@;
    let mut steps: Vec<Settled> = Vec::new();
    let mut left: usize = dirty.dirty_count();
    proof {
        assert(dirty@.retries + retries_of(steps@) =~= dirty@.retries);
        assert(before.dirty =~= dirty@.dirty.union(settled_coords(steps@).to_set()));
    }
    while left > 0
        invariant
            forall|coord: XZCoords| call_requires(lookup, (coord,)),
            dirty@.radius == before.radius,
            dirty@.retries == before.retries + retries_of(steps@),
            dirty@.dirty.finite(),
            left == dirty@.dirty.len(),
            settled_coords(steps@).no_duplicates(),
            before.dirty == dirty@.dirty.union(settled_coords(steps@).to_set()),
            dirty@.dirty.disjoint(settled_coords(steps@).to_set()),
            forall|i: int|
                0 <= i < steps@.len() ==> exists|rows: ChunkRows|
                    #[trigger] call_ensures(lookup, ((#[trigger] steps@[i]).coord,), rows)
                        && steps@[i].step == decide(rows),
        decreases left,
    {
        let ghost entry = dirty@;
        let ghost earlier = steps@;
        match dirty.pop_dirty() {
            Some(coord) => {
                let rows = lookup(coord);
                let step = settle(dirty, coord, rows);
                steps.push(Settled { coord, step });
                proof {
                    assert(steps@.drop_last() =~= earlier);
                    assert(steps@.last() == (Settled { coord, step }));
                    assert(dirty@.retries =~= before.retries + retries_of(steps@));
                    let coords = settled_coords(steps@);
                    let old_coords = settled_coords(earlier);
                    assert(coords =~= old_coords.push(coord));
                    assert forall|c: XZCoords| #[trigger]
                        coords.contains(c) <==> (old_coords.contains(c) || c == coord) by {
                        if old_coords.contains(c) {
                            let j = choose|j: int| 0 <= j < old_coords.len() && old_coords[j] == c;
                            assert(coords[j] == c);
                        }
                        if c == coord {
                            assert(coords[earlier.len() as int] == c);
                        }
                    }
                    assert(!old_coords.to_set().contains(coord));
                    assert(!old_coords.contains(coord));
                    assert(coords.no_duplicates());
                    assert(coords.to_set() =~= old_coords.to_set().insert(coord));
                    assert(before.dirty =~= dirty@.dirty.union(coords.to_set()));
                    assert(dirty@.dirty.disjoint(coords.to_set()));
                    assert forall|i: int| 0 <= i < steps@.len() implies exists|rows: ChunkRows|
                        #[trigger] call_ensures(lookup, ((#[trigger] steps@[i]).coord,), rows)
                            && steps@[i].step == decide(rows) by {
                        if i < earlier.len() {
                            assert(steps@[i] == earlier[i]);
                        } else {
                            assert(call_ensures(lookup, (steps@[i].coord,), rows));
                        }
                    }
                }
            },
            None => {
                proof {
                    assert(entry.dirty.len() == 0);
                }
            },
        }
        left = dirty.dirty_count();
    }
    proof {
        assert(dirty@.dirty =~= Set::<XZCoords>::empty()) by {
            if exists|c: XZCoords| dirty@.dirty.contains(c) {
                let c = choose|c: XZCoords| dirty@.dirty.contains(c);
                vstd::set_lib::lemma_set_empty_equivalency_len(dirty@.dirty);
            }
        }
        assert(settled_coords(steps@).to_set() =~= before.dirty);
        assert(dirty@.retries == before.retries + retries_of(steps@));
    }
    steps
}

/// Where no settled chunk is looked at again, nothing is put on the waiting
/// list: once the replica holds fitting rows for every dirty chunk, a pass
/// over the dirty set leaves nothing dirty and nothing waiting that was not
/// waiting before.
pub proof fn lemma_settled_for_good(steps: Seq<Settled>)
    requires
        forall|i: int| 0 <= i < steps.len() ==> !retries((#[trigger] steps[i]).step),
    ensures
        retries_of(steps) == Seq::<Retry>::empty(),
    decreases steps.len(),
{
    if steps.len() > 0 {
        lemma_settled_for_good(steps.drop_last());
    }
}

/// Every chunk that a pass could not finish waits exactly once for the
/// retry delay.
pub proof fn lemma_unfinished_chunks_wait(steps: Seq<Settled>, i: int)
    requires
        0 <= i < steps.len(),
        retries(steps[i].step),
    ensures
        retries_of(steps).contains(Retry { coord: steps[i].coord, remaining: RETRY_DELAY_NANOS }),
    decreases steps.len(),
{
    let wait = Retry { coord: steps[i].coord, remaining: RETRY_DELAY_NANOS };
    let earlier = retries_of(steps.drop_last());
    if i == steps.len() - 1 {
        assert(retries_of(steps) == earlier.push(wait));
        assert(retries_of(steps)[earlier.len() as int] == wait);
    } else {
        lemma_unfinished_chunks_wait(steps.drop_last(), i);
        let j = choose|j: int| 0 <= j < earlier.len() && earlier[j] == wait;
        assert(retries_of(steps)[j] == wait);
    }
}

/// A chunk whose mesh row has not arrived is not uploaded but waits; once
/// the retry delay has passed it is dirty again and waits no longer; and
/// where both rows are there and fit together by then, it is uploaded and
/// does not wait again.
pub proof fn lemma_waiting_chunk_is_uploaded_later(coord: XZCoords, consistent: bool, delta: u64)
    requires
        delta >= RETRY_DELAY_NANOS,
    ensures
        decide(ChunkRows { vertex: true, mesh: false, consistent }) == Materialization::Wait,
        retries_of(seq![Settled { coord, step: Materialization::Wait }]) == seq![
            Retry { coord, remaining: RETRY_DELAY_NANOS },
        ],
        due_coords(seq![Retry { coord, remaining: RETRY_DELAY_NANOS }], delta).contains(coord),
        pending_after(seq![Retry { coord, remaining: RETRY_DELAY_NANOS }], delta) == Seq::<
            Retry,
        >::empty(),
        decide(ChunkRows { vertex: true, mesh: true, consistent: true })
            == Materialization::Upload,
        retries_of(seq![Settled { coord, step: Materialization::Upload }]) == Seq::<
            Retry,
        >::empty(),
{
    let wait = Retry { coord, remaining: RETRY_DELAY_NANOS };
    let waited = seq![Settled { coord, step: Materialization::Wait }];
    let uploaded = seq![Settled { coord, step: Materialization::Upload }];
    assert(waited.drop_last() =~= Seq::<Settled>::empty());
    assert(uploaded.drop_last() =~= Seq::<Settled>::empty());
    reveal_with_fuel(retries_of, 2);
    assert(retries_of(waited) =~= seq![wait]);
    assert(retries_of(uploaded) =~= Seq::<Retry>::empty());
    let list = seq![wait];
    assert(list[0].coord == coord && retry_due(list[0], delta));
    assert(list.drop_last() =~= Seq::<Retry>::empty());
    reveal_with_fuel(pending_after, 2);
    assert(pending_after(list, delta) =~= Seq::<Retry>::empty());
}

/// A pass in which every dirty chunk was uploaded leaves nothing waiting,
/// so that nothing comes back into the dirty set however much time passes.
pub proof fn lemma_served_chunks_stay_drained(steps: Seq<Settled>, delta: u64)
    requires
        forall|i: int| 0 <= i < steps.len() ==> (#[trigger] steps[i]).step == Materialization::Upload,
    ensures
        retries_of(steps) == Seq::<Retry>::empty(),
        pending_after(retries_of(steps), delta) == Seq::<Retry>::empty(),
        due_coords(retries_of(steps), delta) == Set::<XZCoords>::empty(),
{
    lemma_settled_for_good(steps);
    assert(due_coords(Seq::<Retry>::empty(), delta) =~= Set::<XZCoords>::empty());
}

/// The subscription window around a centre covers exactly the chunks that
/// are marked dirty when the window moves there.
pub proof fn lemma_window_covers_dirty_square(center: XZCoords, radius: u8, coord: XZCoords)
    ensures
        SubscriptionWindow::centered(center, radius).covers(coord) <==> in_window(
            center,
            radius as int,
            coord,
        ),
        window(center, radius as int).contains(coord) <==> in_window(center, radius as int, coord),
{
}

} // verus!
