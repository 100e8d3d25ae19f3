//! The set of chunks whose geometry still has to be brought to the renderer,
//! and the chunks that wait for a later attempt.

use vstd::prelude::*;
use crate::coords::{abs_diff, XZCoords};

verus! {

/// Time a chunk waits before it is looked at again: one second, in
/// nanoseconds.
pub const RETRY_DELAY_NANOS: u64 = 1_000_000_000;

/// A chunk that waits for a later attempt, with the time left until then in
/// nanoseconds.
#[derive(Clone, Copy, Debug, PartialEq, Eq, Structural)]
pub struct Retry {
    pub coord: XZCoords,
    pub remaining: u64,
}

/// `c` lies in the square of chunks that reaches `radius` chunks from
/// `center` in every direction.
pub open spec fn in_window(center: XZCoords, radius: int, c: XZCoords) -> bool {
    abs_diff(c.x as int, center.x as int) <= radius && abs_diff(c.z as int, center.z as int)
        <= radius
}

/// The square of chunks around `center`.
pub open spec fn window(center: XZCoords, radius: int) -> Set<XZCoords> {
    Set::new(|c: XZCoords| in_window(center, radius, c))
}

/// The retry's time is up once `delta` more nanoseconds have passed.
pub open spec fn retry_due(retry: Retry, delta: u64) -> bool {
    retry.remaining <= delta
}

/// The retries that are still waiting after `delta` nanoseconds, in their
/// old order, each with `delta` less time left.
pub open spec fn pending_after(retries: Seq<Retry>, delta: u64) -> Seq<Retry>
    decreases retries.len(),
{
    if retries.len() == 0 {
        Seq::empty()
    } else {
        let earlier = pending_after(retries.drop_last(), delta);
        let last = retries.last();
        if retry_due(last, delta) {
            earlier
        } else {
            earlier.push(Retry { coord: last.coord, remaining: (last.remaining - delta) as u64 })
        }
    }
}

/// The chunks of the retries whose time is up after `delta` nanoseconds.
pub open spec fn due_coords(retries: Seq<Retry>, delta: u64) -> Set<XZCoords> {
    Set::new(
        |c: XZCoords|
            exists|i: int|
                0 <= i < retries.len() && (#[trigger] retries[i]).coord == c && retry_due(
                    retries[i],
                    delta,
                ),
    )
}

/// What a `DirtyChunks` stands for.
pub struct DirtyView {
    /// Chunks that need to be materialized.
    pub dirty: Set<XZCoords>,
    /// Reach of the window that `populate_radius` fills.
    pub radius: u8,
    /// Chunks that wait for a later attempt, oldest first.
    pub retries: Seq<Retry>,
}

/// Client-local record of the chunks whose geometry must be (re)built for
/// the renderer.
pub struct DirtyChunks {
    set: Vec<XZCoords>,
    radius: u8,
    retries: Vec<Retry>,
}

impl View for DirtyChunks {
    type V = DirtyView;

    closed spec fn view(&self) -> DirtyView {
        DirtyView { dirty: self.set@.to_set(), radius: self.radius, retries: self.retries@ }
    }
}

proof fn lemma_push_fresh(s: Seq<XZCoords>, e: XZCoords)
    requires
        s.no_duplicates(),
        !s.contains(e),
    ensures
        s.push(e).no_duplicates(),
        s.push(e).to_set() == s.to_set().insert(e),
        forall|a: XZCoords| #[trigger] s.push(e).contains(a) <==> (s.contains(a) || a == e),
{
    let t = s.push(e);
    assert forall|a: XZCoords| #[trigger] t.contains(a) <==> (s.contains(a) || a == e) by {
        if s.contains(a) {
            let i = choose|i: int| 0 <= i < s.len() && s[i] == a;
            assert(t[i] == a);
        }
        if a == e {
            assert(t[s.len() as int] == e);
        }
    }
    assert(t.to_set() =~= s.to_set().insert(e));
}

proof fn lemma_remove_at(s: Seq<XZCoords>, i: int)
    requires
        s.no_duplicates(),
        0 <= i < s.len(),
    ensures
        s.remove(i).no_duplicates(),
        s.remove(i).to_set() == s.to_set().remove(s[i]),
{
    let t = s.remove(i);
    assert forall|a: XZCoords| t.contains(a) <==> (s.contains(a) && a != s[i]) by {
        if t.contains(a) {
            let j = choose|j: int| 0 <= j < t.len() && t[j] == a;
            if j < i {
                assert(s[j] == a);
            } else {
                assert(s[j + 1] == a);
            }
        }
        if s.contains(a) && a != s[i] {
            let j = choose|j: int| 0 <= j < s.len() && s[j] == a;
            if j < i {
                assert(t[j] == a);
            } else {
                assert(t[j - 1] == a);
            }
        }
    }
    assert(t.to_set() =~= s.to_set().remove(s[i]));
}

impl DirtyChunks {
    #[verifier::type_invariant]
    closed spec fn wf(&self) -> bool {
        self.set@.no_duplicates()
    }

    /// An empty record whose window reaches `radius` chunks from its centre.
    pub fn new(radius: u8) -> (chunks: Self)
        ensures
            chunks@.dirty == Set::<XZCoords>::empty(),
            chunks@.radius == radius,
            chunks@.retries == Seq::<Retry>::empty(),
    {
        let chunks = DirtyChunks { set: Vec::new(), radius, retries: Vec::new() };
        assert(chunks.set@.to_set() =~= Set::<XZCoords>::empty());
        chunks
    }

    /// Reach of the window that `populate_radius` fills.
    pub fn radius(&self) -> (radius: u8)
        ensures
            radius == self@.radius,
    {
        self.radius
    }

    /// Number of dirty chunks.
    pub fn dirty_count(&self) -> (count: usize)
        ensures
            count == self@.dirty.len(),
            self@.dirty.finite(),
    {
        proof {
            use_type_invariant(self);
            self.set@.unique_seq_to_set();
            vstd::seq_lib::seq_to_set_is_finite(self.set@);
        }
        self.set.len()
    }

    /// Number of chunks that wait for a later attempt.
    pub fn retry_count(&self) -> (count: usize)
        ensures
            count == self@.retries.len(),
    {
        self.retries.len()
    }

    /// The `index`-th waiting chunk, oldest first.
    pub fn retry_at(&self, index: usize) -> (retry: Option<Retry>)
        ensures
            retry == if index < self@.retries.len() {
                Some(self@.retries[index as int])
            } else {
                None
            },
    {
        if index < self.retries.len() {
            Some(self.retries[index])
        } else {
            None
        }
    }

    /// Marks one chunk dirty.
    pub fn mark_dirty(&mut self, coord: XZCoords)
        ensures
            final(self)@.dirty == old(self)@.dirty.insert(coord),
            final(self)@.radius == old(self)@.radius,
            final(self)@.retries == old(self)@.retries,
    {
        proof {
            use_type_invariant(&*self);
        }
        if !self.is_dirty(coord) {
            let mut set = self.take_set();
            proof {
                lemma_push_fresh(set@, coord);
            }
            set.push(coord);
            self.set = set;
        } else {
            assert(self@.dirty.insert(coord) =~= self@.dirty);
        }
    }

    /// Marks every chunk of `coords` dirty, as when rows arrive from the
    /// store.
    pub fn mark_all_dirty(&mut self, coords: &Vec<XZCoords>)
        ensures
            final(self)@.dirty == old(self)@.dirty.union(coords@.to_set()),
            final(self)@.radius == old(self)@.radius,
            final(self)@.retries == old(self)@.retries,
    {
        let mut i: usize = 0;
        assert(self@.dirty =~= old(self)@.dirty.union(coords@.take(0).to_set()));
        while i < coords.len()
            invariant
                i <= coords@.len(),
                self@.dirty == old(self)@.dirty.union(coords@.take(i as int).to_set()),
                self@.radius == old(self)@.radius,
                self@.retries == old(self)@.retries,
            decreases coords@.len() - i,
        {
            self.mark_dirty(coords[i]);
            proof {
                let before = coords@.take(i as int);
                let after = coords@.take(i + 1);
                assert(after =~= before.push(coords@[i as int]));
                assert forall|c: XZCoords| #[trigger]
                    after.contains(c) <==> (before.contains(c) || c == coords@[i as int]) by {
                    if before.contains(c) {
                        let j = choose|j: int| 0 <= j < before.len() && before[j] == c;
                        assert(after[j] == c);
                    }
                    if c == coords@[i as int] {
                        assert(after[i as int] == c);
                    }
                }
                assert(self@.dirty =~= old(self)@.dirty.union(after.to_set()));
            }
            i += 1;
        }
        assert(coords@.take(i as int) =~= coords@);
    }

    /// Marks every chunk of the square around `center` dirty. Chunks that
    /// are dirty already stay dirty, also where they lie outside the square.
    pub fn populate_radius(&mut self, center: XZCoords)
        ensures
            final(self)@.dirty == old(self)@.dirty.union(
                window(center, old(self)@.radius as int),
            ),
            final(self)@.radius == old(self)@.radius,
            final(self)@.retries == old(self)@.retries,
    {
        proof {
            use_type_invariant(&*self);
        }
        let reach: i64 = self.radius as i64;
        let lo_x: i64 = lower_bound(center.x, self.radius);
        let hi_x: i64 = upper_bound(center.x, self.radius);
        let lo_z: i64 = lower_bound(center.z, self.radius);
        let hi_z: i64 = upper_bound(center.z, self.radius);
        let mut set: Vec<XZCoords> = self.take_set();
        let ghost before = set@;
        let kept: usize = set.len();
        let mut x: i64 = lo_x;
        while x <= hi_x
            invariant
                i32::MIN <= lo_x <= x <= hi_x + 1 <= i32::MAX + 1,
                i32::MIN <= lo_z <= hi_z <= i32::MAX,
                kept == before.len(),
                kept <= set@.len(),
                set@.take(kept as int) == before,
                set@.no_duplicates(),
                forall|c: XZCoords| #[trigger]
                    set@.contains(c) <==> (before.contains(c) || (lo_x <= c.x < x && lo_z <= c.z
                        <= hi_z)),
            decreases hi_x + 1 - x,
        {
            let mut z: i64 = lo_z;
            while z <= hi_z
                invariant
                    i32::MIN <= lo_x <= x <= hi_x <= i32::MAX,
                    i32::MIN <= lo_z <= z <= hi_z + 1 <= i32::MAX + 1,
                    kept == before.len(),
                    kept <= set@.len(),
                    set@.take(kept as int) == before,
                    set@.no_duplicates(),
                    forall|c: XZCoords| #[trigger]
                        set@.contains(c) <==> (before.contains(c) || (lo_x <= c.x < x && lo_z
                            <= c.z <= hi_z) || (c.x == x && lo_z <= c.z < z)),
                decreases hi_z + 1 - z,
            {
                let coord = XZCoords { x: x as i32, z: z as i32 };
                if !among_first(&set, kept, coord) {
                    proof {
                        lemma_push_fresh(set@, coord);
                        assert(set@.push(coord).take(kept as int) =~= set@.take(kept as int));
                    }
                    set.push(coord);
                }
                z += 1;
            }
            x += 1;
        }
        self.set = set;
        proof {
            assert forall|c: XZCoords|
                self.set@.to_set().contains(c) <==> before.to_set().union(
                    window(center, reach as int),
                ).contains(c) by {
                assert(self.set@.to_set().contains(c) <==> self.set@.contains(c));
                assert(before.to_set().contains(c) <==> before.contains(c));
            }
            assert(self.set@.to_set() =~= before.to_set().union(window(center, reach as int)));
        }
    }

    /// Takes one chunk out of the dirty set, if there is any.
    pub fn pop_dirty(&mut self) -> (popped: Option<XZCoords>)
        ensures
            match popped {
                Some(coord) => old(self)@.dirty.contains(coord) && final(self)@.dirty == old(
                    self,
                )@.dirty.remove(coord),
                None => old(self)@.dirty == Set::<XZCoords>::empty() && final(self)@.dirty == old(
                    self,
                )@.dirty,
            },
            final(self)@.radius == old(self)@.radius,
            final(self)@.retries == old(self)@.retries,
    {
        proof {
            use_type_invariant(&*self);
            if self.set@.len() > 0 {
                let last = self.set@.len() - 1;
                lemma_remove_at(self.set@, last);
                assert(self.set@.remove(last) =~= self.set@.drop_last());
                assert(self.set@.contains(self.set@[last]));
            } else {
                assert(self.set@.to_set() =~= Set::<XZCoords>::empty());
            }
        }
        let mut set = self.take_set();
        let popped = set.pop();
        self.set = set;
        popped
    }

    /// Moves the list of dirty chunks out, leaving an empty one.
    fn take_set(&mut self) -> (set: Vec<XZCoords>)
        ensures
            set@ == old(self).set@,
            final(self).set@ == Seq::<XZCoords>::empty(),
            final(self).radius == old(self).radius,
            final(self).retries == old(self).retries,
    {
        let mut set: Vec<XZCoords> = Vec::new();
        core::mem::swap(&mut self.set, &mut set);
        set
    }

    /// Tells whether a chunk is dirty.
    pub fn is_dirty(&self, coord: XZCoords) -> (dirty: bool)
        ensures
            dirty == self@.dirty.contains(coord),
    {
        self.position(coord).is_some()
    }

    /// Where `coord` stands in the list of dirty chunks.
    fn position(&self, coord: XZCoords) -> (found: Option<usize>)
        ensures
            found is Some <==> self.set@.contains(coord),
            found matches Some(i) ==> i < self.set@.len() && self.set@[i as int] == coord,
    {
        let mut i: usize = 0;
        while i < self.set.len()
            invariant
                i <= self.set@.len(),
                forall|j: int| 0 <= j < i ==> self.set@[j] != coord,
            decreases self.set@.len() - i,
        {
            if self.set[i] == coord {
                return Some(i);
            }
            i += 1;
        }
        None
    }

    /// Takes `coord` out of the dirty set if it is there.
    pub fn pop_if_dirty(&mut self, coord: XZCoords) -> (popped: Option<XZCoords>)
        ensures
            popped == if old(self)@.dirty.contains(coord) {
                Some(coord)
            } else {
                None
            },
            final(self)@.dirty == old(self)@.dirty.remove(coord),
            final(self)@.radius == old(self)@.radius,
            final(self)@.retries == old(self)@.retries,
    {
        proof {
            use_type_invariant(&*self);
        }
        match self.position(coord) {
            Some(i) => {
                let mut set = self.take_set();
                proof {
                    lemma_remove_at(set@, i as int);
                }
                set.remove(i);
                self.set = set;
                Some(coord)
            },
            None => {
                assert(self@.dirty.remove(coord) =~= self@.dirty);
                None
            },
        }
    }

    /// Tells whether no chunk is dirty.
    pub fn is_empty(&self) -> (empty: bool)
        ensures
            empty == (self@.dirty == Set::<XZCoords>::empty()),
            empty == (forall|coord: XZCoords| !self@.dirty.contains(coord)),
    {
        proof {
            if self.set@.len() > 0 {
                assert(self.set@.contains(self.set@[0]));
                assert(self@.dirty.contains(self.set@[0]));
            } else {
                assert(self.set@.to_set() =~= Set::<XZCoords>::empty());
                assert forall|coord: XZCoords| !self@.dirty.contains(coord) by {
                    assert(!Set::<XZCoords>::empty().contains(coord));
                }
            }
        }
        self.set.len() == 0
    }

    /// Puts `coord` on the waiting list, to become dirty again once
    /// `delay_nanos` nanoseconds have passed.
    pub fn schedule_retry(&mut self, coord: XZCoords, delay_nanos: u64)
        ensures
            final(self)@.retries == old(self)@.retries.push(
                Retry { coord, remaining: delay_nanos },
            ),
            final(self)@.dirty == old(self)@.dirty,
            final(self)@.radius == old(self)@.radius,
    {
        proof {
            use_type_invariant(&*self);
        }
        let mut retries: Vec<Retry> = Vec::new();
        core::mem::swap(&mut self.retries, &mut retries);
        retries.push(Retry { coord, remaining: delay_nanos });
        self.retries = retries;
    }

    /// Lets `delta_nanos` nanoseconds pass: every waiting chunk whose time is
    /// up becomes dirty again and leaves the waiting list, the others keep
    /// waiting.
    pub fn tick_retries(&mut self, delta_nanos: u64)
        ensures
            final(self)@.retries == pending_after(old(self)@.retries, delta_nanos),
            final(self)@.dirty == old(self)@.dirty.union(
                due_coords(old(self)@.retries, delta_nanos),
            ),
            final(self)@.radius == old(self)@.radius,
    {
        let ghost before = self@;
        let mut kept: Vec<Retry> = Vec::new();
        let mut i: usize = 0;
        while i < self.retries.len()
            invariant
                i <= self.retries@.len(),
                self.retries@ == before.retries,
                self@.radius == before.radius,
                kept@ == pending_after(before.retries.take(i as int), delta_nanos),
                self@.dirty == before.dirty.union(
                    due_coords(before.retries.take(i as int), delta_nanos),
                ),
            decreases self.retries@.len() - i,
        {
            let retry = self.retries[i];
            proof {
                let prefix = before.retries.take(i as int);
                let next = before.retries.take(i + 1);
                assert(next.drop_last() =~= prefix);
                assert(next.last() == retry);
                assert forall|c: XZCoords|
                    due_coords(next, delta_nanos).contains(c) <==> (due_coords(
                        prefix,
                        delta_nanos,
                    ).contains(c) || (c == retry.coord && retry_due(retry, delta_nanos))) by {
                    if due_coords(prefix, delta_nanos).contains(c) {
                        let j = choose|j: int|
                            0 <= j < prefix.len() && (#[trigger] prefix[j]).coord == c
                                && retry_due(prefix[j], delta_nanos);
                        assert(next[j].coord == c);
                    }
                    if c == retry.coord && retry_due(retry, delta_nanos) {
                        assert(next[i as int].coord == c);
                    }
                    if due_coords(next, delta_nanos).contains(c) {
                        let j = choose|j: int|
                            0 <= j < next.len() && (#[trigger] next[j]).coord == c && retry_due(
                                next[j],
                                delta_nanos,
                            );
                        if j < i {
                            assert(prefix[j].coord == c);
                        }
                    }
                }
            }
            if retry.remaining <= delta_nanos {
                self.mark_dirty(retry.coord);
                proof {
                    assert(self@.dirty =~= before.dirty.union(
                        due_coords(before.retries.take(i + 1), delta_nanos),
                    ));
                }
            } else {
                kept.push(Retry { coord: retry.coord, remaining: retry.remaining - delta_nanos });
                proof {
                    assert(due_coords(before.retries.take(i + 1), delta_nanos) =~= due_coords(
                        before.retries.take(i as int),
                        delta_nanos,
                    ));
                }
            }
            i += 1;
        }
        proof {
            assert(before.retries.take(i as int) =~= before.retries);
            use_type_invariant(&*self);
        }
        self.retries = kept;
    }
}

impl Default for DirtyChunks {
    fn default() -> (chunks: Self)
        ensures
            chunks@.dirty == Set::<XZCoords>::empty(),
            chunks@.radius == 0,
            chunks@.retries == Seq::<Retry>::empty(),
    {
        DirtyChunks::new(0)
    }
}

/// Letting time pass in two steps leaves the same chunks waiting, with the
/// same time left, as letting the whole time pass at once, and makes the same
/// chunks dirty.
pub proof fn lemma_ticks_add_up(retries: Seq<Retry>, first: u64, second: u64)
    requires
        first + second <= u64::MAX,
    ensures
        pending_after(pending_after(retries, first), second) == pending_after(
            retries,
            (first + second) as u64,
        ),
        due_coords(retries, first).union(due_coords(pending_after(retries, first), second))
            == due_coords(retries, (first + second) as u64),
    decreases retries.len(),
{
    let total = (first + second) as u64;
    let waiting = pending_after(retries, first);
    if retries.len() == 0 {
        assert(due_coords(retries, first).union(due_coords(waiting, second)) =~= due_coords(
            retries,
            total,
        ));
    } else {
        let earlier = retries.drop_last();
        let last = retries.last();
        lemma_ticks_add_up(earlier, first, second);
        let earlier_waiting = pending_after(earlier, first);
        lemma_due_coords_push(earlier, last, first);
        lemma_due_coords_push(earlier, last, total);
        assert(retries =~= earlier.push(last));
        if retry_due(last, first) {
            assert(waiting == earlier_waiting);
        } else {
            let aged = Retry { coord: last.coord, remaining: (last.remaining - first) as u64 };
            assert(waiting == earlier_waiting.push(aged));
            assert(waiting.drop_last() =~= earlier_waiting);
            assert(waiting.last() == aged);
            lemma_due_coords_push(earlier_waiting, aged, second);
            assert(retry_due(aged, second) == retry_due(last, total));
        }
        assert(due_coords(retries, first).union(due_coords(waiting, second)) =~= due_coords(
            retries,
            total,
        ));
    }
}

/// The chunks that come due in a list of retries are those that come due in
/// all but the last, and the last one's chunk if its time is up.
proof fn lemma_due_coords_push(earlier: Seq<Retry>, last: Retry, delta: u64)
    ensures
        due_coords(earlier.push(last), delta) == if retry_due(last, delta) {
            due_coords(earlier, delta).insert(last.coord)
        } else {
            due_coords(earlier, delta)
        },
{
    let all = earlier.push(last);
    assert forall|c: XZCoords|
        due_coords(all, delta).contains(c) <==> (due_coords(earlier, delta).contains(c) || (c
            == last.coord && retry_due(last, delta))) by {
        if due_coords(earlier, delta).contains(c) {
            let j = choose|j: int|
                0 <= j < earlier.len() && (#[trigger] earlier[j]).coord == c && retry_due(
                    earlier[j],
                    delta,
                );
            assert(all[j].coord == c);
        }
        if c == last.coord && retry_due(last, delta) {
            assert(all[earlier.len() as int].coord == c);
        }
        if due_coords(all, delta).contains(c) {
            let j = choose|j: int|
                0 <= j < all.len() && (#[trigger] all[j]).coord == c && retry_due(all[j], delta);
            if j < earlier.len() {
                assert(earlier[j].coord == c);
            }
        }
    }
    if retry_due(last, delta) {
        assert(due_coords(all, delta) =~= due_coords(earlier, delta).insert(last.coord));
    } else {
        assert(due_coords(all, delta) =~= due_coords(earlier, delta));
    }
}

/// Once as much time has passed as the longest wait, no chunk is left
/// waiting and every chunk that waited is dirty again.
pub proof fn lemma_every_retry_comes_due(retries: Seq<Retry>, delta: u64)
    requires
        forall|i: int| 0 <= i < retries.len() ==> (#[trigger] retries[i]).remaining <= delta,
    ensures
        pending_after(retries, delta) == Seq::<Retry>::empty(),
        forall|i: int|
            0 <= i < retries.len() ==> due_coords(retries, delta).contains(
                (#[trigger] retries[i]).coord,
            ),
    decreases retries.len(),
{
    if retries.len() > 0 {
        lemma_every_retry_comes_due(retries.drop_last(), delta);
        assert(retry_due(retries.last(), delta));
    }
}

/// Tells whether `coord` is among the first `count` chunks of `list`.
fn among_first(list: &Vec<XZCoords>, count: usize, coord: XZCoords) -> (found: bool)
    requires
        count <= list@.len(),
    ensures
        found == list@.take(count as int).contains(coord),
{
    let mut i: usize = 0;
    while i < count
        invariant
            i <= count <= list@.len(),
            forall|j: int| 0 <= j < i ==> list@[j] != coord,
        decreases count - i,
    {
        if list[i] == coord {
            assert(list@.take(count as int)[i as int] == coord);
            return true;
        }
        i += 1;
    }
    false
}

/// Lowest chunk index within `radius` of `center`.
fn lower_bound(center: i32, radius: u8) -> (bound: i64)
    ensures
        i32::MIN <= bound <= center,
        bound == if center - radius < i32::MIN {
            i32::MIN as int
        } else {
            center - radius
        },
{
    let wanted: i64 = center as i64 - radius as i64;
    if wanted < i32::MIN as i64 {
        i32::MIN as i64
    } else {
        wanted
    }
}

/// Highest chunk index within `radius` of `center`.
fn upper_bound(center: i32, radius: u8) -> (bound: i64)
    ensures
        center <= bound <= i32::MAX,
        bound == if center + radius > i32::MAX {
            i32::MAX as int
        } else {
            center + radius
        },
{
    let wanted: i64 = center as i64 + radius as i64;
    if wanted > i32::MAX as i64 {
        i32::MAX as i64
    } else {
        wanted
    }
}

} // verus!
