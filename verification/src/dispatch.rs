//! Bounded dispatch: which file may be started next, with no more than a
//! fixed number of files of one group in flight at any time.

use crate::plan::{item_views, Batch, WorkItem, WorkItemView};
use vstd::prelude::*;

verus! {

/// How many files of one group are worked on at once, unless told otherwise.
pub const DEFAULT_PERMITS: usize = 10;

/// The mathematical content of a [`PermitPool`].
pub struct PoolView {
    pub capacity: nat,
    pub held: nat,
}

impl PoolView {
    /// No more permits are out than the pool has.
    pub open spec fn wf(self) -> bool {
        self.held <= self.capacity
    }

    /// Whether a permit is free.
    pub open spec fn has_free(self) -> bool {
        self.held < self.capacity
    }

    /// The pool after an attempt to take a permit.
    pub open spec fn acquired(self) -> PoolView {
        if self.has_free() {
            PoolView { held: self.held + 1, ..self }
        } else {
            self
        }
    }

    /// The pool after a permit was handed back.
    pub open spec fn released(self) -> PoolView {
        if self.held > 0 {
            PoolView { held: (self.held - 1) as nat, ..self }
        } else {
            self
        }
    }
}

/// A pool of permits of fixed capacity. A task holds one permit for as long
/// as it works.
pub struct PermitPool {
    capacity: usize,
    held: usize,
}

impl View for PermitPool {
    type V = PoolView;

    closed spec fn view(&self) -> PoolView {
        PoolView { capacity: self.capacity as nat, held: self.held as nat }
    }
}

impl PermitPool {
    /// A pool with all of its permits free.
    pub fn new(capacity: usize) -> (p: PermitPool)
        ensures
            p@ == (PoolView { capacity: capacity as nat, held: 0 }),
            p@.wf(),
    {
        PermitPool { capacity, held: 0 }
    }

    pub fn capacity(&self) -> (n: usize)
        ensures
            n == self@.capacity,
    {
        self.capacity
    }

    /// The number of permits that are out.
    pub fn held(&self) -> (n: usize)
        ensures
            n == self@.held,
    {
        self.held
    }

    /// The number of permits that are free.
    pub fn available(&self) -> (n: usize)
        requires
            self@.wf(),
        ensures
            n == self@.capacity - self@.held,
    {
        self.capacity - self.held
    }

    /// Takes a permit if one is free, and says whether it did.
    pub fn try_acquire(&mut self) -> (granted: bool)
        requires
            old(self)@.wf(),
        ensures
            granted == old(self)@.has_free(),
            final(self)@ == old(self)@.acquired(),
            final(self)@.wf(),
    {
        if self.held < self.capacity {
            self.held = self.held + 1;
            true
        } else {
            false
        }
    }

    /// Hands a permit back, and says whether one was out.
    pub fn release(&mut self) -> (returned: bool)
        requires
            old(self)@.wf(),
        ensures
            returned == (old(self)@.held > 0),
            final(self)@ == old(self)@.released(),
            final(self)@.wf(),
    {
        if self.held > 0 {
            self.held = self.held - 1;
            true
        } else {
            false
        }
    }
}

/// The work of one group and how far its dispatch has come.
pub struct LaneView {
    pub group: usize,
    pub items: Seq<WorkItemView>,
    /// How many of the items were started, from the first on.
    pub started: nat,
    pub pool: PoolView,
}

impl LaneView {
    /// No more permits are out than the pool has, or than items were
    /// started; and no more items were started than there are.
    pub open spec fn wf(self) -> bool {
        &&& self.pool.wf()
        &&& self.pool.held <= self.started <= self.items.len()
    }

    /// An item is waiting and a permit is free.
    pub open spec fn ready(self) -> bool {
        self.started < self.items.len() && self.pool.has_free()
    }

    /// The lane after its next item was started.
    pub open spec fn begun(self) -> LaneView {
        LaneView { started: self.started + 1, pool: self.pool.acquired(), ..self }
    }

    /// The lane after one of its items in flight has ended.
    pub open spec fn ended(self) -> LaneView {
        LaneView { pool: self.pool.released(), ..self }
    }
}

/// Every lane is consistent: in particular, no group has more permits out
/// than its pool holds.
pub open spec fn lanes_wf(lanes: Seq<LaneView>) -> bool {
    forall|k: int| 0 <= k < lanes.len() ==> (#[trigger] lanes[k]).wf()
}

/// Lane `i` is ready and no lane before it is.
pub open spec fn is_first_ready(lanes: Seq<LaneView>, i: int) -> bool {
    &&& 0 <= i < lanes.len()
    &&& lanes[i].ready()
    &&& forall|j: int| 0 <= j < i ==> !(#[trigger] lanes[j]).ready()
}

/// The first lane that is ready, if any is.
pub open spec fn first_ready(lanes: Seq<LaneView>) -> Option<int> {
    if exists|i: int| is_first_ready(lanes, i) {
        Some(choose|i: int| is_first_ready(lanes, i))
    } else {
        None
    }
}

/// Lane `i` is for `group` and has an item in flight, and no lane before it
/// is such.
pub open spec fn is_first_busy(lanes: Seq<LaneView>, group: usize, i: int) -> bool {
    &&& 0 <= i < lanes.len()
    &&& lanes[i].group == group && lanes[i].pool.held > 0
    &&& forall|j: int|
        0 <= j < i ==> !((#[trigger] lanes[j]).group == group && lanes[j].pool.held > 0)
}

/// The first lane for `group` that has an item in flight, if there is one.
pub open spec fn first_busy(lanes: Seq<LaneView>, group: usize) -> Option<int> {
    if exists|i: int| is_first_busy(lanes, group, i) {
        Some(choose|i: int| is_first_busy(lanes, group, i))
    } else {
        None
    }
}

/// The lanes after an attempt to start an item: the first ready lane begins
/// its next item; without a ready lane nothing changes.
pub open spec fn after_start(lanes: Seq<LaneView>) -> Seq<LaneView> {
    match first_ready(lanes) {
        Some(i) => lanes.update(i, lanes[i].begun()),
        None => lanes,
    }
}

/// The item that an attempt to start one hands out.
pub open spec fn started_item(lanes: Seq<LaneView>) -> Option<WorkItemView> {
    match first_ready(lanes) {
        Some(i) => Some(lanes[i].items[lanes[i].started as int]),
        None => None,
    }
}

/// The lanes after an item of `group` has ended: its permit is free again.
/// Where no item of the group is in flight, nothing changes.
pub open spec fn after_finish(lanes: Seq<LaneView>, group: usize) -> Seq<LaneView> {
    match first_busy(lanes, group) {
        Some(i) => lanes.update(i, lanes[i].ended()),
        None => lanes,
    }
}

/// There is at most one first ready lane.
pub proof fn lemma_first_ready_unique(lanes: Seq<LaneView>, i: int)
    requires
        is_first_ready(lanes, i),
    ensures
        first_ready(lanes) == Some(i),
{
    let j = choose|j: int| is_first_ready(lanes, j);
    assert(is_first_ready(lanes, j));
    if j < i {
        assert(!lanes[j].ready());
    }
    if i < j {
        assert(!lanes[i].ready());
    }
}

/// There is at most one first busy lane of a group.
pub proof fn lemma_first_busy_unique(lanes: Seq<LaneView>, group: usize, i: int)
    requires
        is_first_busy(lanes, group, i),
    ensures
        first_busy(lanes, group) == Some(i),
{
    let j = choose|j: int| is_first_busy(lanes, group, j);
    assert(is_first_busy(lanes, group, j));
    if j < i {
        assert(!(lanes[j].group == group && lanes[j].pool.held > 0));
    }
    if i < j {
        assert(!(lanes[i].group == group && lanes[i].pool.held > 0));
    }
}

/// What is asked of a dispatcher.
pub enum Request {
    /// Start the next item that may be started.
    Start,
    /// An item of the group has ended.
    Finish { group: usize },
}

/// The lanes after one request.
pub open spec fn after_request(lanes: Seq<LaneView>, request: Request) -> Seq<LaneView> {
    match request {
        Request::Start => after_start(lanes),
        Request::Finish { group } => after_finish(lanes, group),
    }
}

/// The lanes after a sequence of requests.
pub open spec fn after_requests(lanes: Seq<LaneView>, requests: Seq<Request>) -> Seq<LaneView>
    decreases requests.len(),
{
    if requests.len() == 0 {
        lanes
    } else {
        after_requests(after_request(lanes, requests[0]), requests.drop_first())
    }
}

/// One request leaves consistent lanes consistent.
pub proof fn lemma_request_keeps_bound(lanes: Seq<LaneView>, request: Request)
    requires
        lanes_wf(lanes),
    ensures
        lanes_wf(after_request(lanes, request)),
        after_request(lanes, request).len() == lanes.len(),
{
    let next = after_request(lanes, request);
    match request {
        Request::Start => {
            if let Some(i) = first_ready(lanes) {
                assert(is_first_ready(lanes, i));
                assert forall|k: int| 0 <= k < next.len() implies (#[trigger] next[k]).wf() by {
                    assert(lanes[k].wf());
                }
            }
        },
        Request::Finish { group } => {
            if let Some(i) = first_busy(lanes, group) {
                assert(is_first_busy(lanes, group, i));
                assert forall|k: int| 0 <= k < next.len() implies (#[trigger] next[k]).wf() by {
                    assert(lanes[k].wf());
                }
            }
        },
    }
}

/// Whatever is asked of a dispatcher and in whatever order, no group ever
/// has more permits out than the capacity of its pool, which never changes.
pub proof fn lemma_permits_stay_bounded(lanes: Seq<LaneView>, requests: Seq<Request>)
    requires
        lanes_wf(lanes),
    ensures
        after_requests(lanes, requests).len() == lanes.len(),
        forall|k: int|
            0 <= k < lanes.len() ==> {
                &&& (#[trigger] after_requests(lanes, requests)[k]).pool.held <= lanes[k].pool.capacity
                &&& after_requests(lanes, requests)[k].pool.capacity == lanes[k].pool.capacity
            },
        lanes_wf(after_requests(lanes, requests)),
    decreases requests.len(),
{
    if requests.len() > 0 {
        let next = after_request(lanes, requests[0]);
        lemma_request_keeps_bound(lanes, requests[0]);
        lemma_permits_stay_bounded(next, requests.drop_first());
        assert forall|k: int| 0 <= k < lanes.len() implies next[k].pool.capacity
            == lanes[k].pool.capacity by {
            match requests[0] {
                Request::Start => {
                    if let Some(i) = first_ready(lanes) {
                        assert(is_first_ready(lanes, i));
                    }
                },
                Request::Finish { group } => {
                    if let Some(i) = first_busy(lanes, group) {
                        assert(is_first_busy(lanes, group, i));
                    }
                },
            }
        }
        let end = after_requests(lanes, requests);
        assert forall|k: int| 0 <= k < lanes.len() implies {
            &&& (#[trigger] end[k]).pool.held <= lanes[k].pool.capacity
            &&& end[k].pool.capacity == lanes[k].pool.capacity
        } by {
            assert(end[k].pool.capacity == next[k].pool.capacity);
            assert(end[k].wf());
        }
    } else {
        assert forall|k: int| 0 <= k < lanes.len() implies (#[trigger] after_requests(
            lanes,
            requests,
        )[k]).pool.held <= lanes[k].pool.capacity by {
            assert(lanes[k].wf());
        }
    }
}

/// A lane without items is never ready: a group without files starts
/// nothing, and so reports nothing.
pub proof fn lemma_empty_lane_never_starts(lanes: Seq<LaneView>, k: int)
    requires
        lanes_wf(lanes),
        0 <= k < lanes.len(),
        lanes[k].items.len() == 0,
    ensures
        first_ready(lanes) != Some(k),
        after_start(lanes)[k] == lanes[k],
{
    if let Some(i) = first_ready(lanes) {
        assert(is_first_ready(lanes, i));
    }
}

/// The dispatch state of one lane.
struct Lane {
    started: usize,
    pool: PermitPool,
}

/// Hands out the work of a run item by item, each group in the order of its
/// files, and holds back where a group has as many items in flight as its
/// pool has permits.
pub struct Dispatcher {
    batches: Vec<Batch>,
    lanes: Vec<Lane>,
}

impl View for Dispatcher {
    type V = Seq<LaneView>;

    closed spec fn view(&self) -> Seq<LaneView> {
        Seq::new(
            self.batches@.len(),
            |k: int|
                LaneView {
                    group: self.batches@[k].group,
                    items: item_views(self.batches@[k].items@),
                    started: self.lanes@[k].started as nat,
                    pool: self.lanes@[k].pool@,
                },
        )
    }
}

impl Dispatcher {
    /// There is a lane for every batch, and the lanes are consistent.
    pub closed spec fn wf(&self) -> bool {
        &&& self.batches@.len() == self.lanes@.len()
        &&& lanes_wf(self@)
    }

    /// What `wf` says of the lanes.
    pub proof fn lemma_wf(&self)
        requires
            self.wf(),
        ensures
            lanes_wf(self@),
    {
    }

    /// A dispatcher for the batches, with nothing started and a pool of
    /// `capacity` permits for each.
    pub fn new(batches: Vec<Batch>, capacity: usize) -> (d: Dispatcher)
        ensures
            d.wf(),
            d@.len() == batches@.len(),
            forall|k: int|
                0 <= k < batches@.len() ==> (#[trigger] d@[k]) == (LaneView {
                    group: batches@[k].group,
                    items: item_views(batches@[k].items@),
                    started: 0,
                    pool: PoolView { capacity: capacity as nat, held: 0 },
                }),
    {
        let mut lanes: Vec<Lane> = Vec::new();
        let mut i: usize = 0;
        while i < batches.len()
            invariant
                i <= batches.len(),
                lanes@.len() == i,
                forall|k: int|
                    0 <= k < i ==> (#[trigger] lanes@[k]).started == 0 && lanes@[k].pool@ == (
                    PoolView { capacity: capacity as nat, held: 0 }),
            decreases batches.len() - i,
        {
            lanes.push(Lane { started: 0, pool: PermitPool::new(capacity) });
            i = i + 1;
        }
        Dispatcher { batches, lanes }
    }

    /// The number of lanes: one for every batch.
    pub fn len(&self) -> (n: usize)
        ensures
            n == self@.len(),
    {
        self.batches.len()
    }

    /// How many items of the lane at `index` are in flight.
    pub fn in_flight(&self, index: usize) -> (n: usize)
        requires
            self.wf(),
            index < self@.len(),
        ensures
            n == self@[index as int].pool.held,
    {
        self.lanes[index].pool.held()
    }

    /// Starts the next item that may be started: the next one of the first
    /// lane that has an item waiting and a permit free. The item takes the
    /// permit. Without such a lane nothing changes.
    pub fn start_next(&mut self) -> (item: Option<WorkItem>)
        requires
            old(self).wf(),
        ensures
            final(self).wf(),
            final(self)@ == after_start(old(self)@),
            match item {
                Some(w) => started_item(old(self)@) == Some(w@),
                None => started_item(old(self)@) is None,
            },
    {
        let mut i: usize = 0;
        while i < self.lanes.len()
            invariant
                self.wf(),
                *self == *old(self),
                i <= self.lanes@.len(),
                forall|j: int| 0 <= j < i ==> !(#[trigger] self@[j]).ready(),
            decreases self.lanes@.len() - i,
        {
            assert(self@[i as int].wf());
            let waiting = self.lanes[i].started < self.batches[i].items.len();
            if waiting && self.lanes[i].pool.held() < self.lanes[i].pool.capacity() {
                proof {
                    assert(is_first_ready(self@, i as int));
                    lemma_first_ready_unique(self@, i as int);
                }
                let item = self.batches[i].items[self.lanes[i].started].duplicate();
                let lane = &mut self.lanes[i];
                lane.pool.try_acquire();
                lane.started = lane.started + 1;
                proof {
                    assert(self@ =~= old(self)@.update(i as int, old(self)@[i as int].begun()));
                    assert forall|k: int| 0 <= k < self@.len() implies (#[trigger] self@[k]).wf() by {
                        assert(old(self)@[k].wf());
                    }
                }
                return Some(item);
            }
            i = i + 1;
        }
        proof {
            if exists|k: int| is_first_ready(self@, k) {
                let k = choose|k: int| is_first_ready(self@, k);
                assert(!self@[k].ready());
            }
        }
        None
    }

    /// Takes note that an item of `group` has ended, and frees its permit.
    /// Says whether an item of the group was in flight.
    pub fn finish(&mut self, group: usize) -> (freed: bool)
        requires
            old(self).wf(),
        ensures
            final(self).wf(),
            final(self)@ == after_finish(old(self)@, group),
            freed == first_busy(old(self)@, group) is Some,
    {
        let mut i: usize = 0;
        while i < self.lanes.len()
            invariant
                self.wf(),
                *self == *old(self),
                i <= self.lanes@.len(),
                forall|j: int|
                    0 <= j < i ==> !((#[trigger] self@[j]).group == group && self@[j].pool.held > 0),
            decreases self.lanes@.len() - i,
        {
            assert(self@[i as int].wf());
            if self.batches[i].group == group && self.lanes[i].pool.held() > 0 {
                proof {
                    assert(is_first_busy(self@, group, i as int));
                    lemma_first_busy_unique(self@, group, i as int);
                }
                let lane = &mut self.lanes[i];
                lane.pool.release();
                proof {
                    assert(self@ =~= old(self)@.update(i as int, old(self)@[i as int].ended()));
                    assert forall|k: int| 0 <= k < self@.len() implies (#[trigger] self@[k]).wf() by {
                        assert(old(self)@[k].wf());
                    }
                }
                return true;
            }
            i = i + 1;
        }
        proof {
            if exists|k: int| is_first_busy(self@, group, k) {
                let k = choose|k: int| is_first_busy(self@, group, k);
                assert(!(self@[k].group == group && self@[k].pool.held > 0));
            }
        }
        false
    }
}

} // verus!
