//! The mesh registry: a generation-checked slot table of square transforms.
//!
//! Application entities register a transform and receive a `MeshHandle`, a
//! slot index paired with the slot's generation. The registry never owns an
//! entity's lifetime: an entity releases its handle when it dies, the slot is
//! recycled under a higher generation, and every handle issued earlier for
//! that slot goes stale. Registration order is kept in a separate list, which
//! may contain stale handles between compaction passes; compaction prunes
//! them without reordering the survivors, so serialization order always
//! matches registration order.

use vstd::prelude::*;

use crate::seq_facts::lemma_filter_idempotent;
use crate::seq_facts::lemma_filter_take_step;
use crate::transform::RECORD_BYTES;
use crate::transform::SquareTransform;

verus! {

/// A non-owning reference to one registered transform: a slot index and the
/// generation under which the slot was handed out. The handle is live while
/// the slot still carries that generation; once the owner releases it, the
/// handle goes stale and the registry skips it until compaction prunes it.
#[derive(Copy, Clone, Debug, PartialEq, Eq, Structural)]
pub struct MeshHandle {
    index: usize,
    generation: u64,
}

struct Slot {
    generation: u64,
    occupied: bool,
    transform: SquareTransform,
}

/// The registry of per-square transforms, serialized each frame into the
/// instance buffer for one instanced draw.
pub struct Renderer {
    slots: Vec<Slot>,
    free_slots: Vec<usize>,
    reg_order: Vec<MeshHandle>,
}

impl Renderer {
    /// The registered handles, in registration order, stale ones included.
    pub closed spec fn order(&self) -> Seq<MeshHandle> {
        self.reg_order@
    }

    /// Whether `h` still refers to the slot it was handed out for.
    pub closed spec fn handle_live(&self, h: MeshHandle) -> bool {
        &&& h.index < self.slots@.len()
        &&& self.slots@[h.index as int].occupied
        &&& self.slots@[h.index as int].generation == h.generation
    }

    /// The transform a live handle refers to.
    pub closed spec fn transform_of(&self, h: MeshHandle) -> SquareTransform {
        self.slots@[h.index as int].transform
    }

    /// Whether `h` could already have been handed out: its slot exists and
    /// has reached `h`'s generation. Slot generations only ever grow, so a
    /// handle that is not yet issued is distinct from every handle issued
    /// before, live or stale.
    pub closed spec fn issued(&self, h: MeshHandle) -> bool {
        h.index < self.slots@.len() && h.generation <= self.slots@[h.index as int].generation
    }

    /// Every live handle has been issued.
    pub proof fn lemma_live_issued(&self, h: MeshHandle)
        requires
            self.handle_live(h),
        ensures
            self.issued(h),
    {
    }

    pub closed spec fn wf(&self) -> bool {
        &&& forall|j: int|
            0 <= j < self.reg_order@.len() ==> (#[trigger] self.reg_order@[j]).index
                < self.slots@.len() && self.reg_order@[j].generation <= self.slots@[self.reg_order@[j].index as int].generation
        &&& forall|k: int|
            0 <= k < self.free_slots@.len() ==> (#[trigger] self.free_slots@[k])
                < self.slots@.len() && !self.slots@[self.free_slots@[k] as int].occupied
        &&& forall|k1: int, k2: int|
            0 <= k1 < k2 < self.free_slots@.len() ==> self.free_slots@[k1] != self.free_slots@[k2]
    }

    /// A registry in its initial state: nothing registered, nothing live.
    pub open spec fn is_fresh(&self) -> bool {
        &&& self.wf()
        &&& self.order() == Seq::<MeshHandle>::empty()
        &&& forall|g: MeshHandle| !self.handle_live(g)
    }

    /// How many of the first `n` registered handles are live.
    pub open spec fn live_prefix_count(&self, n: int) -> int
        decreases n,
    {
        if n <= 0 {
            0
        } else {
            self.live_prefix_count(n - 1) + if self.handle_live(self.order()[n - 1]) {
                1int
            } else {
                0int
            }
        }
    }

    /// How many registered handles are live.
    pub open spec fn live_count(&self) -> int {
        self.live_prefix_count(self.order().len() as int)
    }

    /// The serialized records of the live handles among the first `n`
    /// registered, in registration order.
    pub open spec fn serialized_prefix(&self, n: int) -> Seq<u8>
        decreases n,
    {
        if n <= 0 {
            Seq::<u8>::empty()
        } else {
            self.serialized_prefix(n - 1) + if self.handle_live(self.order()[n - 1]) {
                self.transform_of(self.order()[n - 1]).record_bytes()
            } else {
                Seq::<u8>::empty()
            }
        }
    }

    /// The full serialized buffer: one record per live handle, in
    /// registration order.
    pub open spec fn serialized_bytes(&self) -> Seq<u8> {
        self.serialized_prefix(self.order().len() as int)
    }

    /// The live handles in registration order.
    pub open spec fn live_handles(&self) -> Seq<MeshHandle> {
        self.order().filter(|g: MeshHandle| self.handle_live(g))
    }

    /// The transforms of the live handles in registration order.
    pub open spec fn live_records(&self) -> Seq<SquareTransform> {
        self.live_handles().map_values(|g: MeshHandle| self.transform_of(g))
    }

    pub fn new() -> (r: Renderer)
        ensures
            r.is_fresh(),
    {
        Renderer { slots: Vec::new(), free_slots: Vec::new(), reg_order: Vec::new() }
    }

    /// Whether `h` is still live (its owner has not released it).
    pub fn is_live(&self, h: MeshHandle) -> (r: bool)
        ensures
            r == self.handle_live(h),
    {
        h.index < self.slots.len() && self.slots[h.index].occupied && self.slots[h.index].generation
            == h.generation
    }

    /// Registers a transform and hands out a fresh handle for it. The handle
    /// is appended to the registration order; every other handle keeps its
    /// liveness and transform.
    pub fn add_mesh(&mut self, t: SquareTransform) -> (h: MeshHandle)
        requires
            old(self).wf(),
        ensures
            final(self).wf(),
            !old(self).handle_live(h),
            final(self).order() == old(self).order().push(h),
            final(self).handle_live(h),
            final(self).transform_of(h) == t,
            forall|g: MeshHandle|
                g != h ==> final(self).handle_live(g) == old(self).handle_live(g),
            forall|g: MeshHandle|
                g != h && old(self).handle_live(g) ==> final(self).transform_of(g) == old(
                    self,
                ).transform_of(g),
            !old(self).issued(h),
            forall|g: MeshHandle| old(self).issued(g) ==> final(self).issued(g),
    {
        let reused = self.free_slots.pop();
        let h: MeshHandle;
        match reused {
            Some(i) if self.slots[i].generation < u64::MAX => {
                let generation = self.slots[i].generation + 1;
                self.slots[i] = Slot { generation, occupied: true, transform: t };
                h = MeshHandle { index: i, generation };
            },
            _ => {
                // No slot to recycle (or its generation counter is spent):
                // grow the table instead.
                let i = self.slots.len();
                self.slots.push(Slot { generation: 0, occupied: true, transform: t });
                h = MeshHandle { index: i, generation: 0 };
            },
        }
        self.reg_order.push(h);
        h
    }

    /// Overwrites the transform a live handle refers to. Registration order
    /// and the liveness of every handle are untouched.
    pub fn set_transform(&mut self, h: MeshHandle, t: SquareTransform)
        requires
            old(self).wf(),
            old(self).handle_live(h),
        ensures
            final(self).wf(),
            final(self).order() == old(self).order(),
            forall|g: MeshHandle| final(self).handle_live(g) == old(self).handle_live(g),
            final(self).transform_of(h) == t,
            forall|g: MeshHandle|
                g != h && old(self).handle_live(g) ==> final(self).transform_of(g) == old(
                    self,
                ).transform_of(g),
            forall|g: MeshHandle| final(self).issued(g) == old(self).issued(g),
    {
        let generation = self.slots[h.index].generation;
        self.slots[h.index] = Slot { generation, occupied: true, transform: t };
    }

    /// Releases a live handle: its slot is recycled and the handle goes
    /// stale. The stale handle stays in the registration order until the
    /// next compaction; every other handle keeps its liveness and transform.
    pub fn release(&mut self, h: MeshHandle)
        requires
            old(self).wf(),
            old(self).handle_live(h),
        ensures
            final(self).wf(),
            final(self).order() == old(self).order(),
            !final(self).handle_live(h),
            forall|g: MeshHandle|
                g != h ==> final(self).handle_live(g) == old(self).handle_live(g),
            forall|g: MeshHandle|
                g != h && old(self).handle_live(g) ==> final(self).transform_of(g) == old(
                    self,
                ).transform_of(g),
            forall|g: MeshHandle| final(self).issued(g) == old(self).issued(g),
    {
        let generation = self.slots[h.index].generation;
        let transform = self.slots[h.index].transform;
        self.slots[h.index] = Slot { generation, occupied: false, transform };
        self.free_slots.push(h.index);
    }

    /// Prunes the stale handles from the registration order, keeping the
    /// live ones in their original relative order. No handle changes
    /// liveness or transform, and the serialized output is unchanged.
    #[verifier::loop_isolation(false)]
    pub fn compact(&mut self)
        requires
            old(self).wf(),
        ensures
            final(self).wf(),
            final(self).order() == old(self).order().filter(
                |g: MeshHandle| old(self).handle_live(g),
            ),
            forall|g: MeshHandle| final(self).handle_live(g) == old(self).handle_live(g),
            forall|g: MeshHandle|
                old(self).handle_live(g) ==> final(self).transform_of(g) == old(self).transform_of(
                    g,
                ),
            final(self).live_count() == old(self).live_count(),
            final(self).serialized_bytes() == old(self).serialized_bytes(),
            forall|g: MeshHandle| final(self).issued(g) == old(self).issued(g),
    {
        let ghost pred = |g: MeshHandle| old(self).handle_live(g);
        let mut kept: Vec<MeshHandle> = Vec::new();
        let n = self.reg_order.len();
        for j in 0..n
            invariant
                n == self.reg_order@.len(),
                kept@ == self.reg_order@.take(j as int).filter(pred),
        {
            let h = self.reg_order[j];
            proof {
                lemma_filter_take_step(self.reg_order@, pred, j as int);
            }
            if self.is_live(h) {
                kept.push(h);
            }
        }
        proof {
            assert(self.reg_order@.take(n as int) =~= self.reg_order@);
        }
        self.reg_order = kept;
        proof {
            old(self).lemma_serialization_in_registration_order();
            self.lemma_serialization_in_registration_order();
            assert((|g: MeshHandle| self.handle_live(g)) =~= pred);
            lemma_filter_idempotent(old(self).order(), pred);
            assert(self.live_handles() == old(self).live_handles());
            assert forall|i: int| 0 <= i < self.live_records().len() implies self.live_records()[i]
                == old(self).live_records()[i] by {
                old(self).order().lemma_filter_pred(pred, i);
            }
            assert(self.live_records() =~= old(self).live_records());
        }
    }

    /// Serializes the live transforms: a tightly packed buffer of one
    /// `RECORD_BYTES`-sized record per live handle, in registration order,
    /// together with the live count.
    #[verifier::loop_isolation(false)]
    pub fn serialize(&self) -> (out: (Vec<u8>, usize))
        requires
            self.wf(),
        ensures
            out.0@ == self.serialized_bytes(),
            out.1 == self.live_count(),
            out.0@.len() == RECORD_BYTES * out.1,
    {
        let mut buffer: Vec<u8> = Vec::new();
        let mut live: usize = 0;
        let n = self.reg_order.len();
        for j in 0..n
            invariant
                n == self.reg_order@.len(),
                live <= j,
                buffer@ == self.serialized_prefix(j as int),
                live == self.live_prefix_count(j as int),
                buffer@.len() == RECORD_BYTES * live,
        {
            let h = self.reg_order[j];
            if self.is_live(h) {
                let t = self.slots[h.index].transform;
                proof {
                    t.lemma_record_len();
                }
                t.write_bytes(&mut buffer);
                live = live + 1;
            } else {
                proof {
                    assert(buffer@ =~= buffer@ + Seq::<u8>::empty());
                }
            }
        }
        (buffer, live)
    }

    /// A handle that is no longer live is gone from the live registration
    /// order, so nothing of it reaches the serialized buffer.
    pub proof fn lemma_stale_not_serialized(&self, h: MeshHandle)
        requires
            !self.handle_live(h),
        ensures
            forall|j: int| 0 <= j < self.live_handles().len() ==> self.live_handles()[j] != h,
    {
        let pred = |g: MeshHandle| self.handle_live(g);
        assert forall|j: int| 0 <= j < self.live_handles().len() implies self.live_handles()[j]
            != h by {
            self.order().lemma_filter_pred(pred, j);
        }
    }

    /// The serialized buffer lists exactly the live registrations, in
    /// registration order: the records are the live handles' transforms in
    /// the order they were registered, and the count is their number.
    pub proof fn lemma_serialization_in_registration_order(&self)
        ensures
            self.live_count() == self.live_handles().len(),
            self.serialized_bytes() == self.live_records().map_values(
                |t: SquareTransform| t.record_bytes(),
            ).flatten(),
    {
        self.lemma_prefix_in_order(self.order().len() as int);
        assert(self.order().take(self.order().len() as int) =~= self.order());
    }

    proof fn lemma_prefix_in_order(&self, n: int)
        requires
            0 <= n <= self.order().len(),
        ensures
            self.live_prefix_count(n) == self.order().take(n).filter(
                |g: MeshHandle| self.handle_live(g),
            ).len(),
            self.serialized_prefix(n) == self.order().take(n).filter(
                |g: MeshHandle| self.handle_live(g),
            ).map_values(|g: MeshHandle| self.transform_of(g)).map_values(
                |t: SquareTransform| t.record_bytes(),
            ).flatten(),
        decreases n,
    {
        let pred = |g: MeshHandle| self.handle_live(g);
        let rec = |g: MeshHandle| self.transform_of(g);
        let ser = |t: SquareTransform| t.record_bytes();
        if n <= 0 {
            assert(self.order().take(0).filter(pred) =~= Seq::<MeshHandle>::empty());
            reveal(Seq::filter);
            assert(self.serialized_prefix(0) =~= Seq::<MeshHandle>::empty().map_values(
                rec,
            ).map_values(ser).flatten());
        } else {
            self.lemma_prefix_in_order(n - 1);
            lemma_filter_take_step(self.order(), pred, n - 1);
            let a = self.order().take(n - 1).filter(pred);
            let b = self.order().take(n).filter(pred);
            if pred(self.order()[n - 1]) {
                assert(b =~= a.push(self.order()[n - 1]));
                assert(b.map_values(rec).map_values(ser) =~= a.map_values(rec).map_values(
                    ser,
                ).push(ser(rec(self.order()[n - 1]))));
                a.map_values(rec).map_values(ser).lemma_flatten_push(
                    ser(rec(self.order()[n - 1])),
                );
            } else {
                assert(b =~= a);
                assert(self.serialized_prefix(n) =~= self.serialized_prefix(n - 1));
            }
        }
    }
}

} // verus!
