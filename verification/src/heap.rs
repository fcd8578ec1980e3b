//! The tracing heap.
//!
//! Composite values — arrays, objects, function templates — live in an
//! arena of slots; a handle ([`Gc`](crate::value::Gc)) is a stable slot
//! index.  Collection is mark-sweep over an explicit root set: the sweep
//! clears exactly the slots that no root can reach, and [`collect_spec`]
//! states that as a function of the old heap and the roots, so the
//! collector's whole behaviour is pinned down.  Freed slots stay as
//! tombstones; allocation always appends, which keeps handles stable and
//! execution deterministic.

use vstd::prelude::*;
use crate::chunk::{Chunk, Constant, FunctionTemplate, SpecTemplate};
use crate::value::{Gc, SpecValue, Value};

verus! {

/// The mathematical image of a [`HeapPayload`].
pub enum SpecPayload {
    Arr(Seq<SpecValue>),
    Obj(Seq<(Seq<char>, SpecValue)>),
    Fun(SpecTemplate),
}

/// One composite value: an array of values, an insertion-ordered mapping
/// from string keys to values, or an inert function template.
#[derive(Debug)]
pub enum HeapPayload {
    Arr(Vec<Value>),
    Obj(Vec<(Vec<char>, Value)>),
    Fun(FunctionTemplate),
}

impl View for HeapPayload {
    type V = SpecPayload;

    open spec fn view(&self) -> SpecPayload {
        match self {
            HeapPayload::Arr(vs) => SpecPayload::Arr(vs@.map_values(|v: Value| v@)),
            HeapPayload::Obj(ps) => SpecPayload::Obj(
                ps@.map_values(|p: (Vec<char>, Value)| (p.0@, p.1@)),
            ),
            HeapPayload::Fun(t) => SpecPayload::Fun(t@),
        }
    }
}

/// A heap as the specifications see it: a sequence of slots, each empty or
/// holding a payload.
pub type SpecHeap = Seq<Option<SpecPayload>>;

/// Slot `i` exists and holds a payload.
pub open spec fn live(h: SpecHeap, i: int) -> bool {
    0 <= i < h.len() && h[i] is Some
}

/// The payload of a live slot.
pub open spec fn payload_at(h: SpecHeap, i: int) -> SpecPayload {
    match h[i] {
        Some(p) => p,
        None => arbitrary(),
    }
}

/// The handle a value carries, if any.
pub open spec fn value_handles(v: SpecValue) -> Seq<int> {
    match v {
        SpecValue::Object(h) => seq![h],
        SpecValue::Array(h) => seq![h],
        SpecValue::Function(h) => seq![h],
        _ => Seq::empty(),
    }
}

/// All handles carried by a sequence of values.
pub open spec fn values_handles(vs: Seq<SpecValue>) -> Seq<int>
    decreases vs.len(),
{
    if vs.len() == 0 {
        Seq::empty()
    } else {
        values_handles(vs.drop_last()) + value_handles(vs.last())
    }
}

/// All handles carried by the values of a key-value sequence.
pub open spec fn pairs_handles(ps: Seq<(Seq<char>, SpecValue)>) -> Seq<int>
    decreases ps.len(),
{
    if ps.len() == 0 {
        Seq::empty()
    } else {
        pairs_handles(ps.drop_last()) + value_handles(ps.last().1)
    }
}

/// The handles a payload holds: array elements and object values carry
/// them; templates carry none.
pub open spec fn payload_children(p: SpecPayload) -> Seq<int> {
    match p {
        SpecPayload::Arr(vs) => values_handles(vs),
        SpecPayload::Obj(ps) => pairs_handles(ps),
        SpecPayload::Fun(_) => Seq::empty(),
    }
}

/// The handles held by slot `p`, or none where the slot is empty.
pub open spec fn children_at(h: SpecHeap, p: int) -> Seq<int> {
    if live(h, p) {
        payload_children(payload_at(h, p))
    } else {
        Seq::empty()
    }
}

/// A set of slots closed under the heap's pointers: it holds every live
/// root and every live child of each of its members.
pub open spec fn closed_set(h: SpecHeap, roots: Seq<int>, s: Set<int>) -> bool {
    (forall|j: int|
        0 <= j < roots.len() && live(h, #[trigger] roots[j]) ==> s.contains(roots[j]))
        && (forall|p: int, c: int|
        s.contains(p) && #[trigger] children_at(h, p).contains(c) && live(h, c) ==> s.contains(c))
}

/// Slot `x` is reachable from the roots: it is live, and it belongs to
/// every pointer-closed set of slots — the least-fixpoint reading of
/// "a root, or a child of something reachable".
pub open spec fn reachable(h: SpecHeap, roots: Seq<int>, x: int) -> bool {
    live(h, x) && forall|s: Set<int>| #[trigger] closed_set(h, roots, s) ==> s.contains(x)
}

/// What a collection leaves behind: every reachable slot unchanged, every
/// unreachable slot empty.
pub open spec fn collect_spec(h: SpecHeap, roots: Seq<int>) -> SpecHeap {
    Seq::new(h.len(), |i: int| if reachable(h, roots, i) { h[i] } else { None })
}

/// The integer view of a vector of handle indices.
pub open spec fn to_ints(s: Seq<usize>) -> Seq<int> {
    s.map_values(|u: usize| u as int)
}

/// A live root is reachable.
pub proof fn lemma_reachable_root(h: SpecHeap, roots: Seq<int>, j: int)
    requires
        0 <= j < roots.len(),
        live(h, roots[j]),
    ensures
        reachable(h, roots, roots[j]),
{
}

/// A live child of a reachable slot is reachable.
pub proof fn lemma_reachable_child(h: SpecHeap, roots: Seq<int>, p: int, c: int)
    requires
        reachable(h, roots, p),
        children_at(h, p).contains(c),
        live(h, c),
    ensures
        reachable(h, roots, c),
{
    assert forall|s: Set<int>| #[trigger] closed_set(h, roots, s) implies s.contains(c) by {
        assert(s.contains(p));
    }
}

/// Anything that can append the handles it holds to a root buffer.
pub trait Trace {
    /// The handles this value holds, in order.
    spec fn spec_handles(&self) -> Seq<int>;

    /// Append this value's handles to `out`.
    fn trace(&self, out: &mut Vec<usize>)
        ensures
            to_ints(final(out)@) == to_ints(old(out)@) + self.spec_handles(),
    ;
}

impl Trace for Value {
    open spec fn spec_handles(&self) -> Seq<int> {
        value_handles(self@)
    }

    fn trace(&self, out: &mut Vec<usize>) {
        match self {
            Value::Object(h) => out.push(h.idx),
            Value::Array(h) => out.push(h.idx),
            Value::Function(h) => out.push(h.idx),
            _ => (),
        }
        proof {
            assert(to_ints(out@) =~= to_ints(old(out)@) + self.spec_handles());
        }
    }
}

impl Trace for Constant {
    /// Constants hold no handles: a function template owns its chunk
    /// outright, so tracing one reaches nothing on the heap.
    open spec fn spec_handles(&self) -> Seq<int> {
        Seq::empty()
    }

    fn trace(&self, out: &mut Vec<usize>) {
        proof {
            assert(to_ints(out@) =~= to_ints(out@) + Seq::<int>::empty());
        }
    }
}

impl Trace for Chunk {
    /// A chunk's constant pool holds no handles.
    open spec fn spec_handles(&self) -> Seq<int> {
        Seq::empty()
    }

    fn trace(&self, out: &mut Vec<usize>) {
        proof {
            assert(to_ints(out@) =~= to_ints(out@) + Seq::<int>::empty());
        }
    }
}

impl Trace for HeapPayload {
    open spec fn spec_handles(&self) -> Seq<int> {
        payload_children(self@)
    }

    fn trace(&self, out: &mut Vec<usize>) {
        match self {
            HeapPayload::Arr(vs) => {
                let ghost mapped = vs@.map_values(|v: Value| v@);
                let mut i: usize = 0;
                while i < vs.len()
                    invariant
                        i <= vs.len(),
                        mapped == vs@.map_values(|v: Value| v@),
                        to_ints(out@) == to_ints(old(out)@) + values_handles(
                            mapped.subrange(0, i as int),
                        ),
                    decreases vs.len() - i,
                {
                    vs[i].trace(out);
                    proof {
                        assert(mapped.subrange(0, i + 1).drop_last() =~= mapped.subrange(
                            0,
                            i as int,
                        ));
                        assert(to_ints(out@) =~= to_ints(old(out)@) + values_handles(
                            mapped.subrange(0, i + 1),
                        ));
                    }
                    i += 1;
                }
                proof {
                    assert(mapped.subrange(0, mapped.len() as int) =~= mapped);
                }
            },
            HeapPayload::Obj(ps) => {
                let ghost mapped = ps@.map_values(|p: (Vec<char>, Value)| (p.0@, p.1@));
                let mut i: usize = 0;
                while i < ps.len()
                    invariant
                        i <= ps.len(),
                        mapped == ps@.map_values(|p: (Vec<char>, Value)| (p.0@, p.1@)),
                        to_ints(out@) == to_ints(old(out)@) + pairs_handles(
                            mapped.subrange(0, i as int),
                        ),
                    decreases ps.len() - i,
                {
                    ps[i].1.trace(out);
                    proof {
                        assert(mapped.subrange(0, i + 1).drop_last() =~= mapped.subrange(
                            0,
                            i as int,
                        ));
                        assert(to_ints(out@) =~= to_ints(old(out)@) + pairs_handles(
                            mapped.subrange(0, i + 1),
                        ));
                    }
                    i += 1;
                }
                proof {
                    assert(mapped.subrange(0, mapped.len() as int) =~= mapped);
                }
            },
            HeapPayload::Fun(_) => {
                proof {
                    assert(to_ints(out@) =~= to_ints(out@) + Seq::<int>::empty());
                }
            },
        }
    }
}

/// The arena of heap slots, with the mark bitset beside it.
#[derive(Debug)]
pub struct Heap {
    pub objects: Vec<Option<HeapPayload>>,
    pub marks: Vec<bool>,
    pub threshold: usize,
}

impl View for Heap {
    type V = SpecHeap;

    open spec fn view(&self) -> SpecHeap {
        self.objects@.map_values(
            |o: Option<HeapPayload>|
                match o {
                    Some(p) => Some(p@),
                    None => None,
                },
        )
    }
}

/// How many slots of a heap hold a payload.
pub open spec fn count_live(h: SpecHeap) -> nat
    decreases h.len(),
{
    if h.len() == 0 {
        0
    } else {
        count_live(h.drop_last()) + (if h.last() is Some {
            1nat
        } else {
            0nat
        })
    }
}

proof fn lemma_count_live_bound(h: SpecHeap)
    ensures
        count_live(h) <= h.len(),
    decreases h.len(),
{
    if h.len() > 0 {
        lemma_count_live_bound(h.drop_last());
    }
}

/// How many entries of a mark sequence are still unset.
pub open spec fn count_false(m: Seq<bool>) -> nat
    decreases m.len(),
{
    if m.len() == 0 {
        0
    } else {
        count_false(m.drop_last()) + if m.last() { 0nat } else { 1nat }
    }
}

proof fn lemma_count_false_update(m: Seq<bool>, i: int)
    requires
        0 <= i < m.len(),
        !m[i],
    ensures
        count_false(m.update(i, true)) == count_false(m) - 1,
    decreases m.len(),
{
    if i == m.len() - 1 {
        assert(m.update(i, true).drop_last() =~= m.drop_last());
    } else {
        assert(m.update(i, true).drop_last() =~= m.drop_last().update(i, true));
        lemma_count_false_update(m.drop_last(), i);
    }
}

/// `c` occurs in the worklist.
pub open spec fn in_work(w: Seq<usize>, c: int) -> bool {
    exists|j: int| 0 <= j < w.len() && w[j] == c
}

impl Heap {
    /// Lengths agree between the slots and the mark bitset.
    pub open spec fn wf(&self) -> bool {
        self.marks@.len() == self.objects@.len()
    }

    pub fn new() -> (h: Heap)
        ensures
            h.wf(),
            h@.len() == 0,
    {
        Heap { objects: Vec::new(), marks: Vec::new(), threshold: 1024 * 1024 }
    }

    /// Append a fresh object and hand back its stable index.
    pub fn allocate(&mut self, payload: HeapPayload) -> (h: Gc)
        requires
            old(self).wf(),
        ensures
            final(self).wf(),
            final(self)@ == old(self)@.push(Some(payload@)),
            h@ == old(self)@.len(),
            live(final(self)@, h@),
            payload_at(final(self)@, h@) == payload@,
    {
        let idx = self.objects.len();
        self.objects.push(Some(payload));
        self.marks.push(false);
        proof {
            assert(self@ =~= old(self)@.push(Some(self.objects@.last().unwrap()@)));
        }
        Gc { idx }
    }

    /// The number of slots, tombstones included.
    pub fn slot_count(&self) -> (n: usize)
        ensures
            n == self@.len(),
    {
        self.objects.len()
    }

    /// Read a slot.
    pub fn get(&self, idx: usize) -> (r: Option<&HeapPayload>)
        ensures
            live(self@, idx as int) ==> (r matches Some(p) && p@ == payload_at(self@, idx as int)),
            !live(self@, idx as int) ==> r is None,
    {
        if idx < self.objects.len() {
            match &self.objects[idx] {
                Some(p) => Some(p),
                None => None,
            }
        } else {
            None
        }
    }

    /// Move a live payload out, leaving the slot empty.
    pub fn take(&mut self, idx: usize) -> (p: HeapPayload)
        requires
            old(self).wf(),
            live(old(self)@, idx as int),
        ensures
            final(self).wf(),
            final(self)@ == old(self)@.update(idx as int, None),
            p@ == payload_at(old(self)@, idx as int),
    {
        let slot = self.objects[idx].take();
        proof {
            assert(self@ =~= old(self)@.update(idx as int, None));
        }
        match slot {
            Some(p) => p,
            None => vstd::pervasive::unreached(),
        }
    }

    /// Store a payload into an existing slot.
    pub fn put(&mut self, idx: usize, payload: HeapPayload)
        requires
            old(self).wf(),
            idx < old(self)@.len(),
        ensures
            final(self).wf(),
            final(self)@ == old(self)@.update(idx as int, Some(payload@)),
    {
        self.objects[idx] = Some(payload);
        proof {
            assert(self@ =~= old(self)@.update(
                idx as int,
                Some(self.objects@[idx as int].unwrap()@),
            ));
        }
    }

    /// Mark-sweep collection: afterwards the heap is exactly
    /// [`collect_spec`] of the old heap and the roots — reachable slots
    /// unchanged, unreachable slots empty.
    pub fn collect(&mut self, roots: &Vec<usize>)
        requires
            old(self).wf(),
        ensures
            final(self).wf(),
            final(self)@ == collect_spec(old(self)@, to_ints(roots@)),
            final(self).threshold as int == ({
                let n = count_live(final(self)@);
                if n > old(self).threshold {
                    if n <= usize::MAX / 2 {
                        2 * n as int
                    } else {
                        usize::MAX as int
                    }
                } else {
                    old(self).threshold as int
                }
            }),
    {
        let ghost h0 = self@;
        let ghost rts = to_ints(roots@);
        // Phase 1: clear every mark.
        let mut i: usize = 0;
        while i < self.marks.len()
            invariant
                self.wf(),
                self@ == h0,
                self.threshold == old(self).threshold,
                i <= self.marks@.len(),
                forall|k: int| 0 <= k < i ==> !self.marks@[k],
            decreases self.marks@.len() - i,
        {
            self.marks[i] = false;
            i += 1;
        }
        // Phase 2: trace from the roots.
        let mut work: Vec<usize> = Vec::new();
        let mut r: usize = 0;
        while r < roots.len()
            invariant
                work@ == roots@.subrange(0, r as int),
                r <= roots@.len(),
            decreases roots@.len() - r,
        {
            work.push(roots[r]);
            proof {
                assert(roots@.subrange(0, r as int).push(roots@[r as int]) =~= roots@.subrange(
                    0,
                    r + 1,
                ));
            }
            r += 1;
        }
        proof {
            assert(roots@.subrange(0, roots@.len() as int) =~= roots@);
            assert forall|j: int|
                0 <= j < work@.len() && live(h0, #[trigger] work@[j] as int) implies reachable(
                h0,
                rts,
                work@[j] as int,
            ) by {
                assert(rts[j] == work@[j] as int);
                lemma_reachable_root(h0, rts, j);
            }
            assert forall|j: int| 0 <= j < rts.len() && live(h0, #[trigger] rts[j]) implies (
            self.marks@[rts[j]] || in_work(work@, rts[j])) by {
                assert(work@[j] as int == rts[j]);
            }
        }
        while work.len() > 0
            invariant
                self.wf(),
                self@ == h0,
                self.threshold == old(self).threshold,
                forall|k: int| #![trigger self.marks@[k]]
                    0 <= k < self.marks@.len() ==> (self.marks@[k] ==> live(h0, k) && reachable(
                        h0,
                        rts,
                        k,
                    )),
                forall|j: int|
                    0 <= j < work@.len() ==> live(h0, #[trigger] work@[j] as int) ==> reachable(
                        h0,
                        rts,
                        work@[j] as int,
                    ),
                forall|j: int|
                    0 <= j < rts.len() ==> live(h0, #[trigger] rts[j]) ==> (self.marks@[rts[j]]
                        || in_work(work@, rts[j])),
                forall|p: int, c: int|
                    0 <= p < self.marks@.len() && #[trigger] self.marks@[p] && #[trigger] children_at(
                        h0,
                        p,
                    ).contains(c) && live(h0, c) ==> (self.marks@[c] || in_work(work@, c)),
            decreases count_false(self.marks@), work@.len(),
        {
            let ghost work0 = work@;
            let ghost marks0 = self.marks@;
            let h = match work.pop() {
                Some(h) => h,
                None => vstd::pervasive::unreached(),
            };
            let ghost wpop = work@;
            proof {
                assert(wpop =~= work0.subrange(0, work0.len() - 1));
                assert(work0[work0.len() - 1] == h);
            }
            if h < self.objects.len() && !self.marks[h] {
                let is_live = match &self.objects[h] {
                    Some(_) => true,
                    None => false,
                };
                if is_live {
                    self.marks[h] = true;
                    proof {
                        lemma_count_false_update(marks0, h as int);
                    }
                    match &self.objects[h] {
                        Some(p) => {
                            p.trace(&mut work);
                            proof {
                                assert(self@[h as int] == Some(p@));
                                assert(live(h0, h as int));
                                assert(reachable(h0, rts, h as int));
                                assert(payload_at(h0, h as int) == p@);
                                let kids = children_at(h0, h as int);
                                assert(kids == payload_children(p@));
                                assert(to_ints(work@) == to_ints(wpop) + kids);
                                assert(to_ints(work@).len() == work@.len());
                                assert(to_ints(wpop).len() == wpop.len());
                                assert(work@.len() == wpop.len() + kids.len());
                                assert forall|j: int| 0 <= j < wpop.len() implies work@[j]
                                    == wpop[j] by {
                                    assert(to_ints(work@)[j] == work@[j] as int);
                                    assert(to_ints(wpop)[j] == wpop[j] as int);
                                }
                                assert forall|j: int|
                                    wpop.len() <= j < work@.len() implies work@[j] as int == kids[j
                                    - wpop.len()] by {
                                    assert(to_ints(work@)[j] == work@[j] as int);
                                    assert((to_ints(wpop) + kids)[j] == kids[j - wpop.len()]);
                                }
                                // Every live worklist entry is reachable.
                                assert forall|j: int|
                                    0 <= j < work@.len() && live(
                                        h0,
                                        #[trigger] work@[j] as int,
                                    ) implies reachable(h0, rts, work@[j] as int) by {
                                    if j < wpop.len() {
                                        assert(work@[j] == wpop[j]);
                                        assert(wpop[j] == work0[j]);
                                    } else {
                                        assert(kids.contains(work@[j] as int));
                                        lemma_reachable_child(h0, rts, h as int, work@[j] as int);
                                    }
                                }
                                // Live roots are marked or still queued.
                                assert forall|j: int|
                                    0 <= j < rts.len() && live(h0, #[trigger] rts[j]) implies (
                                self.marks@[rts[j]] || in_work(work@, rts[j])) by {
                                    if !marks0[rts[j]] && rts[j] != h as int {
                                        let jj = choose|jj: int|
                                            0 <= jj < work0.len() && work0[jj] == rts[j];
                                        assert(jj < wpop.len());
                                        assert(wpop[jj] == work0[jj]);
                                        assert(to_ints(work@)[jj] == work@[jj] as int);
                                        assert(to_ints(wpop)[jj] == wpop[jj] as int);
                                        assert((to_ints(wpop) + kids)[jj] == to_ints(wpop)[jj]);
                                        assert(work@[jj] == rts[j]);
                                    }
                                }
                                // Marks stay closed under live children.
                                assert forall|pp: int, c: int|
                                    0 <= pp < self.marks@.len() && #[trigger] self.marks@[pp]
                                        && #[trigger] children_at(h0, pp).contains(c) && live(
                                        h0,
                                        c,
                                    ) implies (self.marks@[c] || in_work(work@, c)) by {
                                    if pp == h as int {
                                        let j = choose|j: int|
                                            0 <= j < kids.len() && kids[j] == c;
                                        assert(work@[wpop.len() + j] as int == c);
                                    } else {
                                        assert(marks0[pp]);
                                        if !marks0[c] && c != h as int {
                                            let jj = choose|jj: int|
                                                0 <= jj < work0.len() && work0[jj] == c;
                                            assert(jj < wpop.len());
                                            assert(wpop[jj] == work0[jj]);
                                            assert(to_ints(work@)[jj] == work@[jj] as int);
                                            assert(to_ints(wpop)[jj] == wpop[jj] as int);
                                            assert((to_ints(wpop) + kids)[jj] == to_ints(
                                                wpop,
                                            )[jj]);
                                            assert(work@[jj] == c);
                                        }
                                    }
                                }
                            }
                        },
                        None => vstd::pervasive::unreached(),
                    }
                } else {
                    proof {
                        lemma_pop_keeps_cover(h0, rts, marks0, work0, wpop, h, self.marks@);
                    }
                }
            } else {
                proof {
                    lemma_pop_keeps_cover(h0, rts, marks0, work0, wpop, h, self.marks@);
                }
            }
        }
        // Between the phases: every reachable slot is marked, because the
        // marked set is pointer-closed and holds every live root.
        let ghost marked_set = Set::new(
            |i: int| 0 <= i < self.marks@.len() && self.marks@[i],
        );
        proof {
            assert(closed_set(h0, rts, marked_set));
            assert forall|x: int| reachable(h0, rts, x) implies self.marks@[x] by {
                assert(marked_set.contains(x));
            }
        }
        // Phase 3: sweep, counting survivors.
        let ghost marks = self.marks@;
        let mut s: usize = 0;
        let mut survivors: usize = 0;
        while s < self.objects.len()
            invariant
                self.wf(),
                self.marks@ == marks,
                self.threshold == old(self).threshold,
                self@.len() == h0.len(),
                s <= h0.len(),
                forall|k: int| s <= k < h0.len() ==> self@[k] == h0[k],
                forall|k: int| 0 <= k < s ==> self@[k] == (if marks[k] {
                    h0[k]
                } else {
                    None::<SpecPayload>
                }),
                forall|k: int| #![trigger marks[k]]
                    0 <= k < marks.len() ==> (marks[k] ==> live(h0, k)),
                marks.len() == h0.len(),
                survivors == count_live(self@.subrange(0, s as int)),
            decreases h0.len() - s,
        {
            let ghost pre = self@;
            proof {
                lemma_count_live_bound(pre.subrange(0, s as int));
            }
            if !self.marks[s] {
                self.objects[s] = None;
                proof {
                    assert(self@ =~= pre.update(s as int, None));
                    assert(self@.subrange(0, s + 1).drop_last() =~= self@.subrange(0, s as int));
                    assert(self@.subrange(0, s as int) =~= pre.subrange(0, s as int));
                    assert(self@.subrange(0, s + 1).last() is None);
                }
            } else {
                if survivors < usize::MAX {
                    survivors += 1;
                } else {
                    proof {
                        assert(false);
                    }
                }
                proof {
                    assert(self@.subrange(0, s + 1).drop_last() =~= self@.subrange(0, s as int));
                    assert(self@.subrange(0, s + 1).last() == h0[s as int]);
                    assert(live(h0, s as int));
                    assert(self@.subrange(0, s + 1).last() is Some);
                }
            }
            s += 1;
        }
        proof {
            assert(self@.subrange(0, h0.len() as int) =~= self@);
            assert(survivors == count_live(self@));
        }
        if survivors > self.threshold {
            self.threshold = if survivors <= usize::MAX / 2 {
                survivors * 2
            } else {
                usize::MAX
            };
        }
        proof {
            assert forall|x: int| 0 <= x < h0.len() implies self@[x] == collect_spec(h0, rts)[x] by {
                if !marks[x] {
                    assert(!reachable(h0, rts, x) || !live(h0, x));
                    if !live(h0, x) {
                        assert(h0[x] is None);
                    }
                }
            }
            assert(self@ =~= collect_spec(h0, rts));
        }
    }
}

/// Popping an entry that needs no marking — already marked, dead, or out of
/// range — keeps live roots and live children of marked slots covered by
/// the marks and the shortened worklist.
proof fn lemma_pop_keeps_cover(
    h0: SpecHeap,
    rts: Seq<int>,
    marks0: Seq<bool>,
    work0: Seq<usize>,
    wpop: Seq<usize>,
    h: usize,
    marks: Seq<bool>,
)
    requires
        marks == marks0,
        work0.len() > 0,
        wpop == work0.subrange(0, work0.len() - 1),
        work0[work0.len() - 1] == h,
        marks0.len() == h0.len(),
        (h as int) < h0.len() ==> (marks0[h as int] || !live(h0, h as int)),
        forall|j: int|
            0 <= j < rts.len() ==> live(h0, #[trigger] rts[j]) ==> (marks0[rts[j]] || in_work(
                work0,
                rts[j],
            )),
        forall|p: int, c: int|
            0 <= p < marks0.len() && #[trigger] marks0[p] && #[trigger] children_at(h0, p).contains(
                c,
            ) && live(h0, c) ==> (marks0[c] || in_work(work0, c)),
    ensures
        forall|j: int|
            0 <= j < rts.len() ==> live(h0, #[trigger] rts[j]) ==> (marks[rts[j]] || in_work(
                wpop,
                rts[j],
            )),
        forall|p: int, c: int|
            0 <= p < marks.len() && #[trigger] marks[p] && #[trigger] children_at(h0, p).contains(c)
                && live(h0, c) ==> (marks[c] || in_work(wpop, c)),
{
    assert forall|j: int| 0 <= j < rts.len() && live(h0, #[trigger] rts[j]) implies (marks[rts[j]]
        || in_work(wpop, rts[j])) by {
        if !marks0[rts[j]] {
            let jj = choose|jj: int| 0 <= jj < work0.len() && work0[jj] == rts[j];
            if jj < work0.len() - 1 {
                assert(wpop[jj] == rts[j]);
            } else {
                assert(rts[j] == h as int);
            }
        }
    }
    assert forall|p: int, c: int|
        0 <= p < marks.len() && #[trigger] marks[p] && #[trigger] children_at(h0, p).contains(c)
            && live(h0, c) implies (marks[c] || in_work(wpop, c)) by {
        if !marks0[c] {
            let jj = choose|jj: int| 0 <= jj < work0.len() && work0[jj] == c;
            if jj < work0.len() - 1 {
                assert(wpop[jj] == c);
            } else {
                assert(c == h as int);
            }
        }
    }
}

/// Everything a collection keeps, it keeps unchanged: a slot reachable from
/// the roots still holds exactly the payload it held before.
pub proof fn lemma_collect_preserves_reachable(h: SpecHeap, roots: Seq<int>, x: int)
    requires
        0 <= x < h.len(),
        reachable(h, roots, x),
    ensures
        collect_spec(h, roots)[x] == h[x],
        live(h, x) ==> live(collect_spec(h, roots), x),
{
}

/// A collection never conjures objects: a live slot of the new heap was
/// live before, holds the same payload, and was reachable from the roots.
pub proof fn lemma_collect_only_retains_reachable(h: SpecHeap, roots: Seq<int>, x: int)
    requires
        live(collect_spec(h, roots), x),
    ensures
        live(h, x),
        collect_spec(h, roots)[x] == h[x],
        reachable(h, roots, x),
{
}

/// The children of every surviving slot survive too: what the retained
/// objects point at is retained, so no retained handle dangles.
pub proof fn lemma_collect_closed(h: SpecHeap, roots: Seq<int>, p: int, c: int)
    requires
        live(collect_spec(h, roots), p),
        children_at(collect_spec(h, roots), p).contains(c),
        live(h, c),
    ensures
        live(collect_spec(h, roots), c),
        collect_spec(h, roots)[c] == h[c],
{
    assert(children_at(h, p) == children_at(collect_spec(h, roots), p));
    lemma_reachable_child(h, roots, p, c);
}

/// The collector facade: clears garbage on an explicit heap with an
/// explicit root set.
#[derive(Debug)]
pub struct GC {
}

impl GC {
    pub fn new() -> Self {
        GC {  }
    }

    /// Collect `heap` with the given roots; the result is exactly
    /// [`collect_spec`], and the high-water threshold doubles when the
    /// survivors exceed it.
    pub fn collect(&mut self, heap: &mut Heap, roots: &Vec<usize>)
        requires
            old(heap).wf(),
        ensures
            final(heap).wf(),
            final(heap)@ == collect_spec(old(heap)@, to_ints(roots@)),
            final(heap).threshold as int == ({
                let n = count_live(final(heap)@);
                if n > old(heap).threshold {
                    if n <= usize::MAX / 2 {
                        2 * n as int
                    } else {
                        usize::MAX as int
                    }
                } else {
                    old(heap).threshold as int
                }
            }),
    {
        heap.collect(roots);
    }
}

} // verus!
