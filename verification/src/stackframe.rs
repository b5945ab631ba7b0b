//! Stack slot assignment for the variables of a function.
use vstd::prelude::*;
use vstd::hash_map::StringHashMap;

verus! {

/// A frame as a value: the slot of each variable and the next free offset.
pub struct FState {
    pub slots: Map<Seq<char>, int>,
    pub next: int,
}

/// `alloc(name)` on a frame: the slot `name` has, or else the next free one,
/// which `name` keeps from then on.
pub open spec fn frame_alloc(f: FState, name: Seq<char>) -> (int, FState) {
    if f.slots.contains_key(name) {
        (f.slots[name], f)
    } else {
        (f.next, FState { slots: f.slots.insert(name, f.next), next: f.next + 8 })
    }
}

/// The frame after `alloc` of each name in turn.
pub open spec fn frame_vars(f: FState, names: Seq<Seq<char>>) -> FState
    decreases names.len(),
{
    if names.len() == 0 {
        f
    } else {
        frame_alloc(frame_vars(f, names.drop_last()), names.last()).1
    }
}

/// The empty frame.
pub open spec fn empty_frame() -> FState {
    FState { slots: Map::empty(), next: 8 }
}

/// `frame_size`: the next free offset rounded up to a multiple of 16.
pub open spec fn frame_size_of(f: FState) -> int {
    ((f.next + 15) / 16) * 16
}

/// Allocating names keeps earlier slots, gives every name a slot, and moves
/// the next free offset by at most 8 a name.
pub proof fn lemma_frame_vars(f: FState, names: Seq<Seq<char>>)
    ensures
        f.next <= frame_vars(f, names).next <= f.next + 8 * names.len(),
        forall|k: Seq<char>| #[trigger] f.slots.contains_key(k) ==> frame_vars(f, names).slots.contains_key(k)
            && frame_vars(f, names).slots[k] == f.slots[k],
        forall|i: int| 0 <= i < names.len() ==> frame_vars(f, names).slots.contains_key(#[trigger] names[i]),
    decreases names.len(),
{
    if names.len() > 0 {
        lemma_frame_vars(f, names.drop_last());
        let g = frame_vars(f, names.drop_last());
        assert forall|i: int| 0 <= i < names.len() implies frame_vars(f, names).slots.contains_key(#[trigger] names[i]) by {
            if i < names.len() - 1 {
                assert(names.drop_last()[i] == names[i]);
            }
        }
    }
}

/// A variable keeps its slot: after allocating it, `get` finds the offset
/// that was returned, and allocating it again gives the same offset and
/// changes nothing.
pub proof fn lemma_frame_alloc_stable(f: FState, name: Seq<char>)
    ensures
        frame_alloc(f, name).1.slots.contains_key(name),
        frame_alloc(f, name).1.slots[name] == frame_alloc(f, name).0,
        frame_alloc(frame_alloc(f, name).1, name) == (frame_alloc(f, name).0, frame_alloc(f, name).1),
{
}

/// No two variables share a slot, and every slot lies below the next free
/// offset.
pub open spec fn slots_apart(f: FState) -> bool {
    &&& forall|a: Seq<char>| #[trigger] f.slots.contains_key(a) ==> f.slots[a] < f.next
    &&& forall|a: Seq<char>, b: Seq<char>|
        #[trigger] f.slots.contains_key(a) && #[trigger] f.slots.contains_key(b) && a != b ==> f.slots[a]
            != f.slots[b]
}

/// Allocating keeps variables apart: a new variable's slot is one no other
/// variable has.
pub proof fn lemma_frame_alloc_apart(f: FState, name: Seq<char>)
    requires
        slots_apart(f),
    ensures
        slots_apart(frame_alloc(f, name).1),
{
}

/// The frame size is the next free offset rounded up to a multiple of 16.
pub proof fn lemma_frame_size(f: FState)
    requires
        f.next >= 0,
    ensures
        frame_size_of(f) % 16 == 0,
        f.next <= frame_size_of(f) < f.next + 16,
{
    let n = f.next + 15;
    assert(n == 16 * (n / 16) + n % 16) by (nonlinear_arith);
    assert(0 <= n % 16 < 16) by (nonlinear_arith);
    assert(frame_size_of(f) == (n / 16) * 16);
    assert(((n / 16) * 16) % 16 == 0) by (nonlinear_arith);
}

/// Some variable of `f` has its slot at offset `o`.
pub open spec fn has_offset(f: FState, o: int) -> bool {
    exists|a: Seq<char>| f.slots.contains_key(a) && f.slots[a] == o
}

/// The layout of a frame built from the empty one by allocating `names` in
/// turn: the variables are exactly the names allocated; with `k` of them
/// distinct, their offsets are `8, 16, ..., 8k`, one each, the next free
/// offset is `8(k + 1)`, and the frame size is the least multiple of 16
/// that is at least `8(k + 1)`, so every slot lies inside it.
pub proof fn lemma_frame_layout(names: Seq<Seq<char>>)
    ensures
        ({
            let f = frame_vars(empty_frame(), names);
            let k = f.slots.dom().len();
            &&& f.slots.dom().finite()
            &&& forall|a: Seq<char>| f.slots.contains_key(a) <==> names.contains(a)
            &&& f.next == 8 * (k + 1)
            &&& forall|a: Seq<char>| #[trigger] f.slots.contains_key(a) ==> 8 <= f.slots[a] <= 8 * k
                && f.slots[a] % 8 == 0
            &&& forall|a: Seq<char>, b: Seq<char>|
                #[trigger] f.slots.contains_key(a) && #[trigger] f.slots.contains_key(b) && a != b
                    ==> f.slots[a] != f.slots[b]
            &&& forall|o: int| 8 <= o <= 8 * k && o % 8 == 0 ==> #[trigger] has_offset(f, o)
            &&& frame_size_of(f) % 16 == 0
            &&& 8 * (k + 1) <= frame_size_of(f) < 8 * (k + 1) + 16
            &&& forall|a: Seq<char>| #[trigger] f.slots.contains_key(a) ==> f.slots[a] + 8 <= frame_size_of(f)
        }),
    decreases names.len(),
{
    let f = frame_vars(empty_frame(), names);
    if names.len() == 0 {
        assert(f.slots.dom() =~= Set::<Seq<char>>::empty());
    } else {
        let pre = names.drop_last();
        let x = names.last();
        lemma_frame_layout(pre);
        let g = frame_vars(empty_frame(), pre);
        let k0 = g.slots.dom().len();
        assert forall|a: Seq<char>| names.contains(a) <==> (pre.contains(a) || a == x) by {
            if names.contains(a) {
                let i = choose|i: int| 0 <= i < names.len() && names[i] == a;
                if i < names.len() - 1 {
                    assert(pre[i] == a);
                }
            }
            if pre.contains(a) {
                let i = choose|i: int| 0 <= i < pre.len() && pre[i] == a;
                assert(names[i] == a);
            }
            if a == x {
                assert(names[names.len() - 1] == a);
            }
        }
        if g.slots.contains_key(x) {
            assert(f == g);
        } else {
            assert(f.slots == g.slots.insert(x, g.next));
            assert(f.slots.dom() =~= g.slots.dom().insert(x));
            assert(f.slots.dom().len() == k0 + 1);
            assert forall|o: int| 8 <= o <= 8 * (k0 + 1) && o % 8 == 0 implies #[trigger] has_offset(f, o) by {
                if o <= 8 * k0 {
                    assert(has_offset(g, o));
                    let a = choose|a: Seq<char>| g.slots.contains_key(a) && g.slots[a] == o;
                    assert(f.slots.contains_key(a) && f.slots[a] == o);
                } else {
                    assert(f.slots.contains_key(x) && f.slots[x] == o);
                }
            }
        }
    }
    lemma_frame_size(f);
}

/// Every name keeps the offset that allocating it first returned: after
/// any further allocations, its slot is still that offset.
pub proof fn lemma_frame_offset_kept(names: Seq<Seq<char>>, i: int)
    requires
        0 <= i < names.len(),
    ensures
        frame_vars(empty_frame(), names).slots.contains_key(names[i]),
        frame_vars(empty_frame(), names).slots[names[i]] == frame_alloc(
            frame_vars(empty_frame(), names.take(i)),
            names[i],
        ).0,
{
    let pre = names.take(i);
    let g = frame_vars(empty_frame(), pre);
    let (o, g1) = frame_alloc(g, names[i]);
    assert(names.take(i + 1).drop_last() =~= pre);
    assert(frame_vars(empty_frame(), names.take(i + 1)) == g1);
    lemma_frame_alloc_stable(g, names[i]);
    let rest = names.skip(i + 1);
    lemma_frame_vars(g1, rest);
    lemma_frame_vars_split(names.take(i + 1), rest);
    assert(names.take(i + 1) + rest =~= names);
}

/// Allocating `a` then `b` is allocating `a + b`.
proof fn lemma_frame_vars_split(a: Seq<Seq<char>>, b: Seq<Seq<char>>)
    ensures
        frame_vars(empty_frame(), a + b) == frame_vars(frame_vars(empty_frame(), a), b),
    decreases b.len(),
{
    if b.len() > 0 {
        lemma_frame_vars_split(a, b.drop_last());
        assert((a + b).drop_last() =~= a + b.drop_last());
        assert((a + b).last() == b.last());
    } else {
        assert(a + b =~= a);
    }
}

/// Assigns each named variable an 8-byte slot below the frame pointer.
pub struct StackFrame {
    pub(crate) offsets: StringHashMap<i32>,
    next_offset: i32,
}

impl StackFrame {
    /// The slots as a map from variable name to offset.
    pub closed spec fn slots(&self) -> Map<Seq<char>, int> {
        self.offsets@.map_values(|v: i32| v as int)
    }

    /// The frame as a value.
    pub open spec fn state(&self) -> FState {
        FState { slots: self.slots(), next: self.next() }
    }

    /// The offset that the next new variable receives.
    pub closed spec fn next(&self) -> int {
        self.next_offset as int
    }

    /// The first slot is at offset 8 or above.
    pub closed spec fn wf(&self) -> bool {
        8 <= self.next_offset
    }

    /// An empty frame; the first slot is at offset 8.
    pub fn new() -> (r: Self)
        ensures
            r.wf(),
            r.slots() == Map::<Seq<char>, int>::empty(),
            r.next() == 8,
    {
        let r = Self { offsets: StringHashMap::new(), next_offset: 8 };
        assert(r.slots() =~= Map::<Seq<char>, int>::empty());
        r
    }

    /// Returns the slot of `name`, giving it the next free slot first if it
    /// has none. An existing slot is never moved.
    pub fn allocate(&mut self, name: &str) -> (r: i32)
        requires
            old(self).wf(),
            old(self).slots().dom().contains(name@) || old(self).next() + 8 <= i32::MAX,
        ensures
            final(self).wf(),
            (r as int, final(self).state()) == frame_alloc(old(self).state(), name@),
            old(self).slots().dom().contains(name@) ==> {
                &&& r == old(self).slots()[name@]
                &&& final(self).slots() == old(self).slots()
                &&& final(self).next() == old(self).next()
            },
            !old(self).slots().dom().contains(name@) ==> {
                &&& r == old(self).next()
                &&& final(self).slots() == old(self).slots().insert(name@, r as int)
                &&& final(self).next() == old(self).next() + 8
            },
    {
        match self.offsets.get(name) {
            Some(off) => *off,
            None => {
                let offset = self.next_offset;
                let ghost old_slots = self.slots();
                self.offsets.insert(String::from_str(name), offset);
                self.next_offset = self.next_offset + 8;
                assert(self.slots() =~= old_slots.insert(name@, offset as int));
                offset
            },
        }
    }

    /// The slot of `name`, which must have one.
    pub fn get(&self, name: &str) -> (r: i32)
        requires
            self.wf(),
            self.slots().dom().contains(name@),
        ensures
            r == self.slots()[name@],
    {
        match self.offsets.get(name) {
            Some(off) => *off,
            None => {
                proof {
                    assert(false);
                }
                0
            },
        }
    }

    /// The frame size: the next free offset rounded up to a multiple of 16.
    pub fn frame_size(&self) -> (r: i32)
        requires
            self.wf(),
            self.next() + 15 <= i32::MAX,
        ensures
            r == ((self.next() + 15) / 16) * 16,
    {
        ((self.next_offset + 15) / 16) * 16
    }
}

} // verus!
