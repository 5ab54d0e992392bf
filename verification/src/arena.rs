//! A fixed-capacity, generational arena: where every kernel object lives.
//!
//! The C kernel allocates a control block per object and hands out its
//! address. Here `N` slots of `T` are kept in the arena, a [`Handle`] (slot +
//! generation) is handed out, and a stale handle is refused. A create beyond
//! `N` is [`Error::NoMemory`], the answer `pvPortMalloc` returning `NULL`
//! gives in C.
//!
//! A slot's generation is odd while it is occupied and even while it is free.
//! Occupying a free slot and freeing an occupied one each step the generation
//! on by one, so a handle to a freed object never matches the next occupant,
//! and no live handle ever has the null generation 0.
use vstd::prelude::*;

use core::marker::PhantomData;

use crate::error::{Error, Result};
use crate::handle::{Handle, Kind};

verus! {

/// One slot: its generation (odd while occupied, even while free) and its object.
struct Slot<T> {
    generation: u16,
    value: Option<T>,
}

/// How many slots are occupied.
pub open spec fn live_count<T>(slots: Seq<(u16, Option<T>)>) -> nat
    decreases slots.len(),
{
    if slots.len() == 0 {
        0
    } else {
        live_count(slots.drop_last()) + if slots.last().1 is Some {
            1nat
        } else {
            0nat
        }
    }
}

/// The first free slot, or the slot count when every slot is occupied.
pub open spec fn first_free<T>(slots: Seq<(u16, Option<T>)>) -> int
    decreases slots.len(),
{
    if slots.len() == 0 {
        0
    } else if slots[0].1 is None {
        0
    } else {
        1 + first_free(slots.drop_first())
    }
}

/// The generation a free slot takes when it is occupied: one more, skipping
/// zero on a wrap so that a live handle is never null.
pub open spec fn occupied_generation(g: u16) -> u16 {
    if g == 0xFFFF {
        1
    } else {
        (g + 1) as u16
    }
}

/// The generation an occupied slot takes when it is freed: one more, wrapping.
pub open spec fn freed_generation(g: u16) -> u16 {
    ((g + 1) % 0x10000) as u16
}

/// The generation of a slot that starts occupied at `g` and is then freed and
/// occupied again `k` times.
pub open spec fn reoccupied(g: u16, k: nat) -> u16
    decreases k,
{
    if k == 0 {
        g
    } else {
        occupied_generation(freed_generation(reoccupied(g, (k - 1) as nat)))
    }
}

/// Every occupied slot, in slot order: its index, its generation and its object.
pub open spec fn live_entries<T>(slots: Seq<(u16, Option<T>)>) -> Seq<(u16, u16, T)>
    decreases slots.len(),
{
    if slots.len() == 0 {
        Seq::empty()
    } else {
        let rest = live_entries(slots.drop_last());
        match slots.last().1 {
            Some(v) => rest.push(((slots.len() - 1) as u16, slots.last().0, v)),
            None => rest,
        }
    }
}

/// `N` slots of `T`, addressed by generational [`Handle<K>`].
///
/// The slots live in a `Vec` filled once by [`Arena::new`] and never grown,
/// since an array of `N` slots cannot be built from a const-generic length here.
pub struct Arena<K: Kind, T, const N: usize> {
    slots: Vec<Slot<T>>,
    len: usize,
    kind: PhantomData<K>,
}

impl<K: Kind, T, const N: usize> Arena<K, T, N> {
    /// Every slot's generation and object, in slot order.
    pub closed spec fn slots(&self) -> Seq<(u16, Option<T>)> {
        Self::view_of(self.slots@)
    }

    /// A run of slots as generations and objects.
    spec fn view_of(s: Seq<Slot<T>>) -> Seq<(u16, Option<T>)> {
        s.map_values(|x: Slot<T>| (x.generation, x.value))
    }

    /// The arena is well formed: `N` slots, occupied exactly when the
    /// generation is odd, and the live count kept.
    pub closed spec fn wf(&self) -> bool {
        &&& N <= 0xFFFE
        &&& self.slots@.len() == N
        &&& forall|i: int|
            0 <= i < N ==> ((#[trigger] self.slots()[i]).1 is Some <==> self.slots()[i].0 % 2 == 1)
        &&& self.len == live_count(self.slots())
    }

    /// The object `handle` names: the one in its slot, when the generations agree.
    pub open spec fn lookup(&self, handle: Handle<K>) -> Option<T> {
        if (handle@.0 as int) < N && self.slots()[handle@.0 as int].0 == handle@.1 {
            self.slots()[handle@.0 as int].1
        } else {
            None
        }
    }

    /// Updating one slot moves the live count by what that slot's liveness did.
    proof fn lemma_live_count_update(s: Seq<(u16, Option<T>)>, i: int, x: (u16, Option<T>))
        requires
            0 <= i < s.len(),
        ensures
            live_count(s.update(i, x)) + (if s[i].1 is Some {
                1int
            } else {
                0int
            }) == live_count(s) + (if x.1 is Some {
                1int
            } else {
                0int
            }),
        decreases s.len(),
    {
        let t = s.update(i, x);
        if i == s.len() - 1 {
            assert(t.drop_last() =~= s.drop_last());
        } else {
            assert(t.drop_last() =~= s.drop_last().update(i, x));
            Self::lemma_live_count_update(s.drop_last(), i, x);
        }
    }

    /// There are at most as many live slots as slots, and fewer when one is free.
    proof fn lemma_live_count_bound(s: Seq<(u16, Option<T>)>)
        ensures
            live_count(s) <= s.len(),
            (exists|i: int| 0 <= i < s.len() && s[i].1 is None) ==> live_count(s) < s.len(),
        decreases s.len(),
    {
        if s.len() > 0 {
            Self::lemma_live_count_bound(s.drop_last());
            if exists|i: int| 0 <= i < s.len() && s[i].1 is None {
                let i = choose|i: int| 0 <= i < s.len() && s[i].1 is None;
                if i < s.len() - 1 {
                    assert(s.drop_last()[i].1 is None);
                }
            }
        }
    }

    /// The scan for a free slot stops at `first_free`.
    proof fn lemma_first_free(s: Seq<(u16, Option<T>)>, k: int)
        requires
            0 <= k <= s.len(),
            forall|j: int| 0 <= j < k ==> #[trigger] s[j].1 is Some,
            k < s.len() ==> s[k].1 is None,
        ensures
            first_free(s) == k,
        decreases k,
    {
        if k > 0 {
            let t = s.drop_first();
            assert forall|j: int| 0 <= j < k - 1 implies #[trigger] t[j].1 is Some by {
                assert(t[j] == s[j + 1]);
            }
            if k - 1 < t.len() {
                assert(t[k - 1] == s[k]);
            }
            assert(s[0].1 is Some);
            Self::lemma_first_free(t, k - 1);
        }
    }

    /// The live entries of the first `i + 1` slots are those of the first `i`,
    /// plus slot `i` when it is occupied.
    proof fn lemma_live_entries_step(s: Seq<(u16, Option<T>)>, i: int)
        requires
            0 <= i < s.len(),
        ensures
            live_entries(s.take(i + 1)) == match s[i].1 {
                Some(v) => live_entries(s.take(i)).push((i as u16, s[i].0, v)),
                None => live_entries(s.take(i)),
            },
    {
        assert(s.take(i + 1).drop_last() =~= s.take(i));
        assert(s.take(i + 1).last() == s[i]);
    }

    /// An empty arena.
    pub fn new() -> (r: Self)
        requires
            N <= 0xFFFE,
        ensures
            r.wf(),
            r.slots() == Seq::new(N as nat, |i: int| (0u16, None::<T>)),
    {
        let mut slots: Vec<Slot<T>> = Vec::new();
        let mut i: usize = 0;
        while i < N
            invariant
                i <= N,
                slots@.len() == i,
                forall|k: int|
                    0 <= k < i ==> #[trigger] slots@[k].generation == 0 && slots@[k].value is None,
            decreases N - i,
        {
            slots.push(Slot { generation: 0, value: None });
            i = i + 1;
        }
        let r = Arena { slots, len: 0, kind: PhantomData };
        proof {
            assert(r.slots() =~= Seq::new(N as nat, |i: int| (0u16, None::<T>)));
            assert forall|k: int| 0 <= k <= N implies live_count(#[trigger] r.slots().take(k))
                == 0 by {
                Self::lemma_live_count_zero(r.slots(), k);
            }
            assert(r.slots().take(N as int) =~= r.slots());
        }
        r
    }

    proof fn lemma_live_count_zero(s: Seq<(u16, Option<T>)>, k: int)
        requires
            0 <= k <= s.len(),
            forall|j: int| 0 <= j < s.len() ==> #[trigger] s[j].1 is None,
        ensures
            live_count(s.take(k)) == 0,
        decreases k,
    {
        if k > 0 {
            assert(s.take(k).drop_last() =~= s.take(k - 1));
            Self::lemma_live_count_zero(s, k - 1);
        }
    }

    /// How many objects are live.
    pub fn len(&self) -> (r: usize)
        requires
            self.wf(),
        ensures
            r == live_count(self.slots()),
    {
        self.len
    }

    /// Whether no object is live.
    pub fn is_empty(&self) -> (r: bool)
        requires
            self.wf(),
        ensures
            r == (live_count(self.slots()) == 0),
    {
        self.len == 0
    }

    /// The capacity, `N`.
    pub fn capacity(&self) -> (r: usize)
        ensures
            r == N,
    {
        N
    }

    /// Whether `handle` names a live object.
    pub fn contains(&self, handle: Handle<K>) -> (r: bool)
        requires
            self.wf(),
        ensures
            r == self.lookup(handle) is Some,
    {
        self.get(handle).is_some()
    }

    /// Like [`Arena::insert`], but hands the value back when there is no room.
    ///
    /// The value goes into the first free slot, whose generation steps on to
    /// an odd one.
    pub fn try_insert(&mut self, value: T) -> (r: core::result::Result<Handle<K>, T>)
        requires
            old(self).wf(),
        ensures
            final(self).wf(),
            first_free(old(self).slots()) == N ==> r == Err::<Handle<K>, T>(value) && *final(self)
                == *old(self),
            first_free(old(self).slots()) < N ==> {
                let i = first_free(old(self).slots());
                let g = occupied_generation(old(self).slots()[i].0);
                &&& r is Ok
                &&& r->Ok_0@ == (i as u16, g)
                &&& g % 2 == 1
                &&& final(self).slots() == old(self).slots().update(i, (g, Some(value)))
            },
            r is Ok ==> final(self).lookup(r->Ok_0) == Some(value),
            r is Ok ==> forall|h: Handle<K>|
                h@.0 != r->Ok_0@.0 ==> #[trigger] final(self).lookup(h) == old(self).lookup(h),
            r is Ok ==> live_count(final(self).slots()) == live_count(old(self).slots()) + 1,
            r is Ok ==> r->Ok_0@.1 != 0 && (r->Ok_0@.0 as int) < N,
    {
        let mut i: usize = 0;
        while i < N && self.slots[i].value.is_some()
            invariant
                self.wf(),
                i <= N,
                forall|j: int| 0 <= j < i ==> (#[trigger] self.slots()[j]).1 is Some,
            decreases N - i,
        {
            proof {
                assert(self.slots()[i as int].1 is Some);
            }
            i = i + 1;
        }
        proof {
            Self::lemma_first_free(self.slots(), i as int);
        }
        if i == N {
            return Err(value);
        }
        let ghost pre = *self;
        let g = self.slots[i].generation;
        let mut generation = g.wrapping_add(1);
        if generation == 0 {
            generation = 1;
        }
        proof {
            assert(pre.slots()[i as int].1 is None);
            assert(g % 2 == 0);
            Self::lemma_live_count_bound(pre.slots());
            Self::lemma_live_count_update(pre.slots(), i as int, (generation, Some(value)));
        }
        self.slots.set(i, Slot { generation, value: Some(value) });
        self.len = self.len + 1;
        proof {
            assert(self.slots() =~= pre.slots().update(i as int, (generation, Some(value))));
        }
        let h = Handle::from_parts(i as u16, generation);
        proof {
            assert(h@.0 as int == i);
            assert(self.slots()[i as int] == (generation, Some(value)));
            assert forall|h2: Handle<K>| h2@.0 != h@.0 implies #[trigger] self.lookup(h2)
                == pre.lookup(h2) by {
                if (h2@.0 as int) < N {
                    assert(self.slots()[h2@.0 as int] == pre.slots()[h2@.0 as int]);
                }
            }
        }
        Ok(h)
    }

    /// Place `value` in a free slot and return its handle:
    /// [`Error::NoMemory`] when every slot is occupied.
    pub fn insert(&mut self, value: T) -> (r: Result<Handle<K>>)
        requires
            old(self).wf(),
        ensures
            final(self).wf(),
            first_free(old(self).slots()) == N ==> r == Err::<Handle<K>, Error>(Error::NoMemory)
                && *final(self) == *old(self),
            first_free(old(self).slots()) < N ==> {
                let i = first_free(old(self).slots());
                let g = occupied_generation(old(self).slots()[i].0);
                &&& r is Ok
                &&& r->Ok_0@ == (i as u16, g)
                &&& g % 2 == 1
                &&& final(self).slots() == old(self).slots().update(i, (g, Some(value)))
            },
            r is Ok ==> final(self).lookup(r->Ok_0) == Some(value),
            r is Ok ==> forall|h: Handle<K>|
                h@.0 != r->Ok_0@.0 ==> #[trigger] final(self).lookup(h) == old(self).lookup(h),
            r is Ok ==> live_count(final(self).slots()) == live_count(old(self).slots()) + 1,
            r is Ok ==> r->Ok_0@.1 != 0 && (r->Ok_0@.0 as int) < N,
    {
        match self.try_insert(value) {
            Ok(h) => Ok(h),
            Err(_) => Err(Error::NoMemory),
        }
    }

    /// The object `handle` names.
    pub fn get(&self, handle: Handle<K>) -> (r: Option<&T>)
        requires
            self.wf(),
        ensures
            r is Some == self.lookup(handle) is Some,
            r is Some ==> *r->Some_0 == self.lookup(handle)->Some_0,
    {
        let i = handle.index() as usize;
        if i >= N {
            return None;
        }
        let slot = &self.slots[i];
        if slot.generation != handle.generation() {
            return None;
        }
        slot.value.as_ref()
    }

    /// The object `handle` names, mutably.
    pub fn get_mut(&mut self, handle: Handle<K>) -> (r: Option<&mut T>)
        requires
            old(self).wf(),
        ensures
            old(self).lookup(handle) is None ==> r is None && *final(self) == *old(self),
            old(self).lookup(handle) is Some ==> r is Some,
            old(self).lookup(handle) is Some ==> *r->Some_0 == old(self).lookup(handle)->Some_0,
            old(self).lookup(handle) is Some ==> final(self).slots() == old(self).slots().update(
                handle@.0 as int,
                (handle@.1, Some(*final(r->Some_0))),
            ),
            old(self).lookup(handle) is Some ==> final(self).wf(),
    {
        let i = handle.index() as usize;
        if i >= N {
            return None;
        }
        if self.slots[i].generation != handle.generation() {
            return None;
        }
        if self.slots[i].value.is_none() {
            return None;
        }
        let ghost pre = *self;
        let slot = &mut self.slots[i];
        let r = slot.value.as_mut();
        proof {
            let x = Slot { generation: handle@.1, value: Some(*final(r->Some_0)) };
            Self::lemma_live_count_update(pre.slots(), i as int, (handle@.1, Some(*final(r->Some_0))));
            assert(pre.slots@.update(i as int, x).map_values(|s: Slot<T>| (s.generation, s.value))
                =~= pre.slots().update(i as int, (handle@.1, Some(*final(r->Some_0)))));
        }
        r
    }

    /// Why a handle that did not resolve did not resolve: the null handle
    /// never named anything, any other named something that is gone.
    fn why(handle: Handle<K>) -> (e: Error)
        ensures
            e == if handle@.1 == 0 {
                Error::InvalidHandle
            } else {
                Error::Gone
            },
    {
        if handle.is_null() {
            Error::InvalidHandle
        } else {
            Error::Gone
        }
    }

    /// The error [`Arena::resolve`] answers a handle that does not resolve with:
    /// [`Error::InvalidHandle`] for an index beyond the arena or the null
    /// handle, [`Error::Gone`] for a generation that was reused or freed.
    pub open spec fn resolve_error(handle: Handle<K>) -> Error {
        if handle@.0 as int >= N || handle@.1 == 0 {
            Error::InvalidHandle
        } else {
            Error::Gone
        }
    }

    /// Like [`Arena::get`], but says why.
    pub fn resolve(&self, handle: Handle<K>) -> (r: Result<&T>)
        requires
            self.wf(),
        ensures
            self.lookup(handle) is None ==> r == Err::<&T, Error>(Self::resolve_error(handle)),
            self.lookup(handle) is Some ==> r is Ok && *r->Ok_0 == self.lookup(handle)->Some_0,
    {
        let i = handle.index() as usize;
        if i >= N {
            return Err(Error::InvalidHandle);
        }
        let slot = &self.slots[i];
        if slot.generation != handle.generation() {
            return Err(Self::why(handle));
        }
        match slot.value.as_ref() {
            Some(v) => Ok(v),
            None => Err(Self::why(handle)),
        }
    }

    /// Like [`Arena::resolve`], mutably.
    pub fn resolve_mut(&mut self, handle: Handle<K>) -> (r: Result<&mut T>)
        requires
            old(self).wf(),
        ensures
            old(self).lookup(handle) is None ==> r == Err::<&mut T, Error>(
                Self::resolve_error(handle),
            ) && *final(self) == *old(self),
            old(self).lookup(handle) is Some ==> {
                &&& r is Ok
                &&& *r->Ok_0 == old(self).lookup(handle)->Some_0
                &&& final(self).slots() == old(self).slots().update(
                    handle@.0 as int,
                    (handle@.1, Some(*final(r->Ok_0))),
                )
                &&& final(self).wf()
            },
    {
        let i = handle.index() as usize;
        if i >= N {
            return Err(Error::InvalidHandle);
        }
        if self.slots[i].generation != handle.generation() {
            return Err(Self::why(handle));
        }
        if self.slots[i].value.is_none() {
            return Err(Self::why(handle));
        }
        let ghost pre = *self;
        let slot = &mut self.slots[i];
        match slot.value.as_mut() {
            Some(v) => {
                proof {
                    let x = Slot { generation: handle@.1, value: Some(*final(v)) };
                    Self::lemma_live_count_update(pre.slots(), i as int, (handle@.1, Some(*final(v))));
                    assert(pre.slots@.update(i as int, x).map_values(|s: Slot<T>| (s.generation, s.value))
                        =~= pre.slots().update(i as int, (handle@.1, Some(*final(v)))));
                }
                Ok(v)
            },
            None => Err(Self::why(handle)),
        }
    }

    /// Remove the object `handle` names, invalidating the handle and every
    /// copy of it: the slot's generation steps on to an even one.
    pub fn remove(&mut self, handle: Handle<K>) -> (r: Option<T>)
        requires
            old(self).wf(),
        ensures
            final(self).wf(),
            old(self).lookup(handle) is None ==> r is None && *final(self) == *old(self),
            old(self).lookup(handle) is Some ==> {
                &&& r == old(self).lookup(handle)
                &&& final(self).slots() == old(self).slots().update(
                    handle@.0 as int,
                    (freed_generation(handle@.1), None),
                )
                &&& final(self).lookup(handle) is None
                &&& live_count(final(self).slots()) == live_count(old(self).slots()) - 1
                &&& forall|h: Handle<K>| h@.0 == handle@.0 ==> #[trigger] final(self).lookup(h) is None
            },
            forall|h: Handle<K>|
                h@.0 != handle@.0 ==> #[trigger] final(self).lookup(h) == old(self).lookup(h),
    {
        let i = handle.index() as usize;
        if i >= N {
            return None;
        }
        if self.slots[i].generation != handle.generation() {
            return None;
        }
        if self.slots[i].value.is_none() {
            return None;
        }
        let ghost pre = *self;
        let g = self.slots[i].generation;
        let generation = g.wrapping_add(1);
        let slot = &mut self.slots[i];
        let value = slot.value.take();
        slot.generation = generation;
        proof {
            assert(g % 2 == 1);
            Self::lemma_live_count_update(pre.slots(), i as int, (generation, None));
        }
        self.len = self.len - 1;
        proof {
            assert(self.slots() =~= pre.slots().update(i as int, (generation, None)));
        }
        value
    }

    /// Every live `(handle, object)` in slot order.
    pub fn iter(&self) -> (r: Vec<(Handle<K>, &T)>)
        requires
            self.wf(),
        ensures
            r@.len() == live_entries(self.slots()).len(),
            forall|j: int|
                0 <= j < r@.len() ==> (#[trigger] r@[j]).0@ == (
                    live_entries(self.slots())[j].0,
                    live_entries(self.slots())[j].1,
                ) && *r@[j].1 == live_entries(self.slots())[j].2,
    {
        let mut r: Vec<(Handle<K>, &T)> = Vec::new();
        let mut i: usize = 0;
        let ghost s = self.slots();
        while i < N
            invariant
                self.wf(),
                s == self.slots(),
                i <= N,
                r@.len() == live_entries(s.take(i as int)).len(),
                forall|j: int|
                    0 <= j < r@.len() ==> (#[trigger] r@[j]).0@ == (
                        live_entries(s.take(i as int))[j].0,
                        live_entries(s.take(i as int))[j].1,
                    ) && *r@[j].1 == live_entries(s.take(i as int))[j].2,
            decreases N - i,
        {
            proof {
                Self::lemma_live_entries_step(s, i as int);
            }
            let slot = &self.slots[i];
            match slot.value.as_ref() {
                Some(v) => {
                    r.push((Handle::from_parts(i as u16, slot.generation), v));
                },
                None => {},
            }
            i = i + 1;
        }
        proof {
            assert(s.take(N as int) =~= s);
        }
        r
    }

    /// The live count of two runs of slots laid end to end is the sum of theirs.
    proof fn lemma_live_count_concat(a: Seq<(u16, Option<T>)>, b: Seq<(u16, Option<T>)>)
        ensures
            live_count(a + b) == live_count(a) + live_count(b),
        decreases b.len(),
    {
        if b.len() > 0 {
            assert((a + b).drop_last() =~= a + b.drop_last());
            Self::lemma_live_count_concat(a, b.drop_last());
        } else {
            assert(a + b =~= a);
        }
    }

    /// A run of slots with one slot in front has that slot's liveness more.
    proof fn lemma_live_count_cons(x: (u16, Option<T>), t: Seq<(u16, Option<T>)>)
        ensures
            live_count(seq![x] + t) == live_count(t) + if x.1 is Some {
                1nat
            } else {
                0nat
            },
    {
        Self::lemma_live_count_concat(seq![x], t);
        assert(seq![x].drop_last() =~= Seq::<(u16, Option<T>)>::empty());
        assert(live_count(Seq::<(u16, Option<T>)>::empty()) == 0);
    }

    /// Runs of slots that are live at the same places have the same live count.
    proof fn lemma_live_count_by_shape()
        ensures
            forall|a: Seq<(u16, Option<T>)>, b: Seq<(u16, Option<T>)>|
                a.len() == b.len() && (forall|i: int|
                    0 <= i < a.len() ==> (a[i].1 is Some <==> b[i].1 is Some)) ==> #[trigger] live_count(a)
                    == #[trigger] live_count(b),
    {
        assert forall|a: Seq<(u16, Option<T>)>, b: Seq<(u16, Option<T>)>|
            a.len() == b.len() && (forall|i: int|
                0 <= i < a.len() ==> (a[i].1 is Some <==> b[i].1 is Some)) implies live_count(a)
            == live_count(b) by {
            Self::lemma_live_count_same_shape(a, b);
        }
    }

    proof fn lemma_live_count_same_shape(a: Seq<(u16, Option<T>)>, b: Seq<(u16, Option<T>)>)
        requires
            a.len() == b.len(),
            forall|i: int| 0 <= i < a.len() ==> (a[i].1 is Some <==> b[i].1 is Some),
        ensures
            live_count(a) == live_count(b),
        decreases a.len(),
    {
        if a.len() > 0 {
            assert(a.last().1 is Some <==> b.last().1 is Some);
            Self::lemma_live_count_same_shape(a.drop_last(), b.drop_last());
        }
    }

    /// Hands out, in slot order, a mutable borrow of every live object in
    /// `rest` (whose first slot is slot `base`), appending them to `out`.
    fn collect_mut<'a>(
        rest: &'a mut [Slot<T>],
        base: usize,
        out: &mut Vec<(Handle<K>, &'a mut T)>,
    )
        requires
            base + old(rest)@.len() <= N,
            N <= 0xFFFE,
        ensures
            final(out)@.len() == old(out)@.len() + live_count(Self::view_of(old(rest)@)),
            forall|j: int| 0 <= j < old(out)@.len() ==> #[trigger] final(out)@[j] == old(out)@[j],
            Self::view_of(final(rest)@).len() == old(rest)@.len(),
            forall|i: int|
                #![trigger Self::view_of(old(rest)@)[i]]
                #![trigger Self::view_of(final(rest)@)[i]]
                0 <= i < old(rest)@.len() ==> Self::view_of(final(rest)@)[i].0 == Self::view_of(
                    old(rest)@,
                )[i].0 && (Self::view_of(final(rest)@)[i].1 is None <==> Self::view_of(
                    old(rest)@,
                )[i].1 is None),
            forall|i: int|
                0 <= i < old(rest)@.len() && #[trigger] Self::view_of(old(rest)@)[i].1 is Some
                    ==> {
                    let k = (old(out)@.len() + live_count(Self::view_of(old(rest)@).take(i))) as int;
                    &&& final(out)@[k].0@ == ((base + i) as u16, Self::view_of(old(rest)@)[i].0)
                    &&& *final(out)@[k].1 == Self::view_of(old(rest)@)[i].1->Some_0
                    &&& Self::view_of(final(rest)@)[i].1 == Some(*final(final(out)@[k].1))
                },
        decreases old(rest)@.len(),
    {
        if rest.len() == 0 {
            return ;
        }
        let ghost s = Self::view_of(old(rest)@);
        let ghost o = out@.len();
        let (head, tail) = rest.split_at_mut(1);
        let ghost t = Self::view_of(tail@);
        let slot = head.first_mut().unwrap();
        let Slot { generation, value } = slot;
        match value.as_mut() {
            Some(v) => {
                out.push((Handle::from_parts(base as u16, *generation), v));
            },
            None => {},
        }
        Self::collect_mut(tail, base + 1, out);
        proof {
            assert(s =~= seq![s[0]] + t);
            Self::lemma_live_count_cons(s[0], t);
            assert forall|i: int| 1 <= i <= s.len() implies live_count(#[trigger] s.take(i))
                == live_count(s.take(1)) + live_count(t.take(i - 1)) by {
                assert(s.take(i) =~= seq![s[0]] + t.take(i - 1));
                Self::lemma_live_count_cons(s[0], t.take(i - 1));
                assert(s.take(1) =~= seq![s[0]] + Seq::<(u16, Option<T>)>::empty());
                Self::lemma_live_count_cons(s[0], Seq::<(u16, Option<T>)>::empty());
            }
            assert(s.take(0) =~= Seq::<(u16, Option<T>)>::empty());
        }
    }

    /// Every live `(handle, object)` in slot order, mutably: the `k`th entry
    /// is the object in the `k`th occupied slot, and what is written through
    /// it is what that slot holds afterwards.
    pub fn iter_mut(&mut self) -> (r: Vec<(Handle<K>, &mut T)>)
        requires
            old(self).wf(),
        ensures
            r@.len() == live_count(old(self).slots()),
            forall|i: int|
                0 <= i < N && #[trigger] old(self).slots()[i].1 is Some ==> {
                    let k = live_count(old(self).slots().take(i)) as int;
                    &&& r@[k].0@ == (i as u16, old(self).slots()[i].0)
                    &&& *r@[k].1 == old(self).slots()[i].1->Some_0
                    &&& final(self).slots()[i] == (
                        old(self).slots()[i].0,
                        Some(*final(r@[k].1)),
                    )
                },
            forall|i: int|
                0 <= i < N && #[trigger] old(self).slots()[i].1 is None ==> final(self).slots()[i]
                    == old(self).slots()[i],
            final(self).wf(),
    {
        let mut out: Vec<(Handle<K>, &mut T)> = Vec::new();
        let slice = self.slots.as_mut_slice();
        Self::collect_mut(slice, 0, &mut out);
        proof {
            Self::lemma_live_count_by_shape();
        }
        out
    }

    /// The handle of the object at slot `index`, if one is live there.
    pub fn handle_at(&self, index: u16) -> (r: Option<Handle<K>>)
        requires
            self.wf(),
        ensures
            (index as int) < N && self.slots()[index as int].1 is Some ==> r is Some
                && r->Some_0@ == (index, self.slots()[index as int].0),
            !((index as int) < N && self.slots()[index as int].1 is Some) ==> r is None,
    {
        let i = index as usize;
        if i >= N {
            return None;
        }
        let slot = &self.slots[i];
        if slot.value.is_none() {
            return None;
        }
        Some(Handle::from_parts(index, slot.generation))
    }

    /// What a well-formed arena is: `N` slots, `N` small enough for a handle
    /// index, a slot occupied exactly when its generation is odd, and at most
    /// `N` of them occupied.
    pub proof fn lemma_wf(&self)
        requires
            self.wf(),
        ensures
            N <= 0xFFFE,
            self.slots().len() == N,
            forall|i: int|
                0 <= i < N ==> ((#[trigger] self.slots()[i]).1 is Some <==> self.slots()[i].0 % 2
                    == 1),
            live_count(self.slots()) <= N,
            live_count(self.slots()) < N <==> first_free(self.slots()) < N,
            first_free(self.slots()) <= N,
            forall|j: int| 0 <= j < first_free(self.slots()) ==> (#[trigger] self.slots()[j]).1 is Some,
            first_free(self.slots()) < N ==> self.slots()[first_free(self.slots())].1 is None,
            live_entries(self.slots()).len() == live_count(self.slots()),
            forall|j: int|
                0 <= j < live_entries(self.slots()).len() ==> {
                    let e = #[trigger] live_entries(self.slots())[j];
                    &&& (e.0 as int) < N
                    &&& self.slots()[e.0 as int] == (e.1, Some(e.2))
                },
    {
        let s = self.slots();
        Self::lemma_live_count_bound(s);
        Self::lemma_first_free_props(s);
        Self::lemma_live_entries(s);
        if first_free(s) == N {
            Self::lemma_live_count_full(s);
        }
    }

    /// The first free slot is the least one: every slot before it is occupied,
    /// and it is free unless every slot is occupied.
    proof fn lemma_first_free_props(s: Seq<(u16, Option<T>)>)
        ensures
            0 <= first_free(s) <= s.len(),
            forall|j: int| 0 <= j < first_free(s) ==> (#[trigger] s[j]).1 is Some,
            first_free(s) < s.len() ==> s[first_free(s)].1 is None,
        decreases s.len(),
    {
        if s.len() > 0 && s[0].1 is Some {
            let t = s.drop_first();
            Self::lemma_first_free_props(t);
            assert forall|j: int| 0 <= j < first_free(s) implies (#[trigger] s[j]).1 is Some by {
                if j > 0 {
                    assert(s[j] == t[j - 1]);
                }
            }
        }
    }

    /// Every slot occupied means the live count is the slot count.
    proof fn lemma_live_count_full(s: Seq<(u16, Option<T>)>)
        requires
            forall|j: int| 0 <= j < s.len() ==> (#[trigger] s[j]).1 is Some,
        ensures
            live_count(s) == s.len(),
        decreases s.len(),
    {
        if s.len() > 0 {
            let t = s.drop_last();
            assert forall|j: int| 0 <= j < t.len() implies (#[trigger] t[j]).1 is Some by {
                assert(t[j] == s[j]);
            }
            Self::lemma_live_count_full(t);
            assert(s.last().1 is Some) by {
                assert(s.last() == s[s.len() - 1]);
            }
        }
    }

    /// There is one live entry per occupied slot, and each names its slot,
    /// that slot's generation and its object.
    proof fn lemma_live_entries(s: Seq<(u16, Option<T>)>)
        requires
            s.len() <= 0x10000,
        ensures
            live_entries(s).len() == live_count(s),
            forall|j: int|
                0 <= j < live_entries(s).len() ==> {
                    let e = #[trigger] live_entries(s)[j];
                    &&& (e.0 as int) < s.len()
                    &&& s[e.0 as int] == (e.1, Some(e.2))
                },
        decreases s.len(),
    {
        if s.len() > 0 {
            let t = s.drop_last();
            Self::lemma_live_entries(t);
            assert forall|j: int| 0 <= j < live_entries(s).len() implies {
                let e = #[trigger] live_entries(s)[j];
                &&& (e.0 as int) < s.len()
                &&& s[e.0 as int] == (e.1, Some(e.2))
            } by {
                if j < live_entries(t).len() {
                    let e = live_entries(t)[j];
                    assert(live_entries(s)[j] == e);
                    assert(s[e.0 as int] == t[e.0 as int]);
                }
            }
        }
    }

    /// A live handle is never the null handle: its generation is odd.
    pub proof fn lemma_live_handle_is_not_null(&self, handle: Handle<K>)
        requires
            self.wf(),
            self.lookup(handle) is Some,
        ensures
            handle@.1 % 2 == 1,
            handle@.1 != 0,
    {
        assert(self.slots()[handle@.0 as int].1 is Some);
    }

    /// The generation cycle of a slot: an occupied slot's generation is odd,
    /// freeing it makes it even, and occupying it again makes it odd, not
    /// null, and different from the generation it had before it was freed,
    /// so the freed handle never names the new occupant.
    pub proof fn lemma_generation_cycle(g: u16)
        requires
            g % 2 == 1,
        ensures
            freed_generation(g) % 2 == 0,
            occupied_generation(freed_generation(g)) % 2 == 1,
            occupied_generation(freed_generation(g)) != g,
            occupied_generation(freed_generation(g)) != 0,
    {
    }

    /// A slot's generations do not repeat within a lap: freed and occupied
    /// again up to 32767 times, an occupied slot never takes back the
    /// generation it started at, nor the null generation, so a removed handle
    /// resolves to none of those occupants. The 32768th reoccupation brings
    /// the generation round again.
    pub proof fn lemma_generations_do_not_repeat(g: u16, k: nat)
        requires
            g % 2 == 1,
            1 <= k < 0x8000,
        ensures
            reoccupied(g, k) != g,
            reoccupied(g, k) % 2 == 1,
    {
        Self::lemma_reoccupied(g, k);
        let x = g - 1 + 2 * k;
        assert(g - 1 < x < g - 1 + 0x10000);
        if x < 0x10000 {
            vstd::arithmetic::div_mod::lemma_small_mod(x as nat, 0x10000);
        } else {
            vstd::arithmetic::div_mod::lemma_mod_sub_multiples_vanish(x, 0x10000);
            vstd::arithmetic::div_mod::lemma_small_mod((x - 0x10000) as nat, 0x10000);
        }
    }

    /// After `k` reoccupations a slot that started at odd `g` sits at
    /// `(g - 1 + 2k) mod 2^16 + 1`.
    proof fn lemma_reoccupied(g: u16, k: nat)
        requires
            g % 2 == 1,
        ensures
            reoccupied(g, k) as int == (g - 1 + 2 * k) % 0x10000 + 1,
            reoccupied(g, k) % 2 == 1,
        decreases k,
    {
        if k > 0 {
            Self::lemma_reoccupied(g, (k - 1) as nat);
            let r = reoccupied(g, (k - 1) as nat);
            let y = g - 1 + 2 * (k - 1);
            vstd::arithmetic::div_mod::lemma_add_mod_noop(y, 2, 0x10000);
            vstd::arithmetic::div_mod::lemma_small_mod(2, 0x10000);
            assert((y + 2) % 0x10000 == (y % 0x10000 + 2) % 0x10000);
            if r == 0xFFFF {
                vstd::arithmetic::div_mod::lemma_mod_self_0(0x10000);
                assert((y % 0x10000 + 2) == 0x10000);
            } else {
                vstd::arithmetic::div_mod::lemma_small_mod((y % 0x10000 + 2) as nat, 0x10000);
            }
        }
    }
}

impl<K: Kind, T, const N: usize> Default for Arena<K, T, N> {
    /// An empty arena, as [`Arena::new`] makes it. Only an `N` that fits a
    /// handle index makes a usable arena.
    fn default() -> (r: Self)
        ensures
            N <= 0xFFFE ==> r.wf() && r.slots() == Seq::new(N as nat, |i: int| (0u16, None::<T>)),
    {
        if N <= 0xFFFE {
            Self::new()
        } else {
            Arena { slots: Vec::new(), len: 0, kind: PhantomData }
        }
    }
}

} // verus!
