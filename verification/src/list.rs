//! `list.c` remade over indices: the scheduler's ready, delayed, suspended
//! and event lists without a pointer.
//!
//! FreeRTOS threads a `ListItem_t` through every control block: a doubly
//! linked, circular list with an end marker whose value is `portMAX_DELAY`,
//! a per-list cursor (`pxIndex`) that `vListInsertEnd` and the round-robin
//! walk use, and a `pxContainer` back-pointer so `uxListRemove` needs no
//! list argument. Every one of those is here, over `u16` indices:
//!
//! * `vListInsert`     -> [`ListsOf::insert`]: sorted by value, after equal values.
//! * `vListInsertEnd`  -> [`ListsOf::insert_end`]: immediately before the cursor.
//! * `uxListRemove`    -> [`ListsOf::remove`]: returns the remaining count and
//!   moves the cursor back if it sat on the removed item.
//! * `listGET_OWNER_OF_NEXT_ENTRY` -> [`ListsOf::next_round_robin`].
//! * `listGET_HEAD_ENTRY` / `listGET_ITEM_VALUE_OF_HEAD_ENTRY` -> [`ListsOf::head`],
//!   [`ListsOf::head_value`].
//! * `listLIST_ITEM_CONTAINER` -> [`ListsOf::container`].
//!
//! The node array holds the items first and then one end marker per list; a
//! marker is a node too, carrying the largest value there is, so the ordered
//! walk stops on it by the comparison it makes anyway.
//!
//! The abstract state is, per list, the sequence of its items in link order
//! ([`ListsOf::order`]) and its cursor ([`ListsOf::cursor`]), plus the value
//! of every item ([`ListsOf::values`]). Every operation is specified over that
//! state, and a wrong index or a double insert is an [`Error`], never a
//! corrupted list.
use vstd::prelude::*;

use crate::error::{Error, Result};

verus! {

/// One of the `L` lists, `0..L`.
pub type ListId = u8;

/// One of the items, `0..N - L`.
pub type ItemId = u16;

/// What a list sorts by: a tick, at the width the configuration uses.
///
/// The implementors are the three unsigned widths a tick can have.
pub trait ListValue: Copy + core::fmt::Debug {
    /// The value as a number.
    spec fn key(self) -> int;

    /// `portMAX_DELAY` at this width: sorts last, and is the end marker's own value.
    const MAX: Self;

    /// The value an item carries before it has ever been given one.
    const ZERO: Self;

    /// Whether `self` sorts strictly after `other`.
    fn exceeds(&self, other: &Self) -> (r: bool)
        ensures
            r == (self.key() > other.key()),
    ;

    /// `ZERO` is the least value, `MAX` the greatest, and a value is fixed by its key.
    proof fn lemma_bounds(v: Self)
        ensures
            Self::ZERO.key() == 0,
            0 <= v.key() <= Self::MAX.key(),
            v.key() == Self::MAX.key() ==> v == Self::MAX,
    ;
}

impl ListValue for u64 {
    open spec fn key(self) -> int {
        self as int
    }

    const MAX: Self = 0xFFFF_FFFF_FFFF_FFFF;

    const ZERO: Self = 0;

    fn exceeds(&self, other: &Self) -> (r: bool) {
        *self > *other
    }

    proof fn lemma_bounds(v: Self) {
    }
}

impl ListValue for u32 {
    open spec fn key(self) -> int {
        self as int
    }

    const MAX: Self = 0xFFFF_FFFF;

    const ZERO: Self = 0;

    fn exceeds(&self, other: &Self) -> (r: bool) {
        *self > *other
    }

    proof fn lemma_bounds(v: Self) {
    }
}

impl ListValue for u16 {
    open spec fn key(self) -> int {
        self as int
    }

    const MAX: Self = 0xFFFF;

    const ZERO: Self = 0;

    fn exceeds(&self, other: &Self) -> (r: bool) {
        *self > *other
    }

    proof fn lemma_bounds(v: Self) {
    }
}

/// A link that names nothing, in a node that has never been linked.
const NONE: u16 = 0xFFFF;

/// `container` when an item is in no list. `L` is at most 255, so this never
/// names a list.
const NO_LIST: u8 = 0xFF;

/// Whether `n` is a power of two.
pub open spec fn is_power_of_two(n: int) -> bool
    decreases n,
{
    if n <= 0 {
        false
    } else if n == 1 {
        true
    } else {
        n % 2 == 0 && is_power_of_two(n / 2)
    }
}

/// Of the powers of two, only `p` itself lies above `p / 2` and at most `p`.
proof fn lemma_power_of_two_unique(p: int, n: int)
    requires
        is_power_of_two(p),
        is_power_of_two(n),
        p / 2 < n <= p,
    ensures
        n == p,
    decreases p,
{
    if p > 1 && n > 1 {
        if p == 2 {
            assert(n == 2);
        } else {
            lemma_power_of_two_unique(p / 2, n / 2);
        }
    }
}

/// `items + lists`, saturating at `usize::MAX`.
pub open spec fn saturated_sum(items: usize, lists: usize) -> int {
    if items + lists > usize::MAX {
        usize::MAX as int
    } else {
        items + lists
    }
}

/// How many slots a set of lists needs to hold `items` items and `lists`
/// lists: the sum, rounded up to a power of two.
pub fn slots_for(items: usize, lists: usize) -> (slots: usize)
    requires
        saturated_sum(items, lists) <= usize::MAX / 2 + 1,
    ensures
        is_power_of_two(slots as int),
        slots >= saturated_sum(items, lists),
        slots == 1 || slots / 2 < saturated_sum(items, lists),
{
    let n = items.saturating_add(lists);
    let mut p: usize = 1;
    while p < n
        invariant
            is_power_of_two(p as int),
            p >= 1,
            p == 1 || p / 2 < n,
            n == saturated_sum(items, lists),
            n <= usize::MAX / 2 + 1,
        decreases 2 * n - p,
    {
        p = p * 2;
    }
    p
}

/// The item after position `j` of `s`, or the marker `m` past its end.
/// Position `-1` is the marker itself, so `succ(s, -1, m)` is the head.
pub open spec fn succ(s: Seq<ItemId>, j: int, m: u16) -> u16 {
    if j + 1 < s.len() {
        s[j + 1]
    } else {
        m
    }
}

/// The item before position `j` of `s`, or the marker `m` before its start.
/// Position `s.len()` is the marker itself, so `pred(s, s.len(), m)` is the tail.
pub open spec fn pred(s: Seq<ItemId>, j: int, m: u16) -> u16 {
    if j > 0 {
        s[j - 1]
    } else {
        m
    }
}

/// Where `vListInsert` puts a value into a list with these items: before the
/// first item whose value is strictly greater, or at the end if there is none.
pub open spec fn sorted_position<V: ListValue>(s: Seq<ItemId>, values: Seq<V>, value: V) -> int
    decreases s.len(),
{
    if s.len() == 0 {
        0
    } else if values[s[0] as int].key() > value.key() {
        0
    } else {
        1 + sorted_position(s.drop_first(), values, value)
    }
}

/// Whether the items' values are in ascending order.
pub open spec fn is_ascending<V: ListValue>(s: Seq<ItemId>, values: Seq<V>) -> bool {
    forall|i: int, j: int|
        0 <= i < j < s.len() ==> #[trigger] values[s[i] as int].key() <= #[trigger] values[s[
            j
        ] as int].key()
}

/// One node, and an end marker is one too.
#[derive(Clone, Copy)]
struct Node<V: ListValue> {
    /// `xItemValue`. On a marker this is `V::MAX`.
    value: V,
    /// `pxPrevious`.
    prev: u16,
    /// `pxNext`.
    next: u16,
    /// `pxContainer`, or `NO_LIST`. A marker belongs to no list.
    container: u8,
}

/// What a `List_t` keeps beside its end marker: the round-robin cursor and the count.
#[derive(Clone, Copy)]
struct Meta {
    /// `pxIndex`, the round-robin cursor. Starts at the list's own marker.
    cursor: u16,
    /// `uxNumberOfItems`.
    len: u16,
}

/// `N` slots (items first, then one end marker per list) over `L` lists.
///
/// `N` is the slot count, not the item count. It must be a power of two and
/// larger than `L`; [`slots_for`] computes it. The item capacity is `N - L`.
///
/// The nodes live in a `Vec` filled once by [`ListsOf::new`] and never grown,
/// since an array of `N` nodes cannot be built from a const-generic length here.
pub struct ListsOf<V: ListValue, const N: usize, const L: usize> {
    /// Items in `0..N - L`, then one marker per list.
    nodes: Vec<Node<V>>,
    /// One per list, indexed by [`ListId`].
    meta: Vec<Meta>,
    /// Each list's items, in link order.
    lists: Ghost<Seq<Seq<ItemId>>>,
}

/// The kernel's lists: `u64` values, which is what a tick count is.
pub type Lists<const N: usize, const L: usize> = ListsOf<u64, N, L>;

impl<V: ListValue, const N: usize, const L: usize> ListsOf<V, N, L> {
    /// The geometry the lists can be built with: `N` a power of two, at most
    /// `0x8000`, larger than `L`, and `L` between 1 and 255.
    pub open spec fn geometry_ok() -> bool {
        &&& is_power_of_two(N as int)
        &&& 0 < L
        &&& L < N
        &&& N <= 0x8000
        &&& L <= 255
    }

    /// How many of the `N` slots hold items.
    pub open spec fn cap() -> int {
        N - L
    }

    /// The slot of `list`'s end marker.
    pub open spec fn marker(list: int) -> u16 {
        (N - L + list) as u16
    }

    /// Whether `list` names one of the `L` lists.
    pub open spec fn is_list(list: ListId) -> bool {
        (list as int) < L
    }

    /// Whether `item` names one of the items.
    pub open spec fn is_item(item: ItemId) -> bool {
        (item as int) < N - L
    }

    /// The items of `list`, in order from the head.
    pub closed spec fn order(&self, list: int) -> Seq<ItemId> {
        self.lists@[list]
    }

    /// Every item's value, indexed by [`ItemId`].
    pub closed spec fn values(&self) -> Seq<V> {
        Seq::new((N - L) as nat, |i: int| self.nodes@[i].value)
    }

    /// Where `list`'s round robin is sitting: its marker, or one of its items.
    pub closed spec fn cursor(&self, list: int) -> u16 {
        self.meta@[list].cursor
    }

    /// Whether `item` is in some list.
    pub open spec fn linked(&self, item: ItemId) -> bool {
        exists|l: int| 0 <= l < L && #[trigger] self.order(l).contains(item)
    }

    /// The list holding `item`, when it is in one.
    pub open spec fn home(&self, item: ItemId) -> int {
        choose|l: int| 0 <= l < L && #[trigger] self.order(l).contains(item)
    }

    /// The position of the cursor of `list`: `-1` at the marker.
    pub open spec fn cursor_position(&self, list: int) -> int {
        if self.cursor(list) == Self::marker(list) {
            -1
        } else {
            self.order(list).index_of(self.cursor(list))
        }
    }

    /// Every list other than `list` has the same items and cursor in `self` and `other`.
    pub open spec fn others_unchanged(&self, other: &Self, list: int) -> bool {
        forall|l: int|
            0 <= l < L && l != list ==> #[trigger] self.order(l) == other.order(l) && self.cursor(l)
                == other.cursor(l)
    }

    /// Every list has the same items and cursor in `self` and `other`.
    pub open spec fn lists_unchanged(&self, other: &Self) -> bool {
        forall|l: int|
            0 <= l < L ==> #[trigger] self.order(l) == other.order(l) && self.cursor(l)
                == other.cursor(l)
    }

    #[verifier::opaque]
    spec fn list_wf(&self, l: int) -> bool {
        let s = self.lists@[l];
        let m = Self::marker(l);
        &&& self.meta@[l].len as int == s.len()
        &&& s.no_duplicates()
        &&& forall|j: int|
            #![trigger s[j]]
            0 <= j < s.len() ==> {
                &&& (s[j] as int) < Self::cap()
                &&& self.nodes@[s[j] as int].container == l as u8
                &&& self.nodes@[s[j] as int].next == succ(s, j, m)
                &&& self.nodes@[s[j] as int].prev == pred(s, j, m)
            }
        &&& self.nodes@[m as int].next == succ(s, -1, m)
        &&& self.nodes@[m as int].prev == pred(s, s.len() as int, m)
        &&& self.nodes@[m as int].value == V::MAX
        &&& self.nodes@[m as int].container == NO_LIST
        &&& (self.meta@[l].cursor == m || s.contains(self.meta@[l].cursor))
    }

    #[verifier::opaque]
    spec fn homes_wf(&self) -> bool {
        forall|i: int|
            #![trigger self.nodes@[i]]
            0 <= i < Self::cap() ==> {
                let c = self.nodes@[i].container;
                c == NO_LIST || ((c as int) < L && self.lists@[c as int].contains(i as u16))
            }
    }

    /// The lists are well formed: every link agrees with the abstract order.
    pub closed spec fn wf(&self) -> bool {
        &&& Self::geometry_ok()
        &&& self.nodes@.len() == N
        &&& self.meta@.len() == L
        &&& self.lists@.len() == L
        &&& forall|l: int| 0 <= l < L ==> #[trigger] self.list_wf(l)
        &&& self.homes_wf()
    }

    /// An item is in at most one list at a time.
    pub proof fn lemma_in_one_list(&self, item: ItemId, l1: int, l2: int)
        requires
            self.wf(),
            0 <= l1 < L,
            0 <= l2 < L,
            self.order(l1).contains(item),
            self.order(l2).contains(item),
        ensures
            l1 == l2,
    {
        reveal(ListsOf::list_wf);
        assert(self.list_wf(l1));
        assert(self.list_wf(l2));
        let j1 = choose|j: int| 0 <= j < self.lists@[l1].len() && self.lists@[l1][j] == item;
        let j2 = choose|j: int| 0 <= j < self.lists@[l2].len() && self.lists@[l2][j] == item;
        assert(self.lists@[l1][j1] == item);
        assert(self.lists@[l2][j2] == item);
    }

    /// What well-formed lists are, as a caller sees them: the geometry holds,
    /// every item has a value, each list holds distinct items (so a walk meets
    /// each once) that are items and not markers, at most as many as there are
    /// items, and each cursor sits on its list's marker or on one of its items.
    pub proof fn lemma_wf(&self)
        requires
            self.wf(),
        ensures
            Self::geometry_ok(),
            self.values().len() == N - L,
            forall|l: int| 0 <= l < L ==> (#[trigger] self.order(l)).no_duplicates(),
            forall|l: int| 0 <= l < L ==> (#[trigger] self.order(l)).len() <= N - L,
            forall|l: int, j: int|
                0 <= l < L && 0 <= j < self.order(l).len() ==> (#[trigger] self.order(l)[j] as int)
                    < N - L,
            forall|l: int|
                0 <= l < L ==> #[trigger] self.cursor(l) == Self::marker(l) || self.order(
                    l,
                ).contains(self.cursor(l)),
            forall|l: int| 0 <= l < L ==> (#[trigger] Self::marker(l) as int) == N - L + l,
    {
        assert forall|l: int| 0 <= l < L implies {
            &&& (#[trigger] self.order(l)).no_duplicates()
            &&& self.order(l).len() <= N - L
            &&& forall|j: int| 0 <= j < self.order(l).len() ==> (self.order(l)[j] as int) < N - L
            &&& (self.cursor(l) == Self::marker(l) || self.order(l).contains(self.cursor(l)))
        } by {
            self.lemma_slot(l, 0);
            let s = self.order(l);
            assert forall|j: int| 0 <= j < s.len() implies (s[j] as int) < N - L by {
                assert((s[j] as int) < Self::cap());
            }
        }
    }

    /// An item in list `l` is linked, and `l` is its home.
    proof fn lemma_linked_in(&self, item: ItemId, l: int)
        requires
            self.wf(),
            0 <= l < L,
            self.order(l).contains(item),
        ensures
            self.linked(item),
            self.home(item) == l,
    {
        assert(self.linked(item));
        let h = self.home(item);
        self.lemma_in_one_list(item, h, l);
    }

    /// What the stored container of an item says about the abstract lists.    /// What the stored container of an item says about the abstract lists.
    proof fn lemma_home(&self, item: ItemId)
        requires
            self.wf(),
            Self::is_item(item),
        ensures
            self.linked(item) <==> self.nodes@[item as int].container != NO_LIST,
            self.linked(item) ==> {
                &&& self.home(item) == self.nodes@[item as int].container as int
                &&& 0 <= self.home(item) < L
                &&& self.order(self.home(item)).contains(item)
            },
    {
        let c = self.nodes@[item as int].container;
        reveal(ListsOf::homes_wf);
        assert(self.homes_wf());
        assert(c == NO_LIST || ((c as int) < L && self.lists@[c as int].contains(item)));
        if self.linked(item) {
            let l = self.home(item);
            assert(0 <= l < L && self.order(l).contains(item));
            reveal(ListsOf::list_wf);
            assert(self.list_wf(l));
            let j = choose|j: int| 0 <= j < self.lists@[l].len() && self.lists@[l][j] == item;
            assert(self.lists@[l][j] == item);
            assert(c == l as u8);
        } else {
            if c != NO_LIST {
                assert(self.order(c as int).contains(item));
            }
        }
    }

    /// A list's items are distinct item ids, so there are fewer of them than
    /// item slots whenever some item is outside it.
    proof fn lemma_list_len(&self, l: int, outside: ItemId)
        requires
            self.wf(),
            0 <= l < L,
            Self::is_item(outside),
            !self.order(l).contains(outside),
        ensures
            self.order(l).len() < Self::cap(),
    {
        reveal(ListsOf::list_wf);
        assert(self.list_wf(l));
        let s = self.lists@[l];
        let t = s.push(outside);
        assert forall|i: int, j: int| 0 <= i < t.len() && 0 <= j < t.len() && i != j implies t[i]
            != t[j] by {
            if i < s.len() && j < s.len() {
            } else if i == s.len() {
                assert(s[j] == t[j]);
            } else {
                assert(s[i] == t[i]);
            }
        }
        assert forall|j: int| 0 <= j < t.len() implies (t[j] as int) < Self::cap() by {
            if j < s.len() {
                assert(s[j] == t[j]);
            }
        }
        lemma_distinct_below(t, Self::cap());
    }

    /// The node writes of a link at position `p` of list `l`: `item` is
    /// stitched between its two neighbours and no other node changes.
    spec fn link_step(pre: Self, post: Self, l: int, item: ItemId, p: int) -> bool {
        let s = pre.lists@[l];
        let m = Self::marker(l);
        let before = pred(s, p, m);
        let after = succ(s, p - 1, m);
        &&& post.nodes@.len() == N
        &&& post.nodes@[item as int].prev == before
        &&& post.nodes@[item as int].next == after
        &&& post.nodes@[item as int].container == l as u8
        &&& post.nodes@[before as int].next == item
        &&& post.nodes@[before as int].prev == if before == after {
            item
        } else {
            pre.nodes@[before as int].prev
        }
        &&& post.nodes@[before as int].value == pre.nodes@[before as int].value
        &&& post.nodes@[before as int].container == pre.nodes@[before as int].container
        &&& post.nodes@[after as int].prev == item
        &&& post.nodes@[after as int].next == if before == after {
            item
        } else {
            pre.nodes@[after as int].next
        }
        &&& post.nodes@[after as int].value == pre.nodes@[after as int].value
        &&& post.nodes@[after as int].container == pre.nodes@[after as int].container
        &&& forall|x: int|
            0 <= x < N && x != item as int && x != before as int && x != after as int
                ==> #[trigger] post.nodes@[x] == pre.nodes@[x]
    }

    /// Inserting a new element into a sequence without duplicates keeps it so.
    proof fn lemma_insert_no_duplicates(s: Seq<ItemId>, p: int, item: ItemId)
        requires
            s.no_duplicates(),
            !s.contains(item),
            0 <= p <= s.len(),
        ensures
            s.insert(p, item).no_duplicates(),
    {
        let s2 = s.insert(p, item);
        assert forall|i: int, j: int|
            0 <= i < s2.len() && 0 <= j < s2.len() && i != j implies s2[i] != s2[j] by {
            let si = if i < p {
                i
            } else {
                i - 1
            };
            let sj = if j < p {
                j
            } else {
                j - 1
            };
            if i != p {
                assert(s2[i] == s[si]);
            }
            if j != p {
                assert(s2[j] == s[sj]);
            }
        }
    }

    /// After a link, the node at position `j` of the new list has the links
    /// and the container the new order asks for.
    #[verifier::spinoff_prover]
    #[verifier::rlimit(40)]
    proof fn lemma_link_node(pre: Self, post: Self, l: int, item: ItemId, p: int, j: int)
        requires
            Self::geometry_ok(),
            pre.nodes@.len() == N,
            pre.lists@.len() == L,
            pre.list_wf(l),
            0 <= l < L,
            Self::is_item(item),
            !pre.lists@[l].contains(item),
            0 <= p <= pre.lists@[l].len(),
            Self::link_step(pre, post, l, item, p),
            0 <= j <= pre.lists@[l].len(),
        ensures
            ({
                let s2 = pre.lists@[l].insert(p, item);
                let m = Self::marker(l);
                &&& (s2[j] as int) < Self::cap()
                &&& post.nodes@[s2[j] as int].container == l as u8
                &&& post.nodes@[s2[j] as int].next == succ(s2, j, m)
                &&& post.nodes@[s2[j] as int].prev == pred(s2, j, m)
            }),
    {
        reveal(ListsOf::list_wf);
        let s = pre.lists@[l];
        let m = Self::marker(l);
        let s2 = s.insert(p, item);
        let before = pred(s, p, m);
        let after = succ(s, p - 1, m);
        assert(s2.len() == s.len() + 1);
        if p > 0 {
            assert(s[p - 1] == before);
            assert(s[p - 1] != item);
        }
        if p < s.len() {
            assert(s[p] == after);
            assert(s[p] != item);
        }
        if j < p - 1 {
            let x = s[j];
            assert(s[j] == s2[j]);
            assert(s[j + 1] == s2[j + 1]);
            assert(x != item);
            assert(post.nodes@[x as int] == pre.nodes@[x as int]);
            if j > 0 {
                assert(s[j - 1] == s2[j - 1]);
            }
        } else if j == p - 1 {
            assert(s[j] == s2[j]);
            if j > 0 {
                assert(s[j - 1] == s2[j - 1]);
            }
        } else if j == p {
            assert(s2[p] == item);
            if p > 0 {
                assert(s[p - 1] == s2[p - 1]);
            }
            if p < s.len() {
                assert(s[p] == s2[p + 1]);
            }
        } else if j == p + 1 {
            assert(s[p] == s2[j]);
            assert(s2[p] == item);
            if j + 1 < s2.len() {
                assert(s[p + 1] == s2[j + 1]);
            }
        } else {
            let x = s[j - 1];
            assert(x == s2[j]);
            assert(x != item);
            assert(post.nodes@[x as int] == pre.nodes@[x as int]);
            assert(s[j - 2] == s2[j - 1]);
            if j + 1 < s2.len() {
                assert(s[j] == s2[j + 1]);
            }
        }
    }

    /// After a link, the list's marker points at the new head and tail.
    #[verifier::spinoff_prover]
    proof fn lemma_link_marker(pre: Self, post: Self, l: int, item: ItemId, p: int)
        requires
            Self::geometry_ok(),
            pre.nodes@.len() == N,
            pre.lists@.len() == L,
            pre.list_wf(l),
            0 <= l < L,
            Self::is_item(item),
            !pre.lists@[l].contains(item),
            0 <= p <= pre.lists@[l].len(),
            Self::link_step(pre, post, l, item, p),
        ensures
            ({
                let s2 = pre.lists@[l].insert(p, item);
                let m = Self::marker(l);
                &&& post.nodes@[m as int].next == succ(s2, -1, m)
                &&& post.nodes@[m as int].prev == pred(s2, s2.len() as int, m)
                &&& post.nodes@[m as int].value == V::MAX
                &&& post.nodes@[m as int].container == NO_LIST
            }),
    {
        reveal(ListsOf::list_wf);
        let s = pre.lists@[l];
        let m = Self::marker(l);
        let s2 = s.insert(p, item);
        let before = pred(s, p, m);
        let after = succ(s, p - 1, m);
        if p > 0 {
            assert(s[p - 1] == before);
            assert((s[p - 1] as int) < Self::cap());
        }
        if p < s.len() {
            assert(s[p] == after);
            assert((s[p] as int) < Self::cap());
        }
        assert(s2[0] == if p == 0 {
            item
        } else {
            s[0]
        });
        assert(s2[s2.len() - 1] == if p == s.len() {
            item
        } else {
            s[s.len() - 1]
        });
        if m != before && m != after {
            assert(post.nodes@[m as int] == pre.nodes@[m as int]);
        }
    }

    /// Linking `item` at position `p` of list `l` keeps that list well formed.
    #[verifier::spinoff_prover]
    proof fn lemma_link_same(pre: Self, post: Self, l: int, item: ItemId, p: int)
        requires
            Self::geometry_ok(),
            pre.nodes@.len() == N,
            pre.meta@.len() == L,
            pre.lists@.len() == L,
            pre.list_wf(l),
            0 <= l < L,
            Self::is_item(item),
            !pre.lists@[l].contains(item),
            0 <= p <= pre.lists@[l].len(),
            pre.lists@[l].len() < Self::cap(),
            post.lists@ == pre.lists@.update(l, pre.lists@[l].insert(p, item)),
            post.meta@ == pre.meta@.update(
                l,
                Meta { cursor: pre.meta@[l].cursor, len: (pre.meta@[l].len + 1) as u16 },
            ),
            Self::link_step(pre, post, l, item, p),
        ensures
            post.list_wf(l),
    {
        let s = pre.lists@[l];
        let m = Self::marker(l);
        let s2 = s.insert(p, item);
        assert forall|j: int|
            #![trigger s2[j]]
            0 <= j < s2.len() implies {
                &&& (s2[j] as int) < Self::cap()
                &&& post.nodes@[s2[j] as int].container == l as u8
                &&& post.nodes@[s2[j] as int].next == succ(s2, j, m)
                &&& post.nodes@[s2[j] as int].prev == pred(s2, j, m)
            } by {
            Self::lemma_link_node(pre, post, l, item, p, j);
        }
        Self::lemma_link_marker(pre, post, l, item, p);
        let c = pre.meta@[l].cursor;
        assert(c == m || s2.contains(c)) by {
            reveal(ListsOf::list_wf);
            if c != m {
                let k = choose|k: int| 0 <= k < s.len() && s[k] == c;
                let k2 = if k < p {
                    k
                } else {
                    k + 1
                };
                assert(s2[k2] == c);
            }
        }
        assert(s.no_duplicates()) by {
            reveal(ListsOf::list_wf);
        }
        Self::lemma_insert_no_duplicates(s, p, item);
        assert(pre.meta@[l].len as int == s.len()) by {
            reveal(ListsOf::list_wf);
        }
        assert(post.lists@[l] == s2);
        reveal(ListsOf::list_wf);
    }

    /// Linking into list `l` leaves every other list well formed.
    proof fn lemma_link_other(pre: Self, post: Self, l: int, l2: int, item: ItemId, p: int)
        requires
            Self::geometry_ok(),
            pre.nodes@.len() == N,
            pre.meta@.len() == L,
            pre.lists@.len() == L,
            pre.list_wf(l),
            pre.list_wf(l2),
            0 <= l < L,
            0 <= l2 < L,
            l2 != l,
            Self::is_item(item),
            pre.nodes@[item as int].container == NO_LIST,
            0 <= p <= pre.lists@[l].len(),
            post.lists@[l2] == pre.lists@[l2],
            post.meta@[l2] == pre.meta@[l2],
            post.nodes@.len() == N,
            ({
                let s = pre.lists@[l];
                let m = Self::marker(l);
                let before = pred(s, p, m);
                let after = succ(s, p - 1, m);
                forall|x: int|
                    0 <= x < N && x != item as int && x != before as int && x != after as int
                        ==> #[trigger] post.nodes@[x] == pre.nodes@[x]
            }),
        ensures
            post.list_wf(l2),
    {
        reveal(ListsOf::list_wf);
        let s = pre.lists@[l];
        let m = Self::marker(l);
        let before = pred(s, p, m);
        let after = succ(s, p - 1, m);
        let s2 = pre.lists@[l2];
        let m2 = Self::marker(l2);
        reveal(ListsOf::list_wf);
        assert(pre.list_wf(l));
        reveal(ListsOf::list_wf);
        assert(pre.list_wf(l2));
        if p > 0 {
            assert(pre.nodes@[s[p - 1] as int].container == l as u8);
        }
        if p < s.len() {
            assert(pre.nodes@[s[p] as int].container == l as u8);
        }
        assert forall|j: int| 0 <= j < s2.len() implies #[trigger] post.nodes@[s2[j] as int]
            == pre.nodes@[s2[j] as int] by {
            assert(pre.nodes@[s2[j] as int].container == l2 as u8);
        }
        assert(post.nodes@[m2 as int] == pre.nodes@[m2 as int]);
    }

    /// The neighbours a link at position `p` of list `l` goes between are
    /// real slots: the marker, or items of that list.
    proof fn lemma_neighbours(&self, l: int, p: int, item: ItemId)
        requires
            self.wf(),
            0 <= l < L,
            0 <= p <= self.lists@[l].len(),
            Self::is_item(item),
            !self.lists@[l].contains(item),
        ensures
            ({
                let s = self.lists@[l];
                let m = Self::marker(l);
                &&& (pred(s, p, m) as int) < N
                &&& (succ(s, p - 1, m) as int) < N
                &&& (m as int) == N - L + l
                &&& pred(s, p, m) != item
                &&& succ(s, p - 1, m) != item
                &&& self.meta@[l].len as int == s.len()
            }),
    {
        reveal(ListsOf::list_wf);
        assert(self.list_wf(l));
        let s = self.lists@[l];
        if p > 0 {
            assert((s[p - 1] as int) < Self::cap());
        }
        if p < s.len() {
            assert((s[p] as int) < Self::cap());
        }
    }

    /// The three node writes of a link are the link step.
    proof fn lemma_link_writes(
        pre: Self,
        post: Self,
        l: int,
        item: ItemId,
        p: int,
        n: Node<V>,
        nodes1: Seq<Node<V>>,
        nodes2: Seq<Node<V>>,
    )
        requires
            pre.nodes@.len() == N,
            0 <= l < L,
            Self::is_item(item),
            ({
                let s = pre.lists@[l];
                let m = Self::marker(l);
                let before = pred(s, p, m);
                let after = succ(s, p - 1, m);
                &&& (before as int) < N
                &&& (after as int) < N
                &&& before != item
                &&& after != item
                &&& n.prev == before
                &&& n.next == after
                &&& n.container == l as u8
                &&& nodes1 == pre.nodes@.update(item as int, n)
                &&& nodes2 == nodes1.update(
                    before as int,
                    Node { next: item, ..nodes1[before as int] },
                )
                &&& post.nodes@ == nodes2.update(
                    after as int,
                    Node { prev: item, ..nodes2[after as int] },
                )
            }),
        ensures
            Self::link_step(pre, post, l, item, p),
    {
    }

    /// The three node writes and the length bump of a link keep the lists well formed.
    proof fn lemma_link(
        pre: Self,
        post: Self,
        l: int,
        item: ItemId,
        p: int,
        n: Node<V>,
        nodes1: Seq<Node<V>>,
        nodes2: Seq<Node<V>>,
    )
        requires
            pre.wf(),
            0 <= l < L,
            Self::is_item(item),
            pre.nodes@[item as int].container == NO_LIST,
            !pre.lists@[l].contains(item),
            0 <= p <= pre.lists@[l].len(),
            pre.lists@[l].len() < Self::cap(),
            post.lists@ == pre.lists@.update(l, pre.lists@[l].insert(p, item)),
            post.meta@ == pre.meta@.update(
                l,
                Meta { cursor: pre.meta@[l].cursor, len: (pre.meta@[l].len + 1) as u16 },
            ),
            ({
                let s = pre.lists@[l];
                let m = Self::marker(l);
                let before = pred(s, p, m);
                let after = succ(s, p - 1, m);
                &&& (before as int) < N
                &&& (after as int) < N
                &&& before != item
                &&& after != item
                &&& n.prev == before
                &&& n.next == after
                &&& n.container == l as u8
                &&& nodes1 == pre.nodes@.update(item as int, n)
                &&& nodes2 == nodes1.update(
                    before as int,
                    Node { next: item, ..nodes1[before as int] },
                )
                &&& post.nodes@ == nodes2.update(
                    after as int,
                    Node { prev: item, ..nodes2[after as int] },
                )
            }),
        ensures
            post.wf(),
    {
        Self::lemma_link_writes(pre, post, l, item, p, n, nodes1, nodes2);
        assert(pre.list_wf(l));
        Self::lemma_link_same(pre, post, l, item, p);
        assert forall|l2: int| 0 <= l2 < L implies #[trigger] post.list_wf(l2) by {
            if l2 != l {
                assert(pre.list_wf(l2));
                Self::lemma_link_other(pre, post, l, l2, item, p);
            }
        }
        Self::lemma_link_homes(pre, post, l, item, p);
    }

    /// After a link, every item's stored container still names the list holding it.
    proof fn lemma_link_homes(pre: Self, post: Self, l: int, item: ItemId, p: int)
        requires
            Self::geometry_ok(),
            pre.homes_wf(),
            pre.lists@.len() == L,
            0 <= l < L,
            Self::is_item(item),
            0 <= p <= pre.lists@[l].len(),
            post.lists@ == pre.lists@.update(l, pre.lists@[l].insert(p, item)),
            post.nodes@[item as int].container == l as u8,
            forall|x: int|
                0 <= x < Self::cap() && x != item as int ==> #[trigger] post.nodes@[x].container
                    == pre.nodes@[x].container,
        ensures
            post.homes_wf(),
    {
        reveal(ListsOf::homes_wf);
        assert forall|i: int| 0 <= i < Self::cap() implies {
            let c = #[trigger] post.nodes@[i].container;
            c == NO_LIST || ((c as int) < L && post.lists@[c as int].contains(i as u16))
        } by {
            let c = post.nodes@[i].container;
            if i == item as int {
                assert(post.lists@[l][p] == item);
                assert(post.lists@[l].contains(i as u16));
            } else {
                assert(c == pre.nodes@[i].container);
                assert(c == NO_LIST || ((c as int) < L && pre.lists@[c as int].contains(i as u16)));
                if c != NO_LIST && c as int != l {
                    assert(post.lists@[c as int] == pre.lists@[c as int]);
                }
                if c != NO_LIST && c as int == l {
                    let k = choose|k: int|
                        0 <= k < pre.lists@[l].len() && pre.lists@[l][k] == i as u16;
                    let k2 = if k < p {
                        k
                    } else {
                        k + 1
                    };
                    assert(post.lists@[l][k2] == i as u16);
                }
            }
        }
    }

    /// Link `item` between two neighbours that sit at position `p` of
    /// `list`, and bump the length. A refused link leaves everything as it was.
    fn link_between(
        &mut self,
        list: ListId,
        item: ItemId,
        before: u16,
        after: u16,
        value: Option<V>,
        Ghost(p): Ghost<int>,
    ) -> (r: Result<()>)
        requires
            old(self).wf(),
            Self::is_list(list),
            0 <= p <= old(self).order(list as int).len(),
            before == pred(old(self).order(list as int), p, Self::marker(list as int)),
            after == succ(old(self).order(list as int), p - 1, Self::marker(list as int)),
        ensures
            final(self).wf(),
            !Self::is_item(item) ==> r == Err::<(), Error>(Error::InvalidArgument) && *final(self)
                == *old(self),
            Self::is_item(item) && old(self).linked(item) ==> r == Err::<(), Error>(Error::Busy)
                && *final(self) == *old(self),
            Self::is_item(item) && !old(self).linked(item) ==> {
                &&& r is Ok
                &&& final(self).order(list as int) == old(self).order(list as int).insert(p, item)
                &&& final(self).linked(item)
                &&& final(self).home(item) == list as int
                &&& final(self).cursor(list as int) == old(self).cursor(list as int)
                &&& final(self).others_unchanged(old(self), list as int)
                &&& final(self).values() == match value {
                    Some(v) => old(self).values().update(item as int, v),
                    None => old(self).values(),
                }
            },
    {
        if item as usize >= N - L {
            return Err(Error::InvalidArgument);
        }
        proof {
            self.lemma_home(item);
        }
        let mut n = self.nodes[item as usize];
        if n.container != NO_LIST {
            return Err(Error::Busy);
        }
        let ghost pre = *self;
        proof {
            assert(!self.order(list as int).contains(item));
            self.lemma_list_len(list as int, item);
            self.lemma_neighbours(list as int, p, item);
        }
        match value {
            Some(v) => {
                n.value = v;
            },
            None => {},
        }
        n.prev = before;
        n.next = after;
        n.container = list;
        self.nodes.set(item as usize, n);
        let ghost nodes1 = self.nodes@;
        let mut b = self.nodes[before as usize];
        b.next = item;
        self.nodes.set(before as usize, b);
        let ghost nodes2 = self.nodes@;
        let mut a = self.nodes[after as usize];
        a.prev = item;
        self.nodes.set(after as usize, a);
        let mut m = self.meta[list as usize];
        m.len = m.len + 1;
        self.meta.set(list as usize, m);
        proof {
            let l = list as int;
            self.lists@ = self.lists@.update(l, pre.lists@[l].insert(p, item));
            Self::lemma_link(pre, *self, l, item, p, n, nodes1, nodes2);
            assert(self.values() =~= match value {
                Some(v) => pre.values().update(item as int, v),
                None => pre.values(),
            });
            assert(self.order(l)[p] == item);
            self.lemma_linked_in(item, l);
        }
        Ok(())
    }

    /// The slot at position `k` of list `l` (`k == len` is the marker) and
    /// what its node holds.
    proof fn lemma_slot(&self, l: int, k: int)
        requires
            self.wf(),
            0 <= l < L,
            0 <= k <= self.lists@[l].len(),
        ensures
            ({
                let s = self.lists@[l];
                let m = Self::marker(l);
                let x = succ(s, k - 1, m);
                &&& (m as int) == N - L + l
                &&& (x as int) < N
                &&& (pred(s, k, m) as int) < N
                &&& k < s.len() ==> {
                    &&& (x as int) < Self::cap()
                    &&& self.nodes@[x as int].value == self.values()[x as int]
                    &&& self.nodes@[x as int].next == succ(s, k, m)
                    &&& self.nodes@[x as int].prev == pred(s, k, m)
                    &&& self.nodes@[x as int].container == l as u8
                }
                &&& k == s.len() ==> {
                    &&& x == m
                    &&& self.nodes@[m as int].value == V::MAX
                    &&& self.nodes@[m as int].next == succ(s, -1, m)
                    &&& self.nodes@[m as int].prev == pred(s, s.len() as int, m)
                }
                &&& self.meta@[l].len as int == s.len()
                &&& s.no_duplicates()
                &&& (self.meta@[l].cursor == m || s.contains(self.meta@[l].cursor))
                &&& forall|j: int| 0 <= j < s.len() ==> (#[trigger] s[j] as int) < Self::cap()
                &&& s.len() <= Self::cap()
            }),
    {
        reveal(ListsOf::list_wf);
        assert(self.list_wf(l));
        let s = self.lists@[l];
        lemma_distinct_below(s, Self::cap());
        if k > 0 {
            assert((s[k - 1] as int) < Self::cap());
        }
        if k < s.len() {
            assert((s[k] as int) < Self::cap());
        }
    }

    /// In a sequence without duplicates, an element's index is its position.
    proof fn lemma_index_of(s: Seq<ItemId>, k: int)
        requires
            s.no_duplicates(),
            0 <= k < s.len(),
        ensures
            s.index_of(s[k]) == k,
    {
        assert(s[k] == s[k]);
        let i = s.index_of(s[k]);
        assert(0 <= i < s.len() && s[i] == s[k]);
    }

    /// The walk's stopping point is `vListInsert`'s position.
    proof fn lemma_sorted_position(s: Seq<ItemId>, values: Seq<V>, value: V, k: int)
        requires
            0 <= k <= s.len(),
            forall|j: int| 0 <= j < k ==> #[trigger] values[s[j] as int].key() <= value.key(),
            k < s.len() ==> values[s[k] as int].key() > value.key(),
        ensures
            sorted_position(s, values, value) == k,
        decreases k,
    {
        if k > 0 {
            let t = s.drop_first();
            assert forall|j: int| 0 <= j < k - 1 implies #[trigger] values[t[j] as int].key()
                <= value.key() by {
                assert(t[j] == s[j + 1]);
            }
            if k - 1 < t.len() {
                assert(t[k - 1] == s[k]);
            }
            assert(values[s[0] as int].key() <= value.key());
            Self::lemma_sorted_position(t, values, value, k - 1);
        }
    }

    fn insert_inner(&mut self, list: ListId, item: ItemId, keep: Option<V>) -> (r: Result<()>)
        requires
            old(self).wf(),
        ensures
            final(self).wf(),
            !Self::is_list(list) || !Self::is_item(item) ==> r == Err::<(), Error>(
                Error::InvalidArgument,
            ) && *final(self) == *old(self),
            Self::is_list(list) && Self::is_item(item) && old(self).linked(item) ==> r == Err::<
                (),
                Error,
            >(Error::Busy) && *final(self) == *old(self),
            Self::is_list(list) && Self::is_item(item) && !old(self).linked(item) ==> {
                let value = match keep {
                    Some(v) => v,
                    None => old(self).values()[item as int],
                };
                &&& r is Ok
                &&& final(self).linked(item)
                &&& final(self).home(item) == list as int
                &&& final(self).order(list as int) == old(self).order(list as int).insert(
                    sorted_position(old(self).order(list as int), old(self).values(), value),
                    item,
                )
                &&& final(self).cursor(list as int) == old(self).cursor(list as int)
                &&& final(self).others_unchanged(old(self), list as int)
                &&& final(self).values() == old(self).values().update(item as int, value)
                &&& final(self).values()[item as int] == value
            },
    {
        if list as usize >= L {
            return Err(Error::InvalidArgument);
        }
        let value = match keep {
            Some(v) => v,
            None => {
                if item as usize >= N - L {
                    return Err(Error::InvalidArgument);
                }
                self.nodes[item as usize].value
            },
        };
        let ghost s = self.order(list as int);
        let ghost l = list as int;
        let end = Self::end_of(list);
        proof {
            self.lemma_slot(l, s.len() as int);
        }
        let (before, after, Ghost(p)) = if !V::MAX.exceeds(&value) {
            proof {
                V::lemma_bounds(value);
                assert forall|j: int| 0 <= j < s.len() implies #[trigger] self.values()[s[
                    j
                ] as int].key() <= value.key() by {
                    V::lemma_bounds(self.values()[s[j] as int]);
                }
                Self::lemma_sorted_position(s, self.values(), value, s.len() as int);
            }
            (self.nodes[end as usize].prev, end, Ghost(s.len() as int))
        } else {
            let mut before = end;
            let mut after = self.nodes[end as usize].next;
            let ghost mut k: int = 0;
            proof {
                self.lemma_slot(l, 0);
            }
            loop
                invariant
                    self.wf(),
                    Self::is_list(list),
                    s == self.order(l),
                    l == list as int,
                    0 <= k <= s.len(),
                    before == pred(s, k, Self::marker(l)),
                    after == succ(s, k - 1, Self::marker(l)),
                    forall|j: int|
                        0 <= j < k ==> #[trigger] self.values()[s[j] as int].key() <= value.key(),
                    value.key() < V::MAX.key(),
                ensures
                    0 <= k <= s.len(),
                    before == pred(s, k, Self::marker(l)),
                    after == succ(s, k - 1, Self::marker(l)),
                    forall|j: int|
                        0 <= j < k ==> #[trigger] self.values()[s[j] as int].key() <= value.key(),
                    k < s.len() ==> self.values()[s[k] as int].key() > value.key(),
                decreases s.len() - k,
            {
                proof {
                    self.lemma_slot(l, k);
                }
                let node = self.nodes[after as usize];
                if node.value.exceeds(&value) {
                    break;
                }
                proof {
                    assert(k < s.len());
                    if k + 1 <= s.len() {
                        self.lemma_slot(l, k + 1);
                    }
                }
                before = after;
                after = node.next;
                proof {
                    k = k + 1;
                }
            }
            proof {
                Self::lemma_sorted_position(s, self.values(), value, k);
            }
            (before, after, Ghost(k))
        };
        self.link_between(list, item, before, after, keep, Ghost(p))
    }

    /// `vListInsert`: ordered by `value`, after every item whose value equals it.
    pub fn insert(&mut self, list: ListId, item: ItemId, value: V) -> (r: Result<()>)
        requires
            old(self).wf(),
        ensures
            final(self).wf(),
            !Self::is_list(list) || !Self::is_item(item) ==> r == Err::<(), Error>(
                Error::InvalidArgument,
            ) && *final(self) == *old(self),
            Self::is_list(list) && Self::is_item(item) && old(self).linked(item) ==> r == Err::<
                (),
                Error,
            >(Error::Busy) && *final(self) == *old(self),
            Self::is_list(list) && Self::is_item(item) && !old(self).linked(item) ==> {
                &&& r is Ok
                &&& final(self).linked(item)
                &&& final(self).home(item) == list as int
                &&& final(self).order(list as int) == old(self).order(list as int).insert(
                    sorted_position(old(self).order(list as int), old(self).values(), value),
                    item,
                )
                &&& final(self).cursor(list as int) == old(self).cursor(list as int)
                &&& final(self).others_unchanged(old(self), list as int)
                &&& final(self).values() == old(self).values().update(item as int, value)
                &&& final(self).values()[item as int] == value
            },
    {
        self.insert_inner(list, item, Some(value))
    }

    /// `vListInsert` sorting by the value the item already carries.
    pub fn insert_keeping_value(&mut self, list: ListId, item: ItemId) -> (r: Result<()>)
        requires
            old(self).wf(),
        ensures
            final(self).wf(),
            !Self::is_list(list) || !Self::is_item(item) ==> r == Err::<(), Error>(
                Error::InvalidArgument,
            ) && *final(self) == *old(self),
            Self::is_list(list) && Self::is_item(item) && old(self).linked(item) ==> r == Err::<
                (),
                Error,
            >(Error::Busy) && *final(self) == *old(self),
            Self::is_list(list) && Self::is_item(item) && !old(self).linked(item) ==> {
                &&& r is Ok
                &&& final(self).linked(item)
                &&& final(self).home(item) == list as int
                &&& final(self).order(list as int) == old(self).order(list as int).insert(
                    sorted_position(
                        old(self).order(list as int),
                        old(self).values(),
                        old(self).values()[item as int],
                    ),
                    item,
                )
                &&& final(self).cursor(list as int) == old(self).cursor(list as int)
                &&& final(self).others_unchanged(old(self), list as int)
                &&& final(self).values() == old(self).values()
            },
    {
        let r = self.insert_inner(list, item, None);
        proof {
            if Self::is_list(list) && Self::is_item(item) && !old(self).linked(item) {
                assert(old(self).values().update(item as int, old(self).values()[item as int])
                    =~= old(self).values());
            }
        }
        r
    }

    /// Where `vListInsertEnd` puts an item: immediately before the cursor,
    /// which is the end of the list when the cursor sits on the marker.
    pub open spec fn end_position(&self, list: int) -> int {
        if self.cursor(list) == Self::marker(list) {
            self.order(list).len() as int
        } else {
            self.order(list).index_of(self.cursor(list))
        }
    }

    /// `vListInsertEnd`: in front of the round-robin cursor.
    pub fn insert_end(&mut self, list: ListId, item: ItemId) -> (r: Result<()>)
        requires
            old(self).wf(),
        ensures
            final(self).wf(),
            !Self::is_list(list) || !Self::is_item(item) ==> r == Err::<(), Error>(
                Error::InvalidArgument,
            ) && *final(self) == *old(self),
            Self::is_list(list) && Self::is_item(item) && old(self).linked(item) ==> r == Err::<
                (),
                Error,
            >(Error::Busy) && *final(self) == *old(self),
            Self::is_list(list) && Self::is_item(item) && !old(self).linked(item) ==> {
                &&& r is Ok
                &&& final(self).linked(item)
                &&& final(self).home(item) == list as int
                &&& final(self).order(list as int) == old(self).order(list as int).insert(
                    old(self).end_position(list as int),
                    item,
                )
                &&& final(self).cursor(list as int) == old(self).cursor(list as int)
                &&& final(self).others_unchanged(old(self), list as int)
                &&& final(self).values() == old(self).values()
            },
    {
        if list as usize >= L {
            return Err(Error::InvalidArgument);
        }
        let ghost l = list as int;
        let ghost s = self.order(l);
        let cursor = self.meta[list as usize].cursor;
        let ghost p = self.end_position(l);
        proof {
            self.lemma_slot(l, s.len() as int);
            if cursor != Self::marker(l) {
                let k = choose|k: int| 0 <= k < s.len() && s[k] == cursor;
                Self::lemma_index_of(s, k);
                assert(p == k);
            }
            self.lemma_slot(l, p);
        }
        let before = self.nodes[cursor as usize].prev;
        let r = self.link_between(list, item, before, cursor, None, Ghost(p));
        r
    }

    /// Where `insert_sorted` puts a value: at the end when it is at least the
    /// tail's value (an empty list's tail value is `V::MAX`), otherwise where
    /// `vListInsert` would.
    pub open spec fn append_or_sorted_position(&self, list: int, value: V) -> int {
        let s = self.order(list);
        let tail_key = if s.len() > 0 {
            self.values()[s.last() as int].key()
        } else {
            V::MAX.key()
        };
        if value.key() >= tail_key {
            s.len() as int
        } else {
            sorted_position(s, self.values(), value)
        }
    }

    /// `vListInsert`, taking the append shortcut when the value belongs at
    /// the end, which for a delayed list fed a rising tick it usually does.
    pub fn insert_sorted(&mut self, list: ListId, item: ItemId, value: V) -> (r: Result<()>)
        requires
            old(self).wf(),
        ensures
            final(self).wf(),
            !Self::is_list(list) || !Self::is_item(item) ==> r == Err::<(), Error>(
                Error::InvalidArgument,
            ) && *final(self) == *old(self),
            Self::is_list(list) && Self::is_item(item) && old(self).linked(item) ==> r == Err::<
                (),
                Error,
            >(Error::Busy) && *final(self) == *old(self),
            Self::is_list(list) && Self::is_item(item) && !old(self).linked(item) ==> {
                &&& r is Ok
                &&& final(self).linked(item)
                &&& final(self).home(item) == list as int
                &&& final(self).order(list as int) == old(self).order(list as int).insert(
                    old(self).append_or_sorted_position(list as int, value),
                    item,
                )
                &&& final(self).cursor(list as int) == old(self).cursor(list as int)
                &&& final(self).others_unchanged(old(self), list as int)
                &&& final(self).values() == old(self).values().update(item as int, value)
                &&& final(self).values()[item as int] == value
            },
    {
        if list as usize >= L {
            return Err(Error::InvalidArgument);
        }
        let ghost l = list as int;
        let ghost s = self.order(l);
        let end = Self::end_of(list);
        proof {
            self.lemma_slot(l, s.len() as int);
            if s.len() > 0 {
                self.lemma_slot(l, s.len() - 1);
            }
        }
        let tail = self.nodes[end as usize].prev;
        let tail_value = self.nodes[tail as usize].value;
        if !tail_value.exceeds(&value) {
            return self.link_between(list, item, tail, end, Some(value), Ghost(s.len() as int));
        }
        self.insert(list, item, value)
    }

    /// The node writes of an unlink of position `k` of list `l`: the
    /// neighbours are joined, the item leaves the list, nothing else changes.
    spec fn unlink_step(pre: Self, post: Self, l: int, k: int) -> bool {
        let s = pre.lists@[l];
        let m = Self::marker(l);
        let x = s[k];
        let before = pred(s, k, m);
        let after = succ(s, k, m);
        &&& post.nodes@.len() == N
        &&& post.nodes@[x as int].container == NO_LIST
        &&& post.nodes@[after as int].prev == before
        &&& post.nodes@[before as int].next == after
        &&& post.nodes@[before as int].prev == if before == after {
            before
        } else {
            pre.nodes@[before as int].prev
        }
        &&& post.nodes@[after as int].next == if before == after {
            after
        } else {
            pre.nodes@[after as int].next
        }
        &&& post.nodes@[before as int].value == pre.nodes@[before as int].value
        &&& post.nodes@[before as int].container == pre.nodes@[before as int].container
        &&& post.nodes@[after as int].value == pre.nodes@[after as int].value
        &&& post.nodes@[after as int].container == pre.nodes@[after as int].container
        &&& forall|y: int|
            0 <= y < N && y != x as int && y != before as int && y != after as int
                ==> #[trigger] post.nodes@[y] == pre.nodes@[y]
    }

    /// After an unlink, the node at position `j` of the shorter list has the
    /// links the new order asks for.
    #[verifier::spinoff_prover]
    #[verifier::rlimit(40)]
    proof fn lemma_unlink_node(pre: Self, post: Self, l: int, k: int, j: int)
        requires
            Self::geometry_ok(),
            pre.nodes@.len() == N,
            pre.lists@.len() == L,
            pre.list_wf(l),
            0 <= l < L,
            0 <= k < pre.lists@[l].len(),
            Self::unlink_step(pre, post, l, k),
            0 <= j < pre.lists@[l].len() - 1,
        ensures
            ({
                let s2 = pre.lists@[l].remove(k);
                let m = Self::marker(l);
                &&& (s2[j] as int) < Self::cap()
                &&& post.nodes@[s2[j] as int].container == l as u8
                &&& post.nodes@[s2[j] as int].next == succ(s2, j, m)
                &&& post.nodes@[s2[j] as int].prev == pred(s2, j, m)
            }),
    {
        reveal(ListsOf::list_wf);
        let s = pre.lists@[l];
        let m = Self::marker(l);
        let s2 = s.remove(k);
        let x = s[k];
        let before = pred(s, k, m);
        let after = succ(s, k, m);
        assert(s2.len() == s.len() - 1);
        assert((x as int) < Self::cap());
        if k > 0 {
            assert(s[k - 1] == before);
            assert(s[k - 1] != x);
        }
        if k + 1 < s.len() {
            assert(s[k + 1] == after);
            assert(s[k + 1] != x);
        }
        if j < k - 1 {
            let y = s[j];
            assert(s2[j] == y);
            assert(s2[j + 1] == s[j + 1]);
            assert(y != x);
            assert(post.nodes@[y as int] == pre.nodes@[y as int]);
            if j > 0 {
                assert(s2[j - 1] == s[j - 1]);
            }
        } else if j == k - 1 {
            assert(s2[j] == s[j]);
            if j > 0 {
                assert(s2[j - 1] == s[j - 1]);
            }
            if j + 1 < s2.len() {
                assert(s2[j + 1] == s[k + 1]);
            }
        } else if j == k {
            assert(s2[j] == s[k + 1]);
            if k > 0 {
                assert(s2[k - 1] == s[k - 1]);
            }
            if j + 1 < s2.len() {
                assert(s2[j + 1] == s[k + 2]);
            }
        } else {
            let y = s[j + 1];
            assert(s2[j] == y);
            assert(y != x);
            assert(post.nodes@[y as int] == pre.nodes@[y as int]);
            assert(s2[j - 1] == s[j]);
            if j + 1 < s2.len() {
                assert(s2[j + 1] == s[j + 2]);
            }
        }
    }

    /// After an unlink, the list's marker points at the new head and tail.
    #[verifier::spinoff_prover]
    proof fn lemma_unlink_marker(pre: Self, post: Self, l: int, k: int)
        requires
            Self::geometry_ok(),
            pre.nodes@.len() == N,
            pre.lists@.len() == L,
            pre.list_wf(l),
            0 <= l < L,
            0 <= k < pre.lists@[l].len(),
            Self::unlink_step(pre, post, l, k),
        ensures
            ({
                let s2 = pre.lists@[l].remove(k);
                let m = Self::marker(l);
                &&& post.nodes@[m as int].next == succ(s2, -1, m)
                &&& post.nodes@[m as int].prev == pred(s2, s2.len() as int, m)
                &&& post.nodes@[m as int].value == V::MAX
                &&& post.nodes@[m as int].container == NO_LIST
            }),
    {
        reveal(ListsOf::list_wf);
        let s = pre.lists@[l];
        let m = Self::marker(l);
        let s2 = s.remove(k);
        let x = s[k];
        let before = pred(s, k, m);
        let after = succ(s, k, m);
        assert((x as int) < Self::cap());
        if k > 0 {
            assert(s[k - 1] == before);
            assert((s[k - 1] as int) < Self::cap());
        }
        if k + 1 < s.len() {
            assert(s[k + 1] == after);
            assert((s[k + 1] as int) < Self::cap());
        }
        if s2.len() > 0 {
            assert(s2[0] == if k == 0 {
                s[1]
            } else {
                s[0]
            });
            assert(s2[s2.len() - 1] == if k == s.len() - 1 {
                s[s.len() - 2]
            } else {
                s[s.len() - 1]
            });
        }
        if m != before && m != after {
            assert(post.nodes@[m as int] == pre.nodes@[m as int]);
        }
    }

    /// Removing an element keeps a sequence free of duplicates, and every
    /// other element stays in it.
    proof fn lemma_remove_keeps(s: Seq<ItemId>, k: int)
        requires
            s.no_duplicates(),
            0 <= k < s.len(),
        ensures
            s.remove(k).no_duplicates(),
            !s.remove(k).contains(s[k]),
            forall|y: ItemId| s.contains(y) && y != s[k] ==> #[trigger] s.remove(k).contains(y),
    {
        let s2 = s.remove(k);
        assert forall|i: int, j: int|
            0 <= i < s2.len() && 0 <= j < s2.len() && i != j implies s2[i] != s2[j] by {
            let si = if i < k {
                i
            } else {
                i + 1
            };
            let sj = if j < k {
                j
            } else {
                j + 1
            };
            assert(s2[i] == s[si]);
            assert(s2[j] == s[sj]);
        }
        if s2.contains(s[k]) {
            let i = choose|i: int| 0 <= i < s2.len() && s2[i] == s[k];
            let si = if i < k {
                i
            } else {
                i + 1
            };
            assert(s2[i] == s[si]);
        }
        assert forall|y: ItemId| s.contains(y) && y != s[k] implies #[trigger] s2.contains(y) by {
            let i = choose|i: int| 0 <= i < s.len() && s[i] == y;
            let i2 = if i < k {
                i
            } else {
                i - 1
            };
            assert(s2[i2] == y);
        }
    }

    /// Unlinking position `k` of list `l` keeps that list well formed.
    #[verifier::spinoff_prover]
    proof fn lemma_unlink_same(pre: Self, post: Self, l: int, k: int)
        requires
            Self::geometry_ok(),
            pre.nodes@.len() == N,
            pre.meta@.len() == L,
            pre.lists@.len() == L,
            pre.list_wf(l),
            0 <= l < L,
            0 <= k < pre.lists@[l].len(),
            post.lists@ == pre.lists@.update(l, pre.lists@[l].remove(k)),
            post.meta@ == pre.meta@.update(
                l,
                Meta {
                    cursor: if pre.meta@[l].cursor == pre.lists@[l][k] {
                        pred(pre.lists@[l], k, Self::marker(l))
                    } else {
                        pre.meta@[l].cursor
                    },
                    len: (pre.meta@[l].len - 1) as u16,
                },
            ),
            Self::unlink_step(pre, post, l, k),
        ensures
            post.list_wf(l),
    {
        let s = pre.lists@[l];
        let m = Self::marker(l);
        let s2 = s.remove(k);
        assert forall|j: int|
            #![trigger s2[j]]
            0 <= j < s2.len() implies {
                &&& (s2[j] as int) < Self::cap()
                &&& post.nodes@[s2[j] as int].container == l as u8
                &&& post.nodes@[s2[j] as int].next == succ(s2, j, m)
                &&& post.nodes@[s2[j] as int].prev == pred(s2, j, m)
            } by {
            Self::lemma_unlink_node(pre, post, l, k, j);
        }
        Self::lemma_unlink_marker(pre, post, l, k);
        assert(s.no_duplicates() && pre.meta@[l].len as int == s.len()) by {
            reveal(ListsOf::list_wf);
        }
        Self::lemma_remove_keeps(s, k);
        let c = post.meta@[l].cursor;
        assert(c == m || s2.contains(c)) by {
            reveal(ListsOf::list_wf);
            if k > 0 {
                assert(s[k - 1] != s[k]);
                assert(s.contains(s[k - 1]));
            }
        }
        assert(post.lists@[l] == s2);
        reveal(ListsOf::list_wf);
    }

    /// Unlinking from list `l` leaves every other list well formed.
    #[verifier::spinoff_prover]
    proof fn lemma_unlink_other(pre: Self, post: Self, l: int, l2: int, k: int)
        requires
            Self::geometry_ok(),
            pre.nodes@.len() == N,
            pre.meta@.len() == L,
            pre.lists@.len() == L,
            pre.list_wf(l),
            pre.list_wf(l2),
            0 <= l < L,
            0 <= l2 < L,
            l2 != l,
            0 <= k < pre.lists@[l].len(),
            post.lists@[l2] == pre.lists@[l2],
            post.meta@[l2] == pre.meta@[l2],
            Self::unlink_step(pre, post, l, k),
        ensures
            post.list_wf(l2),
    {
        reveal(ListsOf::list_wf);
        let s = pre.lists@[l];
        let s2 = pre.lists@[l2];
        let m2 = Self::marker(l2);
        assert(pre.nodes@[s[k] as int].container == l as u8);
        if k > 0 {
            assert(pre.nodes@[s[k - 1] as int].container == l as u8);
        }
        if k + 1 < s.len() {
            assert(pre.nodes@[s[k + 1] as int].container == l as u8);
        }
        assert forall|j: int| 0 <= j < s2.len() implies #[trigger] post.nodes@[s2[j] as int]
            == pre.nodes@[s2[j] as int] by {
            assert(pre.nodes@[s2[j] as int].container == l2 as u8);
        }
        assert(post.nodes@[m2 as int] == pre.nodes@[m2 as int]);
    }

    /// After an unlink, every item's stored container still names the list holding it.
    proof fn lemma_unlink_homes(pre: Self, post: Self, l: int, k: int)
        requires
            Self::geometry_ok(),
            pre.homes_wf(),
            pre.lists@.len() == L,
            0 <= l < L,
            0 <= k < pre.lists@[l].len(),
            pre.lists@[l].no_duplicates(),
            post.lists@ == pre.lists@.update(l, pre.lists@[l].remove(k)),
            post.nodes@[pre.lists@[l][k] as int].container == NO_LIST,
            forall|x: int|
                0 <= x < Self::cap() && x != pre.lists@[l][k] as int
                    ==> #[trigger] post.nodes@[x].container == pre.nodes@[x].container,
        ensures
            post.homes_wf(),
    {
        reveal(ListsOf::homes_wf);
        let s = pre.lists@[l];
        Self::lemma_remove_keeps(s, k);
        assert forall|i: int| 0 <= i < Self::cap() implies {
            let c = #[trigger] post.nodes@[i].container;
            c == NO_LIST || ((c as int) < L && post.lists@[c as int].contains(i as u16))
        } by {
            let c = post.nodes@[i].container;
            if i != s[k] as int {
                assert(c == pre.nodes@[i].container);
                assert(c == NO_LIST || ((c as int) < L && pre.lists@[c as int].contains(i as u16)));
                if c != NO_LIST && c as int != l {
                    assert(post.lists@[c as int] == pre.lists@[c as int]);
                }
                if c != NO_LIST && c as int == l {
                    assert(s.contains(i as u16));
                    assert(i as u16 != s[k]);
                }
            }
        }
    }

    /// The three node writes and the meta update of an unlink keep the lists well formed.
    proof fn lemma_unlink(
        pre: Self,
        post: Self,
        l: int,
        k: int,
        nodes1: Seq<Node<V>>,
        nodes2: Seq<Node<V>>,
    )
        requires
            pre.wf(),
            0 <= l < L,
            0 <= k < pre.lists@[l].len(),
            post.lists@ == pre.lists@.update(l, pre.lists@[l].remove(k)),
            post.meta@ == pre.meta@.update(
                l,
                Meta {
                    cursor: if pre.meta@[l].cursor == pre.lists@[l][k] {
                        pred(pre.lists@[l], k, Self::marker(l))
                    } else {
                        pre.meta@[l].cursor
                    },
                    len: (pre.meta@[l].len - 1) as u16,
                },
            ),
            ({
                let s = pre.lists@[l];
                let m = Self::marker(l);
                let x = s[k];
                let before = pred(s, k, m);
                let after = succ(s, k, m);
                &&& (before as int) < N
                &&& (after as int) < N
                &&& (x as int) < Self::cap()
                &&& before != x
                &&& after != x
                &&& nodes1 == pre.nodes@.update(
                    after as int,
                    Node { prev: before, ..pre.nodes@[after as int] },
                )
                &&& nodes2 == nodes1.update(
                    before as int,
                    Node { next: after, ..nodes1[before as int] },
                )
                &&& post.nodes@ == nodes2.update(
                    x as int,
                    Node { container: NO_LIST, ..nodes2[x as int] },
                )
            }),
        ensures
            post.wf(),
    {
        assert(Self::unlink_step(pre, post, l, k));
        assert(pre.list_wf(l));
        Self::lemma_unlink_same(pre, post, l, k);
        assert forall|l2: int| 0 <= l2 < L implies #[trigger] post.list_wf(l2) by {
            if l2 != l {
                assert(pre.list_wf(l2));
                Self::lemma_unlink_other(pre, post, l, l2, k);
            }
        }
        assert(pre.lists@[l].no_duplicates()) by {
            reveal(ListsOf::list_wf);
        }
        Self::lemma_unlink_homes(pre, post, l, k);
    }

    /// `uxListRemove`: unlink an item and answer how many are left in its list.
    /// If the list's cursor sat on the item, it moves back to the item before.
    pub fn remove(&mut self, item: ItemId) -> (r: Result<usize>)
        requires
            old(self).wf(),
        ensures
            final(self).wf(),
            !Self::is_item(item) ==> r == Err::<usize, Error>(Error::InvalidArgument)
                && *final(self) == *old(self),
            Self::is_item(item) && !old(self).linked(item) ==> r == Err::<usize, Error>(
                Error::NotActive,
            ) && *final(self) == *old(self),
            Self::is_item(item) && old(self).linked(item) ==> {
                let l = old(self).home(item);
                let s = old(self).order(l);
                let k = s.index_of(item);
                &&& 0 <= l < L
                &&& 0 <= k < s.len()
                &&& s[k] == item
                &&& r == Ok::<usize, Error>((s.len() - 1) as usize)
                &&& final(self).order(l) == s.remove(k)
                &&& final(self).cursor(l) == if old(self).cursor(l) == item {
                    pred(s, k, Self::marker(l))
                } else {
                    old(self).cursor(l)
                }
                &&& !final(self).linked(item)
                &&& final(self).others_unchanged(old(self), l)
                &&& final(self).values() == old(self).values()
            },
    {
        if item as usize >= N - L {
            return Err(Error::InvalidArgument);
        }
        proof {
            self.lemma_home(item);
        }
        let n = self.nodes[item as usize];
        if n.container == NO_LIST {
            return Err(Error::NotActive);
        }
        let list = n.container;
        let prev = n.prev;
        let next = n.next;
        let ghost pre = *self;
        let ghost l = list as int;
        let ghost s = self.order(l);
        let ghost k = s.index_of(item);
        proof {
            let j = choose|j: int| 0 <= j < s.len() && s[j] == item;
            self.lemma_slot(l, 0);
            Self::lemma_index_of(s, j);
            self.lemma_slot(l, k);
            self.lemma_slot(l, k + 1);
            if k > 0 {
                self.lemma_slot(l, k - 1);
            }
        }
        let mut a = self.nodes[next as usize];
        a.prev = prev;
        self.nodes.set(next as usize, a);
        let ghost nodes1 = self.nodes@;
        let mut b = self.nodes[prev as usize];
        b.next = next;
        self.nodes.set(prev as usize, b);
        let ghost nodes2 = self.nodes@;
        let mut c = self.nodes[item as usize];
        c.container = NO_LIST;
        self.nodes.set(item as usize, c);
        let mut m = self.meta[list as usize];
        if m.cursor == item {
            m.cursor = prev;
        }
        m.len = m.len - 1;
        self.meta.set(list as usize, m);
        proof {
            self.lists@ = self.lists@.update(l, s.remove(k));
            Self::lemma_unlink(pre, *self, l, k, nodes1, nodes2);
            assert(self.values() =~= pre.values());
            self.lemma_home(item);
        }
        Ok(m.len as usize)
    }

    /// Moving a list's cursor onto one of its items keeps the lists well formed.
    proof fn lemma_cursor_moved(pre: Self, post: Self, l: int, c: u16)
        requires
            pre.wf(),
            0 <= l < L,
            pre.lists@[l].contains(c),
            post.nodes@ == pre.nodes@,
            post.lists@ == pre.lists@,
            post.meta@ == pre.meta@.update(l, Meta { cursor: c, len: pre.meta@[l].len }),
        ensures
            post.wf(),
    {
        reveal(ListsOf::list_wf);
        reveal(ListsOf::homes_wf);
        assert forall|l2: int| 0 <= l2 < L implies #[trigger] post.list_wf(l2) by {
            assert(pre.list_wf(l2));
        }
    }

    /// The position after `k` in the round robin of a list of `len` items:
    /// the marker's position `-1` and the last position both lead to the head.
    pub open spec fn round_robin_next(k: int, len: int) -> int {
        if k + 1 < len {
            k + 1
        } else {
            0
        }
    }

    /// `listGET_OWNER_OF_NEXT_ENTRY`: advance the round robin and answer whose
    /// turn it now is. The marker is skipped, so a non-empty list always
    /// answers an item.
    pub fn next_round_robin(&mut self, list: ListId) -> (r: Result<Option<ItemId>>)
        requires
            old(self).wf(),
        ensures
            final(self).wf(),
            !Self::is_list(list) ==> r == Err::<Option<ItemId>, Error>(Error::InvalidArgument)
                && *final(self) == *old(self),
            Self::is_list(list) && old(self).order(list as int).len() == 0 ==> r == Ok::<
                Option<ItemId>,
                Error,
            >(None) && *final(self) == *old(self),
            Self::is_list(list) && old(self).order(list as int).len() > 0 ==> {
                let s = old(self).order(list as int);
                let k = Self::round_robin_next(
                    old(self).cursor_position(list as int),
                    s.len() as int,
                );
                &&& r == Ok::<Option<ItemId>, Error>(Some(s[k]))
                &&& final(self).cursor(list as int) == s[k]
                &&& final(self).order(list as int) == s
                &&& final(self).others_unchanged(old(self), list as int)
                &&& final(self).values() == old(self).values()
            },
    {
        if list as usize >= L {
            return Err(Error::InvalidArgument);
        }
        let ghost l = list as int;
        let ghost s = self.order(l);
        let mut m = self.meta[list as usize];
        proof {
            self.lemma_slot(l, s.len() as int);
        }
        if m.len == 0 {
            return Ok(None);
        }
        let end = Self::end_of(list);
        let ghost c = self.cursor_position(l);
        proof {
            if m.cursor != Self::marker(l) {
                let j = choose|j: int| 0 <= j < s.len() && s[j] == m.cursor;
                Self::lemma_index_of(s, j);
                self.lemma_slot(l, j);
            }
            self.lemma_slot(l, 0);
        }
        let mut next = self.nodes[m.cursor as usize].next;
        if next == end {
            next = self.nodes[next as usize].next;
        }
        let ghost pre = *self;
        m.cursor = next;
        self.meta.set(list as usize, m);
        proof {
            let k = Self::round_robin_next(c, s.len() as int);
            assert(next == s[k]);
            assert(s.contains(next));
            Self::lemma_cursor_moved(pre, *self, l, next);
            assert((next as int) < Self::cap());
        }
        if !Self::is_end(next) {
            Ok(Some(next))
        } else {
            Ok(None)
        }
    }

    /// The item after this one in its list, or `None` at the end of the list.
    pub fn next(&self, item: ItemId) -> (r: Result<Option<ItemId>>)
        requires
            self.wf(),
        ensures
            !Self::is_item(item) ==> r == Err::<Option<ItemId>, Error>(Error::InvalidArgument),
            Self::is_item(item) && !self.linked(item) ==> r == Err::<Option<ItemId>, Error>(
                Error::NotActive,
            ),
            Self::is_item(item) && self.linked(item) ==> {
                let s = self.order(self.home(item));
                let k = s.index_of(item);
                r == Ok::<Option<ItemId>, Error>(
                    if k + 1 < s.len() {
                        Some(s[k + 1])
                    } else {
                        None
                    },
                )
            },
    {
        if item as usize >= N - L {
            return Err(Error::InvalidArgument);
        }
        proof {
            self.lemma_home(item);
        }
        let n = self.nodes[item as usize];
        if n.container == NO_LIST {
            return Err(Error::NotActive);
        }
        proof {
            let l = self.home(item);
            let s = self.order(l);
            let j = choose|j: int| 0 <= j < s.len() && s[j] == item;
            self.lemma_slot(l, 0);
            Self::lemma_index_of(s, j);
            self.lemma_slot(l, j);
            if j + 1 < s.len() {
                self.lemma_slot(l, j + 1);
            }
        }
        if !Self::is_end(n.next) {
            Ok(Some(n.next))
        } else {
            Ok(None)
        }
    }

    /// Whether the list is in ascending value order.
    pub fn is_sorted(&self, list: ListId) -> (r: Result<bool>)
        requires
            self.wf(),
        ensures
            Self::is_list(list) ==> r == Ok::<bool, Error>(
                is_ascending(self.order(list as int), self.values()),
            ),
            !Self::is_list(list) ==> r == Err::<bool, Error>(Error::InvalidArgument),
    {
        if list as usize >= L {
            return Err(Error::InvalidArgument);
        }
        let ghost l = list as int;
        let ghost s = self.order(l);
        let ghost values = self.values();
        let end = Self::end_of(list);
        proof {
            self.lemma_slot(l, s.len() as int);
            self.lemma_slot(l, 0);
        }
        let mut node = self.nodes[end as usize].next;
        let mut previous: Option<V> = None;
        let mut guard: usize = 0;
        let ghost mut k: int = 0;
        while !Self::is_end(node)
            invariant
                self.wf(),
                Self::is_list(list),
                l == list as int,
                s == self.order(l),
                values == self.values(),
                0 <= k <= s.len(),
                s.len() < N - L + 1,
                node == succ(s, k - 1, Self::marker(l)),
                guard as int == k,
                previous == if k == 0 {
                    None
                } else {
                    Some(values[s[k - 1] as int])
                },
                forall|i: int, j: int|
                    0 <= i < j < k ==> #[trigger] values[s[i] as int].key() <= #[trigger] values[s[
                        j
                    ] as int].key(),
            decreases s.len() - k,
        {
            proof {
                self.lemma_slot(l, k);
            }
            let n = self.nodes[node as usize];
            let following = n.next;
            let value = n.value;
            match previous {
                Some(p) => {
                    if p.exceeds(&value) {
                        proof {
                            assert(values[s[k - 1] as int].key() > values[s[k] as int].key());
                        }
                        return Ok(false);
                    }
                },
                None => {},
            }
            proof {
                assert forall|i: int, j: int|
                    0 <= i < j < k + 1 implies #[trigger] values[s[i] as int].key()
                    <= #[trigger] values[s[j] as int].key() by {
                    if j == k && i < k - 1 {
                        assert(values[s[i] as int].key() <= values[s[k - 1] as int].key());
                    }
                }
                if k + 1 <= s.len() {
                    self.lemma_slot(l, k + 1);
                }
            }
            previous = Some(value);
            node = following;
            guard = guard + 1;
            if guard > N {
                return Err(Error::InvalidArgument);
            }
            proof {
                k = k + 1;
            }
        }
        proof {
            self.lemma_slot(l, k);
        }
        Ok(true)
    }

    /// Every item in the list, in order, as an iterator; an empty one for a
    /// list that does not exist.
    pub fn iter(&self, list: ListId) -> (r: Iter<'_, V, N, L>)
        requires
            self.wf(),
        ensures
            r.wf(),
            r.remaining_items() == if Self::is_list(list) {
                self.order(list as int)
            } else {
                Seq::<ItemId>::empty()
            },
    {
        if list as usize >= L {
            return Iter {
                lists: self,
                at: NONE,
                remaining: 0,
                list: Ghost(0),
                position: Ghost(0),
            };
        }
        proof {
            self.lemma_slot(list as int, 0);
            self.lemma_slot(list as int, self.order(list as int).len() as int);
        }
        let at = self.nodes[Self::end_of(list) as usize].next;
        let remaining = self.meta[list as usize].len as usize;
        let r = Iter {
            lists: self,
            at,
            remaining,
            list: Ghost(list as int),
            position: Ghost(0),
        };
        proof {
            assert(r.remaining_items() =~= self.order(list as int));
        }
        r
    }

    /// The item capacity, `N - L`: how many of the `N` slots hold items.
    pub fn capacity() -> (r: usize)
        requires
            L <= N,
        ensures
            r == N - L,
    {
        N - L
    }

    /// The value an empty list reports, and the one a marker carries: `V::MAX`.
    pub fn max_value() -> (r: V)
        ensures
            r == V::MAX,
    {
        V::MAX
    }

    /// Where `round_robin_next` leads after `n` steps from position `k`.
    pub open spec fn round_robin_after(k: int, len: int, n: nat) -> int
        decreases n,
    {
        if n == 0 {
            k
        } else {
            Self::round_robin_next(Self::round_robin_after(k, len, (n - 1) as nat), len)
        }
    }

    /// The round robin is a rotation: from any position (the marker's `-1`
    /// included), `n` steps land on position `(k + n) mod len`. So a lap of
    /// `len` steps visits every item exactly once and comes back to where it began.
    pub proof fn lemma_round_robin_rotates(k: int, len: int, n: nat)
        requires
            0 < len,
            -1 <= k < len,
            n > 0,
        ensures
            Self::round_robin_after(k, len, n) == (k + n) % len,
        decreases n,
    {
        if n == 1 {
            reveal_with_fuel(ListsOf::round_robin_after, 2);
            vstd::arithmetic::div_mod::lemma_fundamental_div_mod_converse(
                k + 1,
                len,
                if k + 1 < len { 0 } else { 1 },
                if k + 1 < len { k + 1 } else { 0 },
            );
        } else {
            Self::lemma_round_robin_rotates(k, len, (n - 1) as nat);
            let q = (k + n - 1) % len;
            let d = (k + n - 1) / len;
            vstd::arithmetic::div_mod::lemma_fundamental_div_mod(k + n - 1, len);
            assert(0 <= q < len) by {
                vstd::arithmetic::div_mod::lemma_mod_bound(k + n - 1, len);
            }
            if q + 1 < len {
                vstd::arithmetic::div_mod::lemma_fundamental_div_mod_converse(
                    k + n,
                    len,
                    d,
                    q + 1,
                );
            } else {
                assert(k + n == (d + 1) * len) by (nonlinear_arith)
                    requires
                        k + n - 1 == len * d + q,
                        q + 1 == len,
                ;
                vstd::arithmetic::div_mod::lemma_fundamental_div_mod_converse(
                    k + n,
                    len,
                    d + 1,
                    0,
                );
            }
        }
    }

    /// Where `vListInsert` puts a value: every item before that position
    /// sorts at or below it, and the item at it sorts strictly above.
    pub proof fn lemma_sorted_position_bounds(s: Seq<ItemId>, values: Seq<V>, value: V)
        ensures
            0 <= sorted_position(s, values, value) <= s.len(),
            forall|j: int|
                0 <= j < sorted_position(s, values, value) ==> #[trigger] values[s[
                    j
                ] as int].key() <= value.key(),
            sorted_position(s, values, value) < s.len() ==> values[s[sorted_position(
                s,
                values,
                value,
            )] as int].key() > value.key(),
        decreases s.len(),
    {
        if s.len() > 0 && values[s[0] as int].key() <= value.key() {
            let t = s.drop_first();
            Self::lemma_sorted_position_bounds(t, values, value);
            let p = sorted_position(s, values, value);
            assert forall|j: int| 0 <= j < p implies #[trigger] values[s[j] as int].key()
                <= value.key() by {
                if j > 0 {
                    assert(s[j] == t[j - 1]);
                }
            }
            if p < s.len() {
                assert(s[p] == t[p - 1]);
            }
        }
    }

    /// `vListInsert` keeps an ascending list ascending.
    pub proof fn lemma_insert_keeps_ascending(
        s: Seq<ItemId>,
        values: Seq<V>,
        item: ItemId,
        value: V,
    )
        requires
            is_ascending(s, values),
            !s.contains(item),
            (item as int) < values.len(),
            forall|j: int| 0 <= j < s.len() ==> (#[trigger] s[j] as int) < values.len(),
        ensures
            is_ascending(
                s.insert(sorted_position(s, values, value), item),
                values.update(item as int, value),
            ),
    {
        let p = sorted_position(s, values, value);
        Self::lemma_sorted_position_bounds(s, values, value);
        let s2 = s.insert(p, item);
        let v2 = values.update(item as int, value);
        assert forall|j: int| 0 <= j < s.len() implies #[trigger] v2[s[j] as int] == values[s[
            j
        ] as int] by {
            assert(s[j] != item);
        }
        assert forall|i: int, j: int|
            0 <= i < j < s2.len() implies #[trigger] v2[s2[i] as int].key() <= #[trigger] v2[s2[
                j
            ] as int].key() by {
            let si = if i < p {
                i
            } else {
                i - 1
            };
            let sj = if j < p {
                j
            } else {
                j - 1
            };
            if i != p && j != p {
                assert(s2[i] == s[si]);
                assert(s2[j] == s[sj]);
                assert(values[s[si] as int].key() <= values[s[sj] as int].key());
            } else if i == p {
                assert(s2[i] == item);
                assert(s2[j] == s[sj]);
                assert(sj >= p);
                if sj > p {
                    assert(values[s[p] as int].key() <= values[s[sj] as int].key());
                }
            } else {
                assert(s2[j] == item);
                assert(s2[i] == s[si]);
            }
        }
    }

    /// On an ascending list, `insert_sorted`'s append shortcut puts a value
    /// exactly where `vListInsert` would, ties after their equals included.
    pub proof fn lemma_insert_sorted_matches_insert(&self, list: int, value: V)
        requires
            self.wf(),
            0 <= list < L,
            is_ascending(self.order(list), self.values()),
        ensures
            self.append_or_sorted_position(list, value) == sorted_position(
                self.order(list),
                self.values(),
                value,
            ),
    {
        let s = self.order(list);
        let values = self.values();
        if s.len() > 0 && value.key() >= values[s.last() as int].key() {
            assert forall|j: int| 0 <= j < s.len() implies #[trigger] values[s[j] as int].key()
                <= value.key() by {
                if j < s.len() - 1 {
                    assert(values[s[j] as int].key() <= values[s[s.len() - 1] as int].key());
                }
            }
            Self::lemma_sorted_position(s, values, value, s.len() as int);
        } else if s.len() == 0 {
            Self::lemma_sorted_position(s, values, value, 0);
        }
    }

    /// `L` empty lists over `N - L` unlinked items, each carrying `V::ZERO`.
    pub fn new() -> (r: Self)
        requires
            Self::geometry_ok(),
        ensures
            r.wf(),
            forall|l: int|
                0 <= l < L ==> #[trigger] r.order(l) == Seq::<ItemId>::empty() && r.cursor(l)
                    == Self::marker(l),
            r.values() == Seq::new((N - L) as nat, |i: int| V::ZERO),
    {
        let cap = N - L;
        let mut nodes: Vec<Node<V>> = Vec::new();
        let mut i: usize = 0;
        while i < N
            invariant
                Self::geometry_ok(),
                cap == N - L,
                i <= N,
                nodes@.len() == i,
                forall|k: int|
                    0 <= k < i && k < cap ==> #[trigger] nodes@[k] == (Node {
                        value: V::ZERO,
                        prev: NONE,
                        next: NONE,
                        container: NO_LIST,
                    }),
                forall|k: int|
                    cap <= k < i ==> #[trigger] nodes@[k] == (Node {
                        value: V::MAX,
                        prev: k as u16,
                        next: k as u16,
                        container: NO_LIST,
                    }),
            decreases N - i,
        {
            if i < cap {
                nodes.push(Node { value: V::ZERO, prev: NONE, next: NONE, container: NO_LIST });
            } else {
                nodes.push(
                    Node { value: V::MAX, prev: i as u16, next: i as u16, container: NO_LIST },
                );
            }
            i = i + 1;
        }
        let mut meta: Vec<Meta> = Vec::new();
        let mut l: usize = 0;
        while l < L
            invariant
                Self::geometry_ok(),
                cap == N - L,
                l <= L,
                meta@.len() == l,
                forall|k: int|
                    0 <= k < l ==> #[trigger] meta@[k] == (Meta {
                        cursor: (cap + k) as u16,
                        len: 0,
                    }),
            decreases L - l,
        {
            meta.push(Meta { cursor: (cap + l) as u16, len: 0 });
            l = l + 1;
        }
        let r = ListsOf { nodes, meta, lists: Ghost(Seq::new(L as nat, |l: int| Seq::empty())) };
        proof {
            reveal(ListsOf::list_wf);
            reveal(ListsOf::homes_wf);
            assert forall|l: int| 0 <= l < L implies #[trigger] r.list_wf(l) by {
                let m = Self::marker(l) as int;
                assert(r.nodes@[m] == (Node {
                    value: V::MAX,
                    prev: m as u16,
                    next: m as u16,
                    container: NO_LIST,
                }));
                assert(r.lists@[l].no_duplicates());
            }
            assert(r.values() =~= Seq::new((N - L) as nat, |i: int| V::ZERO));
        }
        r
    }

    /// Whether the geometry is one the lists can be built with.
    fn geometry_holds() -> (r: bool)
        ensures
            r == Self::geometry_ok(),
    {
        if L == 0 || L >= N || N > 0x8000 || L > 255 {
            return false;
        }
        let mut p: usize = 1;
        while p < N
            invariant
                is_power_of_two(p as int),
                1 <= p,
                p == 1 || p / 2 < N,
                N <= 0x8000,
            decreases 2 * N - p,
        {
            p = p * 2;
        }
        proof {
            if is_power_of_two(N as int) {
                lemma_power_of_two_unique(p as int, N as int);
            }
        }
        p == N
    }

    /// The slot of `list`'s end marker. The caller has checked `list`.
    fn end_of(list: ListId) -> (m: u16)
        requires
            Self::geometry_ok(),
            Self::is_list(list),
        ensures
            m == Self::marker(list as int),
            m as int == N - L + list,
    {
        (N - L + list as usize) as u16
    }

    /// Whether a link names a marker rather than an item.
    fn is_end(link: u16) -> (r: bool)
        requires
            Self::geometry_ok(),
        ensures
            r == !Self::is_item(link),
    {
        link as usize >= N - L
    }

    /// `xItemValue`.
    pub fn value(&self, item: ItemId) -> (r: Result<V>)
        requires
            self.wf(),
        ensures
            Self::is_item(item) ==> r == Ok::<V, Error>(self.values()[item as int]),
            !Self::is_item(item) ==> r == Err::<V, Error>(Error::InvalidArgument),
    {
        if item as usize >= N - L {
            return Err(Error::InvalidArgument);
        }
        Ok(self.nodes[item as usize].value)
    }

    /// `listSET_LIST_ITEM_VALUE`. The item stays where it is in its list, if it is in one.
    pub fn set_value(&mut self, item: ItemId, value: V) -> (r: Result<()>)
        requires
            old(self).wf(),
        ensures
            final(self).wf(),
            Self::is_item(item) ==> r is Ok && final(self).values() == old(self).values().update(
                item as int,
                value,
            ) && final(self).values()[item as int] == value && final(self).lists_unchanged(
                old(self),
            ),
            !Self::is_item(item) ==> r == Err::<(), Error>(Error::InvalidArgument) && *final(self)
                == *old(self),
    {
        if item as usize >= N - L {
            return Err(Error::InvalidArgument);
        }
        let ghost pre = *self;
        let mut n = self.nodes[item as usize];
        n.value = value;
        self.nodes.set(item as usize, n);
        proof {
            assert forall|l: int| 0 <= l < L implies #[trigger] self.list_wf(l) by {
                reveal(ListsOf::list_wf);
                assert(pre.list_wf(l));
                let s = self.lists@[l];
                assert forall|j: int| 0 <= j < s.len() implies self.nodes@[s[j] as int].container
                    == l as u8 && self.nodes@[s[j] as int].next == succ(s, j, Self::marker(l))
                    && self.nodes@[s[j] as int].prev == pred(s, j, Self::marker(l)) by {
                    assert(pre.nodes@[s[j] as int].container == l as u8);
                }
            }
            reveal(ListsOf::homes_wf);
            assert(pre.homes_wf());
            assert forall|i: int| 0 <= i < Self::cap() implies #[trigger] self.nodes@[i].container
                == pre.nodes@[i].container by {}
            assert(self.values() =~= pre.values().update(item as int, value));
        }
        Ok(())
    }

    /// `listLIST_ITEM_CONTAINER`: which list holds this item, if any.
    pub fn container(&self, item: ItemId) -> (r: Result<Option<ListId>>)
        requires
            self.wf(),
        ensures
            !Self::is_item(item) ==> r == Err::<Option<ListId>, Error>(Error::InvalidArgument),
            Self::is_item(item) && self.linked(item) ==> r == Ok::<Option<ListId>, Error>(
                Some(self.home(item) as u8),
            ),
            Self::is_item(item) && !self.linked(item) ==> r == Ok::<Option<ListId>, Error>(None),
    {
        if item as usize >= N - L {
            return Err(Error::InvalidArgument);
        }
        proof {
            self.lemma_home(item);
        }
        let c = self.nodes[item as usize].container;
        Ok(
            if c == NO_LIST {
                None
            } else {
                Some(c)
            },
        )
    }

    /// `listLIST_IS_EMPTY`.
    pub fn is_empty(&self, list: ListId) -> (r: Result<bool>)
        requires
            self.wf(),
        ensures
            Self::is_list(list) ==> r == Ok::<bool, Error>(self.order(list as int).len() == 0),
            !Self::is_list(list) ==> r == Err::<bool, Error>(Error::InvalidArgument),
    {
        if list as usize >= L {
            return Err(Error::InvalidArgument);
        }
        proof {
            reveal(ListsOf::list_wf);
            assert(self.list_wf(list as int));
        }
        Ok(self.meta[list as usize].len == 0)
    }

    /// `listCURRENT_LIST_LENGTH`.
    pub fn len(&self, list: ListId) -> (r: Result<usize>)
        requires
            self.wf(),
        ensures
            Self::is_list(list) ==> r == Ok::<usize, Error>(self.order(list as int).len() as usize),
            !Self::is_list(list) ==> r == Err::<usize, Error>(Error::InvalidArgument),
    {
        if list as usize >= L {
            return Err(Error::InvalidArgument);
        }
        proof {
            reveal(ListsOf::list_wf);
            assert(self.list_wf(list as int));
        }
        Ok(self.meta[list as usize].len as usize)
    }

    /// The first item, or `None` when the list is empty.
    pub fn head(&self, list: ListId) -> (r: Result<Option<ItemId>>)
        requires
            self.wf(),
        ensures
            Self::is_list(list) ==> r == Ok::<Option<ItemId>, Error>(
                if self.order(list as int).len() > 0 {
                    Some(self.order(list as int)[0])
                } else {
                    None
                },
            ),
            !Self::is_list(list) ==> r == Err::<Option<ItemId>, Error>(Error::InvalidArgument),
    {
        if list as usize >= L {
            return Err(Error::InvalidArgument);
        }
        proof {
            reveal(ListsOf::list_wf);
            assert(self.list_wf(list as int));
            let s = self.lists@[list as int];
            if s.len() > 0 {
                assert((s[0] as int) < Self::cap());
            }
        }
        let len = self.meta[list as usize].len;
        let first = self.nodes[Self::end_of(list) as usize].next;
        if len > 0 && !Self::is_end(first) {
            Ok(Some(first))
        } else {
            Ok(None)
        }
    }

    /// The first item's value, or `V::MAX` when the list is empty.
    pub fn head_value(&self, list: ListId) -> (r: Result<V>)
        requires
            self.wf(),
        ensures
            Self::is_list(list) ==> r == Ok::<V, Error>(
                if self.order(list as int).len() > 0 {
                    self.values()[self.order(list as int)[0] as int]
                } else {
                    V::MAX
                },
            ),
            !Self::is_list(list) ==> r == Err::<V, Error>(Error::InvalidArgument),
    {
        if list as usize >= L {
            return Err(Error::InvalidArgument);
        }
        proof {
            reveal(ListsOf::list_wf);
            assert(self.list_wf(list as int));
            let s = self.lists@[list as int];
            if s.len() > 0 {
                assert((s[0] as int) < Self::cap());
            }
        }
        let first = self.nodes[Self::end_of(list) as usize].next;
        Ok(self.nodes[first as usize].value)
    }

    /// The last item's value, or `V::MAX` when the list is empty.
    pub fn tail_value(&self, list: ListId) -> (r: Result<V>)
        requires
            self.wf(),
        ensures
            Self::is_list(list) ==> r == Ok::<V, Error>(
                if self.order(list as int).len() > 0 {
                    self.values()[self.order(list as int).last() as int]
                } else {
                    V::MAX
                },
            ),
            !Self::is_list(list) ==> r == Err::<V, Error>(Error::InvalidArgument),
    {
        if list as usize >= L {
            return Err(Error::InvalidArgument);
        }
        proof {
            reveal(ListsOf::list_wf);
            assert(self.list_wf(list as int));
            let s = self.lists@[list as int];
            if s.len() > 0 {
                assert((s[s.len() - 1] as int) < Self::cap());
            }
        }
        let last = self.nodes[Self::end_of(list) as usize].prev;
        Ok(self.nodes[last as usize].value)
    }

    /// `pxIndex`: where the round robin is sitting (the list's marker slot, or an item).
    pub fn cursor_of(&self, list: ListId) -> (r: Result<ItemId>)
        requires
            self.wf(),
        ensures
            Self::is_list(list) ==> r == Ok::<ItemId, Error>(self.cursor(list as int)),
            !Self::is_list(list) ==> r == Err::<ItemId, Error>(Error::InvalidArgument),
    {
        if list as usize >= L {
            return Err(Error::InvalidArgument);
        }
        Ok(self.meta[list as usize].cursor)
    }
}

impl<V: ListValue, const N: usize, const L: usize> Default for ListsOf<V, N, L> {
    /// `L` empty lists, as [`ListsOf::new`] makes them. Only a geometry that
    /// [`ListsOf::geometry_ok`] accepts makes usable lists.
    fn default() -> (r: Self)
        ensures
            Self::geometry_ok() ==> r.wf() && (forall|l: int|
                0 <= l < L ==> #[trigger] r.order(l) == Seq::<ItemId>::empty() && r.cursor(l)
                    == Self::marker(l)) && r.values() == Seq::new((N - L) as nat, |i: int| V::ZERO),
    {
        if Self::geometry_holds() {
            Self::new()
        } else {
            ListsOf { nodes: Vec::new(), meta: Vec::new(), lists: Ghost(Seq::empty()) }
        }
    }
}

/// The iterator [`ListsOf::iter`] returns: it walks the links of one list
/// from the head, one item per call to [`Iter::next`].
pub struct Iter<'a, V: ListValue, const N: usize, const L: usize> {
    lists: &'a ListsOf<V, N, L>,
    at: u16,
    remaining: usize,
    list: Ghost<int>,
    position: Ghost<int>,
}

impl<'a, V: ListValue, const N: usize, const L: usize> Iter<'a, V, N, L> {
    /// The items still to come, in order.
    pub closed spec fn remaining_items(&self) -> Seq<ItemId> {
        if self.remaining == 0 {
            Seq::empty()
        } else {
            self.lists.order(self.list@).skip(self.position@)
        }
    }

    /// The iterator is positioned on its list.
    pub closed spec fn wf(&self) -> bool {
        &&& self.lists.wf()
        &&& self.remaining > 0 ==> {
            let s = self.lists.order(self.list@);
            &&& 0 <= self.list@ < L
            &&& 0 <= self.position@ < s.len()
            &&& self.remaining as int == s.len() - self.position@
            &&& self.at == s[self.position@]
        }
    }

    /// The next item, or `None` once the list is exhausted.
    pub fn next(&mut self) -> (r: Option<ItemId>)
        requires
            old(self).wf(),
        ensures
            final(self).wf(),
            old(self).remaining_items().len() == 0 ==> r == None::<ItemId>
                && final(self).remaining_items().len() == 0,
            old(self).remaining_items().len() > 0 ==> r == Some(old(self).remaining_items()[0])
                && final(self).remaining_items() == old(self).remaining_items().drop_first(),
    {
        if self.remaining == 0 {
            return None;
        }
        proof {
            self.lists.lemma_slot(self.list@, self.position@);
            self.lists.lemma_slot(self.list@, self.position@ + 1);
        }
        if ListsOf::<V, N, L>::is_end(self.at) {
            return None;
        }
        let item = self.at;
        self.remaining = self.remaining - 1;
        self.at = self.lists.nodes[item as usize].next;
        proof {
            let ghost pos = self.position@;
            self.position = Ghost(pos + 1);
            let s = self.lists.order(self.list@);
            assert(s.skip(pos + 1) =~= s.skip(pos).drop_first());
        }
        Some(item)
    }
}

/// A sequence of distinct numbers below `n` has at most `n` of them.
proof fn lemma_distinct_below(s: Seq<ItemId>, n: int)
    requires
        0 <= n,
        s.no_duplicates(),
        forall|j: int| 0 <= j < s.len() ==> (#[trigger] s[j] as int) < n,
    ensures
        s.len() <= n,
    decreases n,
{
    if n <= 0 {
        if s.len() > 0 {
            assert((s[0] as int) < n);
        }
        assert(s.len() <= n);
    } else if exists|k: int| 0 <= k < s.len() && s[k] as int == n - 1 {
        let k = choose|k: int| 0 <= k < s.len() && s[k] as int == n - 1;
        let t = s.remove(k);
        assert forall|j: int| 0 <= j < t.len() implies (#[trigger] t[j] as int) < n - 1 by {
            if j < k {
                assert(t[j] == s[j]);
                assert(s[j] != s[k]);
            } else {
                assert(t[j] == s[j + 1]);
                assert(s[j + 1] != s[k]);
            }
        }
        assert forall|i: int, j: int| 0 <= i < t.len() && 0 <= j < t.len() && i != j implies t[i]
            != t[j] by {
            let si = if i < k { i } else { i + 1 };
            let sj = if j < k { j } else { j + 1 };
            assert(t[i] == s[si]);
            assert(t[j] == s[sj]);
        }
        lemma_distinct_below(t, n - 1);
        assert(t.len() == s.len() - 1);
    } else {
        assert forall|j: int| 0 <= j < s.len() implies (#[trigger] s[j] as int) < n - 1 by {
            assert(s[j] as int != n - 1);
        }
        lemma_distinct_below(s, n - 1);
        assert(s.len() <= n);
    }
}

} // verus!
