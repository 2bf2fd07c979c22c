//! A slot allocator: items live in numbered slots, freed slots are kept on a
//! stack and handed out again, most recently freed first.

use vstd::prelude::*;

verus! {

/// The items of `s` that are present, in slot order.
pub open spec fn occupied<T>(s: Seq<Option<T>>) -> Seq<T>
    decreases s.len(),
{
    if s.len() == 0 {
        Seq::empty()
    } else {
        let rest = occupied(s.drop_first());
        match s[0] {
            Some(v) => seq![v] + rest,
            None => rest,
        }
    }
}

/// A slot of `s` that holds nothing.
pub open spec fn is_empty_slot<T>(s: Seq<Option<T>>, k: int) -> bool {
    0 <= k < s.len() && s[k] is None
}

/// `occupied` splits over concatenation.
pub proof fn lemma_occupied_append<T>(a: Seq<Option<T>>, b: Seq<Option<T>>)
    ensures
        occupied(a + b) == occupied(a) + occupied(b),
    decreases a.len(),
{
    if a.len() == 0 {
        assert(a + b =~= b);
        assert(occupied(a) + occupied(b) =~= occupied(b));
    } else {
        lemma_occupied_append(a.drop_first(), b);
        assert((a + b).drop_first() =~= a.drop_first() + b);
        assert((a + b)[0] == a[0]);
        match a[0] {
            Some(v) => {
                assert(seq![v] + (occupied(a.drop_first()) + occupied(b)) =~= (seq![v]
                    + occupied(a.drop_first())) + occupied(b));
            },
            None => {},
        }
    }
}

/// The empty slots of `s` below `n`.
pub open spec fn empty_slots_below<T>(s: Seq<Option<T>>, n: int) -> Set<usize> {
    Set::new(|k: usize| k < n && s[k as int] is None)
}

proof fn lemma_empty_slots_count<T>(s: Seq<Option<T>>, n: int)
    requires
        0 <= n <= s.len(),
        s.len() <= usize::MAX,
    ensures
        empty_slots_below(s, n).finite(),
        empty_slots_below(s, n).len() + occupied(s.take(n)).len() == n,
    decreases n,
{
    if n == 0 {
        assert(empty_slots_below(s, n) =~= Set::<usize>::empty());
        assert(s.take(0) =~= Seq::<Option<T>>::empty());
    } else {
        lemma_empty_slots_count(s, n - 1);
        assert(s.take(n) =~= s.take(n - 1) + seq![s[n - 1]]);
        lemma_occupied_append(s.take(n - 1), seq![s[n - 1]]);
        assert(seq![s[n - 1]].drop_first() =~= Seq::<Option<T>>::empty());
        assert(occupied(Seq::<Option<T>>::empty()) == Seq::<T>::empty());
        if s[n - 1] is None {
            assert(occupied(seq![s[n - 1]]) =~= Seq::<T>::empty());
            assert(!empty_slots_below(s, n - 1).contains((n - 1) as usize));
            assert(empty_slots_below(s, n) =~= empty_slots_below(s, n - 1).insert(
                (n - 1) as usize,
            ));
        } else {
            assert(occupied(seq![s[n - 1]]).len() == 1);
            assert(empty_slots_below(s, n) =~= empty_slots_below(s, n - 1));
        }
    }
}

/// What `push` does: the item goes to the most recently freed slot, or to
/// a new slot at the end when none is free.
pub open spec fn push_post<T>(pre: FreeList<T>, post: FreeList<T>, item: T, idx: usize) -> bool {
    if pre.free_stack().len() > 0 {
        &&& idx == pre.free_stack().last()
        &&& post@ == pre@.update(idx as int, Some(item))
        &&& post.free_stack() == pre.free_stack().drop_last()
    } else {
        &&& idx == pre@.len()
        &&& post@ == pre@.push(Some(item))
        &&& post.free_stack() == pre.free_stack()
    }
}

/// What `free` does: an occupied slot is emptied and goes on the free
/// stack; an empty one is left alone.
pub open spec fn free_post<T>(pre: FreeList<T>, post: FreeList<T>, idx: usize, freed: bool) -> bool {
    &&& freed == (pre@[idx as int] is Some)
    &&& freed ==> post@ == pre@.update(idx as int, None) && post.free_stack()
        == pre.free_stack().push(idx)
    &&& !freed ==> post@ == pre@ && post.free_stack() == pre.free_stack()
}

/// Whether `k` is among `idxs`.
pub open spec fn names(idxs: Seq<usize>, k: int) -> bool {
    exists|i: int| 0 <= i < idxs.len() && idxs[i] as int == k
}

/// The slots after freeing each index of `idxs` in turn.
pub open spec fn slots_after_frees<T>(s: Seq<Option<T>>, idxs: Seq<usize>) -> Seq<Option<T>> {
    Seq::new(s.len(), |k: int| if names(idxs, k) { None } else { s[k] })
}

/// The free stack after freeing each index of `idxs` in turn: an index
/// goes on the stack when its slot was still occupied.
pub open spec fn stack_after_frees<T>(s: Seq<Option<T>>, f: Seq<usize>, idxs: Seq<usize>) -> Seq<
    usize,
>
    decreases idxs.len(),
{
    if idxs.len() == 0 {
        f
    } else {
        let i = idxs[0];
        if s[i as int] is Some {
            stack_after_frees(s.update(i as int, None), f.push(i), idxs.drop_first())
        } else {
            stack_after_frees(s, f, idxs.drop_first())
        }
    }
}

/// Which indices reach the free stack depends only on which slots are
/// occupied, not on what they hold.
pub proof fn lemma_stack_after_frees_occupancy<T, U>(
    s1: Seq<Option<T>>,
    s2: Seq<Option<U>>,
    f: Seq<usize>,
    idxs: Seq<usize>,
)
    requires
        s1.len() == s2.len(),
        forall|k: int| 0 <= k < s1.len() ==> (#[trigger] s1[k] is Some <==> s2[k] is Some),
        forall|i: int| 0 <= i < idxs.len() ==> #[trigger] idxs[i] < s1.len(),
    ensures
        stack_after_frees(s1, f, idxs) == stack_after_frees(s2, f, idxs),
    decreases idxs.len(),
{
    if idxs.len() > 0 {
        let i = idxs[0];
        assert(s1[i as int] is Some <==> s2[i as int] is Some);
        assert forall|n: int| 0 <= n < idxs.drop_first().len() implies #[trigger] idxs.drop_first()[n] < s1.len() by {
            assert(idxs.drop_first()[n] == idxs[n + 1]);
        }
        if s1[i as int] is Some {
            let t1 = s1.update(i as int, None);
            let t2 = s2.update(i as int, None);
            assert forall|k: int| 0 <= k < t1.len() implies (#[trigger] t1[k] is Some <==> t2[k] is Some) by {
                assert(s1[k] is Some <==> s2[k] is Some);
            }
            lemma_stack_after_frees_occupancy(t1, t2, f.push(i), idxs.drop_first());
        } else {
            lemma_stack_after_frees_occupancy(s1, s2, f, idxs.drop_first());
        }
    }
}

pub struct FreeList<T> {
    items: Vec<Option<T>>,
    free_idxs: Vec<usize>,
}

impl<T> View for FreeList<T> {
    type V = Seq<Option<T>>;

    /// The slots, in index order; `None` marks a free slot.
    closed spec fn view(&self) -> Seq<Option<T>> {
        self.items@
    }
}

impl<T> FreeList<T> {
    /// The freed slot indices, in the order they were freed; the last one
    /// is handed out first.
    pub closed spec fn free_stack(&self) -> Seq<usize> {
        self.free_idxs@
    }

    /// The free stack names exactly the empty slots, each once.
    pub open spec fn wf(&self) -> bool {
        &&& self@.len() <= usize::MAX
        &&& self.free_stack().no_duplicates()
        &&& forall|i: int|
            0 <= i < self.free_stack().len() ==> is_empty_slot(
                self@,
                #[trigger] self.free_stack()[i] as int,
            )
        &&& forall|k: int|
            0 <= k < self@.len() && (#[trigger] self@[k]) is None ==> exists|i: int|
                0 <= i < self.free_stack().len() && self.free_stack()[i] as int == k
    }

    /// Every empty slot is on the free stack exactly once, so the free
    /// stack and the occupied items together account for every slot.
    pub proof fn lemma_free_stack_counts_empty_slots(&self)
        requires
            self.wf(),
        ensures
            self.free_stack().len() + occupied(self@).len() == self@.len(),
    {
        let s = self@;
        assert(self.items.len() == s.len());
        lemma_empty_slots_count(s, s.len() as int);
        assert(s.take(s.len() as int) =~= s);
        let fs = self.free_stack();
        fs.unique_seq_to_set();
        assert forall|k: usize| #[trigger] fs.to_set().contains(k) <==> empty_slots_below(
            s,
            s.len() as int,
        ).contains(k) by {
            if fs.to_set().contains(k) {
                let i = choose|i: int| 0 <= i < fs.len() && fs[i] == k;
                assert(is_empty_slot(s, fs[i] as int));
            }
            if empty_slots_below(s, s.len() as int).contains(k) {
                assert(is_empty_slot(s, k as int));
                let i = choose|i: int| 0 <= i < fs.len() && fs[i] as int == k as int;
                assert(fs[i] == k);
            }
        }
        assert(fs.to_set() =~= empty_slots_below(s, s.len() as int));
    }

    pub fn new() -> (list: FreeList<T>)
        ensures
            list.wf(),
            list@ == Seq::<Option<T>>::empty(),
            list.free_stack() == Seq::<usize>::empty(),
    {
        FreeList { items: Vec::new(), free_idxs: Vec::new() }
    }

    /// Stores `item` in the most recently freed slot, or in a new slot at
    /// the end when no slot is free, and returns the index of the slot.
    pub fn push(&mut self, item: T) -> (idx: usize)
        requires
            old(self).wf(),
        ensures
            final(self).wf(),
            push_post(*old(self), *final(self), item, idx),
    {
        match self.free_idxs.pop() {
            Some(idx) => {
                proof {
                    assert(is_empty_slot(old(self)@, idx as int));
                }
                self.items.set(idx, Some(item));
                proof {
                    let fs = self.free_stack();
                    let ofs = old(self).free_stack();
                    assert(ofs =~= fs.push(idx));
                    assert forall|i: int| 0 <= i < fs.len() implies is_empty_slot(
                        self@,
                        #[trigger] fs[i] as int,
                    ) by {
                        assert(ofs[i] == fs[i]);
                        assert(is_empty_slot(old(self)@, ofs[i] as int));
                        assert(ofs[i] != ofs[ofs.len() - 1]);
                    }
                    assert forall|k: int| 0 <= k < self@.len() && (#[trigger] self@[k]) is None implies exists|i: int|
                        0 <= i < fs.len() && fs[i] as int == k by {
                        assert(k != idx as int);
                        assert(is_empty_slot(old(self)@, k));
                        let j = choose|j: int| 0 <= j < ofs.len() && ofs[j] as int == k;
                        assert(j != ofs.len() - 1);
                        assert(fs[j] as int == k);
                    }
                }
                idx
            },
            None => {
                self.items.push(Some(item));
                proof {
                    assert forall|k: int| 0 <= k < self@.len() && (#[trigger] self@[k]) is None implies exists|i: int|
                        0 <= i < self.free_stack().len() && self.free_stack()[i] as int == k by {
                        assert(is_empty_slot(old(self)@, k));
                    }
                    assert forall|i: int|
                        0 <= i < self.free_stack().len() implies #[trigger] is_empty_slot(
                        self@,
                        self.free_stack()[i] as int,
                    ) by {}
                }
                self.items.len() - 1
            },
        }
    }

    /// Empties slot `idx` and puts it on the free stack; returns whether the
    /// slot held an item. An empty slot is left as it is.
    pub fn free(&mut self, idx: usize) -> (freed: bool)
        requires
            old(self).wf(),
            idx < old(self)@.len(),
        ensures
            final(self).wf(),
            free_post(*old(self), *final(self), idx, freed),
    {
        if self.items[idx].is_some() {
            self.free_idxs.push(idx);
            self.items.set(idx, None);
            proof {
                let fs = self.free_stack();
                let ofs = old(self).free_stack();
                assert(forall|j: int| 0 <= j < ofs.len() ==> ofs[j] != idx) by {
                    if exists|j: int| 0 <= j < ofs.len() && ofs[j] == idx {
                        let j = choose|j: int| 0 <= j < ofs.len() && ofs[j] == idx;
                        assert(is_empty_slot(old(self)@, ofs[j] as int));
                    }
                }
                assert forall|i: int, j: int|
                    0 <= i < fs.len() && 0 <= j < fs.len() && i != j implies fs[i] != fs[j] by {
                    if i == ofs.len() {
                        assert(fs[j] == ofs[j]);
                    } else if j == ofs.len() {
                        assert(fs[i] == ofs[i]);
                    }
                }
                assert forall|i: int| 0 <= i < fs.len() implies is_empty_slot(
                    self@,
                    #[trigger] fs[i] as int,
                ) by {
                    if i < ofs.len() {
                        assert(fs[i] == ofs[i]);
                        assert(is_empty_slot(old(self)@, ofs[i] as int));
                    }
                }
                assert forall|k: int| 0 <= k < self@.len() && (#[trigger] self@[k]) is None implies exists|i: int|
                    0 <= i < fs.len() && fs[i] as int == k by {
                    if k == idx {
                        assert(fs[ofs.len() as int] as int == k);
                    } else {
                        assert(is_empty_slot(old(self)@, k));
                        let j = choose|j: int| 0 <= j < ofs.len() && ofs[j] as int == k;
                        assert(fs[j] as int == k);
                    }
                }
            }
            true
        } else {
            false
        }
    }

    /// The item in slot `idx`, if the slot is occupied.
    pub fn get(&self, idx: usize) -> (r: Option<&T>)
        requires
            idx < self@.len(),
        ensures
            match self@[idx as int] {
                Some(v) => r is Some && *r.unwrap() == v,
                None => r is None,
            },
    {
        self.items[idx].as_ref()
    }

    /// Mutable access to the item in slot `idx`, if the slot is occupied;
    /// what is written through it is what the slot then holds.
    pub fn get_mut(&mut self, idx: usize) -> (r: Option<&mut T>)
        requires
            idx < old(self)@.len(),
        ensures
            final(self).free_stack() == old(self).free_stack(),
            old(self).wf() ==> final(self).wf(),
            match old(self)@[idx as int] {
                Some(v) => {
                    &&& r is Some
                    &&& *r.unwrap() == v
                    &&& final(self)@ == old(self)@.update(idx as int, Some(*final(r.unwrap())))
                },
                None => r is None && final(self)@ == old(self)@,
            },
    {
        self.items[idx].as_mut()
    }

    /// The number of slots, occupied or not.
    pub fn items_len(&self) -> (n: usize)
        ensures
            n == self@.len(),
    {
        self.items.len()
    }

    /// The number of occupied slots.
    pub fn len(&self) -> (n: usize)
        requires
            self.wf(),
        ensures
            n == self@.len() - self.free_stack().len(),
            n == occupied(self@).len(),
    {
        proof {
            self.lemma_free_stack_counts_empty_slots();
        }
        self.items.len() - self.free_idxs.len()
    }

    /// Walks the occupied slots in index order.
    pub fn iter<'a>(&'a self) -> (it: FreeListItems<'a, T>)
        ensures
            it.inv(),
            it.remaining() == occupied(self@),
            it.slots() == self@,
            it.position() == 0,
    {
        let it = FreeListItems { idx: 0, items: self.items.as_slice() };
        proof {
            assert(it.items@.subrange(0, it.items@.len() as int) =~= self@);
        }
        it
    }
}

/// The occupied slots of a `FreeList`, in index order.
pub struct FreeListItems<'a, T> {
    idx: usize,
    items: &'a [Option<T>],
}

impl<'a, T> FreeListItems<'a, T> {
    /// The items still to come.
    pub closed spec fn remaining(&self) -> Seq<T> {
        occupied(self.items@.subrange(self.idx as int, self.items@.len() as int))
    }

    /// The slots being walked.
    pub closed spec fn slots(&self) -> Seq<Option<T>> {
        self.items@
    }

    /// The next slot to look at.
    pub closed spec fn position(&self) -> int {
        self.idx as int
    }

    pub closed spec fn inv(&self) -> bool {
        self.idx <= self.items@.len()
    }

    /// The next occupied item, or `None` once every slot has been passed.
    pub fn next(&mut self) -> (r: Option<&'a T>)
        requires
            old(self).inv(),
        ensures
            final(self).inv(),
            match r {
                Some(v) => old(self).remaining() == seq![*v] + final(self).remaining(),
                None => old(self).remaining() == Seq::<T>::empty() && final(self).remaining()
                    == Seq::<T>::empty(),
            },
            final(self).slots() == old(self).slots(),
            match r {
                Some(v) => {
                    &&& old(self).position() < final(self).position() <= old(self).slots().len()
                    &&& old(self).slots()[final(self).position() - 1] == Some(*v)
                    &&& forall|m: int|
                        old(self).position() <= m < final(self).position() - 1 ==> (#[trigger] old(
                            self,
                        ).slots()[m]) is None
                },
                None => {
                    &&& final(self).position() == old(self).slots().len()
                    &&& forall|m: int|
                        old(self).position() <= m < old(self).slots().len() ==> (#[trigger] old(
                            self,
                        ).slots()[m]) is None
                },
            },
    {
        loop
            invariant
                self.inv(),
                self.items == old(self).items,
                old(self).remaining() == self.remaining(),
                old(self).position() <= self.position(),
                forall|m: int| old(self).position() <= m < self.position() ==> (#[trigger] old(self).slots()[m]) is None,
            decreases self.items@.len() - self.idx,
        {
            if self.idx >= self.items.len() {
                proof {
                    assert(self.items@.subrange(self.idx as int, self.items@.len() as int)
                        =~= Seq::<Option<T>>::empty());
                }
                return None;
            } else {
                let cur = self.idx;
                self.idx = self.idx + 1;
                proof {
                    let s = self.items@.subrange(cur as int, self.items@.len() as int);
                    assert(s.drop_first() =~= self.items@.subrange(
                        self.idx as int,
                        self.items@.len() as int,
                    ));
                    assert(s[0] == self.items@[cur as int]);
                }
                match &self.items[cur] {
                    Some(item) => return Some(item),
                    None => {},
                }
            }
        }
    }
}

/// A pushed item can be read back at the index `push` returned, that slot
/// was empty (or new) before, and no other slot changes.
pub proof fn law_push_then_get<T>(pre: FreeList<T>, post: FreeList<T>, item: T, idx: usize)
    requires
        pre.wf(),
        push_post(pre, post, item, idx),
    ensures
        idx < post@.len(),
        post@[idx as int] == Some(item),
        idx < pre@.len() ==> pre@[idx as int] is None,
        forall|k: int| 0 <= k < pre@.len() && k != idx ==> post@[k] == pre@[k],
{
    if pre.free_stack().len() > 0 {
        assert(is_empty_slot(pre@, pre.free_stack()[pre.free_stack().len() - 1] as int));
    }
}

/// After `free`, the slot reads as empty and every other slot is unchanged.
pub proof fn law_free_then_get<T>(pre: FreeList<T>, post: FreeList<T>, idx: usize, freed: bool)
    requires
        idx < pre@.len(),
        free_post(pre, post, idx, freed),
    ensures
        post@.len() == pre@.len(),
        post@[idx as int] is None,
        forall|k: int| 0 <= k < pre@.len() && k != idx ==> post@[k] == pre@[k],
{
}

/// Freeing the same slot twice: the second call finds it empty.
pub proof fn law_double_free<T>(
    pre: FreeList<T>,
    mid: FreeList<T>,
    post: FreeList<T>,
    idx: usize,
    first: bool,
    second: bool,
)
    requires
        idx < pre@.len(),
        free_post(pre, mid, idx, first),
        free_post(mid, post, idx, second),
    ensures
        !second,
        post@ == mid@,
        post.free_stack() == mid.free_stack(),
{
}

/// A push right after freeing an occupied slot hands that slot back.
pub proof fn law_free_then_push_reuses<T>(
    pre: FreeList<T>,
    mid: FreeList<T>,
    post: FreeList<T>,
    idx: usize,
    item: T,
    got: usize,
)
    requires
        idx < pre@.len(),
        pre@[idx as int] is Some,
        free_post(pre, mid, idx, true),
        push_post(mid, post, item, got),
    ensures
        got == idx,
        post@ == pre@.update(idx as int, Some(item)),
        post.free_stack() == pre.free_stack(),
{
    assert(mid.free_stack().len() > 0);
    assert(post@ =~= pre@.update(idx as int, Some(item)));
    assert(post.free_stack() =~= pre.free_stack());
}

/// A push adds one occupied item.
pub proof fn law_push_grows_len<T>(pre: FreeList<T>, post: FreeList<T>, item: T, idx: usize)
    requires
        pre.wf(),
        post.wf(),
        push_post(pre, post, item, idx),
    ensures
        occupied(post@).len() == occupied(pre@).len() + 1,
{
    if pre.free_stack().len() > 0 {
        assert(is_empty_slot(pre@, pre.free_stack()[pre.free_stack().len() - 1] as int));
    }
    pre.lemma_free_stack_counts_empty_slots();
    post.lemma_free_stack_counts_empty_slots();
}

/// A free that empties a slot removes one occupied item; one that finds the
/// slot empty changes nothing.
pub proof fn law_free_shrinks_len<T>(pre: FreeList<T>, post: FreeList<T>, idx: usize, freed: bool)
    requires
        pre.wf(),
        post.wf(),
        idx < pre@.len(),
        free_post(pre, post, idx, freed),
    ensures
        occupied(post@).len() == occupied(pre@).len() - (if freed { 1int } else { 0int }),
{
    pre.lemma_free_stack_counts_empty_slots();
    post.lemma_free_stack_counts_empty_slots();
}

/// One step in the history of a free list: a push that stored an item at
/// an index, or a free of an index that did or did not find an item.
pub enum ListStep<T> {
    Pushed(T, usize),
    Freed(usize, bool),
}

/// What `push` or `free` does, for one step.
pub open spec fn step_post<T>(pre: FreeList<T>, post: FreeList<T>, step: ListStep<T>) -> bool {
    match step {
        ListStep::Pushed(item, idx) => push_post(pre, post, item, idx),
        ListStep::Freed(idx, freed) => idx < pre@.len() && free_post(pre, post, idx, freed),
    }
}

/// The indices a history freed and no later push took back, oldest first.
pub open spec fn unreused_frees<T>(steps: Seq<ListStep<T>>) -> Seq<usize>
    decreases steps.len(),
{
    if steps.len() == 0 {
        Seq::empty()
    } else {
        let prev = unreused_frees(steps.drop_last());
        match steps.last() {
            ListStep::Pushed(_, _) => if prev.len() > 0 {
                prev.drop_last()
            } else {
                prev
            },
            ListStep::Freed(idx, freed) => if freed {
                prev.push(idx)
            } else {
                prev
            },
        }
    }
}

/// Over any history starting from an empty free stack, the free stack is
/// the freed indices that no push took back, in the order freed; so every
/// push reuses the most recently freed of them, and grows the list only
/// when there is none.
pub proof fn law_free_stack_history<T>(states: Seq<FreeList<T>>, steps: Seq<ListStep<T>>)
    requires
        states.len() == steps.len() + 1,
        states[0].free_stack() == Seq::<usize>::empty(),
        forall|k: int| 0 <= k < steps.len() ==> step_post(states[k], #[trigger] states[k + 1], steps[k]),
    ensures
        states.last().free_stack() == unreused_frees(steps),
        forall|k: int|
            0 <= k < steps.len() ==> (#[trigger] steps[k] matches ListStep::Pushed(_, idx) ==> idx == if unreused_frees(
                steps.take(k),
            ).len() > 0 {
                unreused_frees(steps.take(k)).last() as int
            } else {
                states[k]@.len() as int
            }),
    decreases steps.len(),
{
    if steps.len() == 0 {
    } else {
        let n = steps.len() - 1;
        let st = states.drop_last();
        let sp = steps.drop_last();
        assert forall|k: int| 0 <= k < sp.len() implies step_post(st[k], #[trigger] st[k + 1], sp[k]) by {
            assert(step_post(states[k], states[k + 1], steps[k]));
        }
        law_free_stack_history(st, sp);
        assert(steps.take(n) =~= sp);
        assert(step_post(states[n], states[n + 1], steps[n]));
        assert forall|k: int|
            0 <= k < steps.len() implies (#[trigger] steps[k] matches ListStep::Pushed(_, idx) ==> idx == if unreused_frees(
                steps.take(k),
            ).len() > 0 {
                unreused_frees(steps.take(k)).last() as int
            } else {
                states[k]@.len() as int
            }) by {
            if k < n {
                assert(steps.take(k) =~= sp.take(k));
                assert(sp[k] == steps[k]);
                assert(st[k] == states[k]);
            }
        }
    }
}

/// The `k`-th call of `next` in a run gave `outs[k]`, taking it off the
/// items still to come.
pub open spec fn yields_at<'a, T>(its: Seq<FreeListItems<'a, T>>, outs: Seq<T>, k: int) -> bool {
    its[k].remaining() == seq![outs[k]] + its[k + 1].remaining()
}

/// Calling `next` until it gives `None` yields exactly the occupied items,
/// each once, in slot order, as many as `len` counts.
pub proof fn law_iteration_run<'a, T>(l: FreeList<T>, its: Seq<FreeListItems<'a, T>>, outs: Seq<T>)
    requires
        l.wf(),
        its.len() == outs.len() + 1,
        its[0].remaining() == occupied(l@),
        forall|k: int| 0 <= k < outs.len() ==> #[trigger] yields_at(its, outs, k),
        its.last().remaining() == Seq::<T>::empty(),
    ensures
        outs == occupied(l@),
        outs.len() == l@.len() - l.free_stack().len(),
{
    assert forall|k: int| 0 <= k <= outs.len() implies #[trigger] its[k].remaining() == outs.skip(k) by {
        lemma_iteration_suffix(its, outs, k);
    }
    assert(outs.skip(0) =~= outs);
    l.lemma_free_stack_counts_empty_slots();
}

proof fn lemma_iteration_suffix<'a, T>(its: Seq<FreeListItems<'a, T>>, outs: Seq<T>, k: int)
    requires
        its.len() == outs.len() + 1,
        forall|j: int| 0 <= j < outs.len() ==> #[trigger] yields_at(its, outs, j),
        its.last().remaining() == Seq::<T>::empty(),
        0 <= k <= outs.len(),
    ensures
        its[k].remaining() == outs.skip(k),
    decreases outs.len() - k,
{
    if k == outs.len() {
        assert(outs.skip(k) =~= Seq::<T>::empty());
    } else {
        lemma_iteration_suffix(its, outs, k + 1);
        assert(yields_at(its, outs, k));
        assert(seq![outs[k]] + outs.skip(k + 1) =~= outs.skip(k));
    }
}

} // verus!
