//! The abstract queue that every buffer of this crate implements.
//!
//! A buffer is seen as the sequence of its items, oldest first, together with
//! the number of items it can hold. The functions here say what each operation
//! does to that sequence; the buffers' contracts are written with them.
use vstd::prelude::*;

verus! {

/// Physical slot of the `k`-th item of a ring whose oldest item sits in slot
/// `head`, for `0 <= head < cap` and `0 <= k <= cap`: `(head + k) % cap`,
/// written without the modulo.
pub open spec fn ring_index(head: int, k: int, cap: int) -> int {
    if head + k < cap {
        head + k
    } else {
        head + k - cap
    }
}

/// The queue after a push that is refused when the queue holds `cap` items.
pub open spec fn after_push<T>(q: Seq<T>, cap: nat, x: T) -> Seq<T> {
    if q.len() < cap {
        q.push(x)
    } else {
        q
    }
}

/// The queue after a push that, on a full queue, evicts the oldest item. A
/// queue of capacity 0 holds nothing: the item is evicted at once.
pub open spec fn after_overwrite<T>(q: Seq<T>, cap: nat, x: T) -> Seq<T> {
    if q.len() < cap {
        q.push(x)
    } else if cap == 0 {
        q
    } else {
        q.drop_first().push(x)
    }
}

/// What a push that evicts on a full queue hands back: the evicted item,
/// which is the pushed item itself when the capacity is 0.
pub open spec fn evicted<T>(q: Seq<T>, cap: nat, x: T) -> Option<T> {
    if q.len() < cap {
        None
    } else if cap == 0 {
        Some(x)
    } else {
        Some(q[0])
    }
}

/// The queue after a pop.
pub open spec fn after_pop<T>(q: Seq<T>) -> Seq<T> {
    if q.len() == 0 {
        q
    } else {
        q.drop_first()
    }
}

/// What a pop hands back: the oldest item, if any.
pub open spec fn popped<T>(q: Seq<T>) -> Option<T> {
    if q.len() == 0 {
        None
    } else {
        Some(q[0])
    }
}

/// The queue after pushing each item of `xs` in turn, refusing those that
/// find it full.
pub open spec fn push_all<T>(q: Seq<T>, cap: nat, xs: Seq<T>) -> Seq<T>
    decreases xs.len(),
{
    if xs.len() == 0 {
        q
    } else {
        push_all(after_push(q, cap, xs[0]), cap, xs.drop_first())
    }
}

/// The queue after pushing each item of `xs` in turn, evicting the oldest
/// item whenever it is full.
pub open spec fn overwrite_all<T>(q: Seq<T>, cap: nat, xs: Seq<T>) -> Seq<T>
    decreases xs.len(),
{
    if xs.len() == 0 {
        q
    } else {
        overwrite_all(after_overwrite(q, cap, xs[0]), cap, xs.drop_first())
    }
}

/// The items that `n` pops in a row hand back, in the order they come.
pub open spec fn pops<T>(q: Seq<T>, n: nat) -> Seq<T>
    decreases n,
{
    if n == 0 {
        Seq::empty()
    } else {
        match popped(q) {
            Some(x) => seq![x] + pops(after_pop(q), (n - 1) as nat),
            None => Seq::empty(),
        }
    }
}

/// The queue after `n` pops in a row.
pub open spec fn pop_n<T>(q: Seq<T>, n: nat) -> Seq<T>
    decreases n,
{
    if n == 0 {
        q
    } else {
        pop_n(after_pop(q), (n - 1) as nat)
    }
}

/// What a pop hands back, as a sequence of zero or one item.
pub open spec fn popped_seq<T>(q: Seq<T>) -> Seq<T> {
    match popped(q) {
        Some(x) => seq![x],
        None => Seq::empty(),
    }
}

/// One more push, one more step: the queue after pushing `xs` and then `x`
/// is the queue after pushing `xs`, pushed `x`. So a run of push calls, each
/// leaving `after_push` of what it found, leaves `push_all` of what it pushed.
pub proof fn law_push_all_step<T>(q: Seq<T>, cap: nat, xs: Seq<T>, x: T)
    ensures
        push_all(q, cap, xs.push(x)) == after_push(push_all(q, cap, xs), cap, x),
    decreases xs.len(),
{
    let ys = xs.push(x);
    assert(ys.len() > 0 && ys[0] == (if xs.len() == 0 { x } else { xs[0] }));
    assert(push_all(q, cap, ys) == push_all(after_push(q, cap, ys[0]), cap, ys.drop_first()));
    if xs.len() == 0 {
        assert(ys.drop_first() =~= Seq::<T>::empty());
        assert(push_all(after_push(q, cap, x), cap, Seq::<T>::empty()) == after_push(q, cap, x));
    } else {
        law_push_all_step(after_push(q, cap, xs[0]), cap, xs.drop_first(), x);
        assert(ys.drop_first() =~= xs.drop_first().push(x));
    }
}

/// One more evicting push, one more step: a run of `push_overwrite` calls
/// leaves `overwrite_all` of what it pushed.
pub proof fn law_overwrite_all_step<T>(q: Seq<T>, cap: nat, xs: Seq<T>, x: T)
    ensures
        overwrite_all(q, cap, xs.push(x)) == after_overwrite(overwrite_all(q, cap, xs), cap, x),
    decreases xs.len(),
{
    let ys = xs.push(x);
    assert(ys.len() > 0 && ys[0] == (if xs.len() == 0 { x } else { xs[0] }));
    assert(overwrite_all(q, cap, ys) == overwrite_all(after_overwrite(q, cap, ys[0]), cap, ys.drop_first()));
    if xs.len() == 0 {
        assert(ys.drop_first() =~= Seq::<T>::empty());
        assert(overwrite_all(after_overwrite(q, cap, x), cap, Seq::<T>::empty()) == after_overwrite(q, cap, x));
    } else {
        law_overwrite_all_step(after_overwrite(q, cap, xs[0]), cap, xs.drop_first(), x);
        assert(ys.drop_first() =~= xs.drop_first().push(x));
    }
}

/// One more pop, one more step: after `n` pops the queue is `pop_n(q, n)`
/// and the items handed back so far are `pops(q, n)`; the next pop leaves
/// `after_pop` of that queue and adds what it hands back to those items. So
/// a run of pop calls hands back `pops` of the queue it started from.
pub proof fn law_pops_step<T>(q: Seq<T>, n: nat)
    ensures
        pop_n(q, n + 1) == after_pop(pop_n(q, n)),
        pops(q, n + 1) == pops(q, n) + popped_seq(pop_n(q, n)),
    decreases n,
{
    if n == 0 {
        assert(pop_n(after_pop(q), 0) == after_pop(q));
        assert(pops(after_pop(q), 0) =~= Seq::<T>::empty());
        if q.len() > 0 {
            assert(seq![q[0]] + Seq::<T>::empty() =~= Seq::<T>::empty() + seq![q[0]]);
        } else {
            assert(Seq::<T>::empty() =~= Seq::<T>::empty() + Seq::<T>::empty());
        }
    } else {
        law_pops_step(after_pop(q), (n - 1) as nat);
        assert((n + 1 - 1) as nat == n);
        if q.len() > 0 {
            let x = q[0];
            let rest = pops(after_pop(q), (n - 1) as nat);
            let last = popped_seq(pop_n(after_pop(q), (n - 1) as nat));
            assert(seq![x] + (rest + last) =~= (seq![x] + rest) + last);
        } else {
            assert(after_pop(q) == q);
            assert(pop_n(q, n) == pop_n(q, (n - 1) as nat)) by {
                lemma_pop_n_empty(q, n);
                lemma_pop_n_empty(q, (n - 1) as nat);
            }
            lemma_pop_n_empty(q, (n + 1) as nat);
            lemma_pop_n_empty(q, n);
            assert(popped_seq(pop_n(q, n)) =~= Seq::<T>::empty());
            assert(pops(q, n) + Seq::<T>::empty() =~= pops(q, n));
        }
    }
}

/// Popping an empty queue leaves it empty.
proof fn lemma_pop_n_empty<T>(q: Seq<T>, n: nat)
    requires
        q.len() == 0,
    ensures
        pop_n(q, n) == q,
    decreases n,
{
    if n > 0 {
        lemma_pop_n_empty(q, (n - 1) as nat);
    }
}

/// After as many pops as a queue has items, it is empty.
pub proof fn law_pop_n_drains<T>(q: Seq<T>, n: nat)
    requires
        n <= q.len(),
    ensures
        pop_n(q, n) == q.subrange(n as int, q.len() as int),
    decreases n,
{
    if n == 0 {
        assert(q.subrange(0, q.len() as int) =~= q);
    } else {
        law_pop_n_drains(q.drop_first(), (n - 1) as nat);
        assert(q.drop_first().subrange((n - 1) as int, q.len() - 1) =~= q.subrange(n as int, q.len() as int));
    }
}

/// Into a queue that holds nothing, `k` pushes with `k` at most its capacity
/// are all accepted (push `i` finds `i` items, fewer than the capacity), and
/// the queue then holds just those items, in order.
pub proof fn law_fill_from_empty<T>(q: Seq<T>, cap: nat, xs: Seq<T>)
    requires
        q.len() == 0,
        xs.len() <= cap,
    ensures
        forall|i: int| 0 <= i < xs.len() ==> #[trigger] push_all(q, cap, xs.take(i)).len() == i && i < cap,
        push_all(q, cap, xs) == xs,
{
    assert forall|i: int| 0 <= i < xs.len() implies #[trigger] push_all(q, cap, xs.take(i)).len() == i && i < cap by {
        law_push_all_appends(q, cap, xs.take(i));
    }
    law_push_all_appends(q, cap, xs);
    assert(q + xs =~= xs);
}

/// The items a run of evicting pushes hands back, in the order they come.
pub open spec fn evicted_all<T>(q: Seq<T>, cap: nat, xs: Seq<T>) -> Seq<T>
    decreases xs.len(),
{
    if xs.len() == 0 {
        Seq::empty()
    } else {
        option_seq(evicted(q, cap, xs[0])) + evicted_all(
            after_overwrite(q, cap, xs[0]),
            cap,
            xs.drop_first(),
        )
    }
}

/// An optional item as a sequence of zero or one item.
pub open spec fn option_seq<T>(o: Option<T>) -> Seq<T> {
    match o {
        Some(x) => seq![x],
        None => Seq::empty(),
    }
}

/// A push into a queue with room adds the item at the back; a push into a
/// full queue is refused and leaves it exactly as it was.
pub proof fn law_push<T>(q: Seq<T>, cap: nat, x: T)
    ensures
        q.len() < cap ==> after_push(q, cap, x) == q.push(x),
        q.len() < cap ==> after_push(q, cap, x).len() == q.len() + 1
            && after_push(q, cap, x).last() == x,
        q.len() >= cap ==> after_push(q, cap, x) == q,
{
}

/// A pop hands back the oldest item and removes just that one; on an empty
/// queue it hands back nothing and changes nothing.
pub proof fn law_pop<T>(q: Seq<T>)
    ensures
        q.len() == 0 ==> popped(q) is None && after_pop(q) == q,
        q.len() > 0 ==> popped(q) == Some(q[0]) && after_pop(q) == q.subrange(1, q.len() as int),
        popped_seq(q) + after_pop(q) == q,
{
    if q.len() == 0 {
        assert(Seq::<T>::empty() + q =~= q);
    } else {
        assert(seq![q[0]] + q.drop_first() =~= q);
    }
}

/// An evicting push into a queue with room adds the item and evicts
/// nothing; into a full queue it evicts the oldest item, the one a pop
/// would hand back, hands it back, and adds the new item at the back; a
/// queue of capacity 0 hands the new item straight back.
pub proof fn law_overwrite<T>(q: Seq<T>, cap: nat, x: T)
    ensures
        q.len() < cap ==> evicted(q, cap, x) is None && after_overwrite(q, cap, x) == q.push(x),
        q.len() == cap && cap > 0 ==> evicted(q, cap, x) == Some(q[0])
            && evicted(q, cap, x) == popped(q)
            && after_overwrite(q, cap, x) == q.subrange(1, q.len() as int).push(x),
        cap == 0 ==> evicted(q, cap, x) == Some(x) && after_overwrite(q, cap, x) == q,
{
}

/// Nothing is lost to eviction: the items a run of evicting pushes hands
/// back, followed by what the queue then holds, are exactly the items it
/// held followed by those pushed, in order.
pub proof fn law_overwrite_loses_nothing<T>(q: Seq<T>, cap: nat, xs: Seq<T>)
    requires
        q.len() <= cap,
    ensures
        evicted_all(q, cap, xs) + overwrite_all(q, cap, xs) == q + xs,
    decreases xs.len(),
{
    if xs.len() == 0 {
        assert(Seq::<T>::empty() + q =~= q + xs);
    } else {
        let x = xs[0];
        let q1 = after_overwrite(q, cap, x);
        let xs1 = xs.drop_first();
        law_overwrite_loses_nothing(q1, cap, xs1);
        let e1 = evicted_all(q1, cap, xs1);
        let r1 = overwrite_all(q1, cap, xs1);
        let e = option_seq(evicted(q, cap, x));
        assert(e + e1 + r1 =~= e + (e1 + r1));
        if q.len() < cap {
            assert(e =~= Seq::<T>::empty());
            assert(q1 + xs1 =~= q + xs);
        } else if cap == 0 {
            assert(q.len() == 0);
            assert(seq![x] + (q + xs1) =~= q + xs);
        } else {
            assert(seq![q[0]] + (q1 + xs1) =~= q + xs);
        }
    }
}

/// However many pushes are refused, a queue keeps its first items in
/// order: after a run of pushes it holds the first `cap` of all the items it
/// held and those pushed, or all of them if fewer.
pub proof fn law_push_all_keeps_first<T>(q: Seq<T>, cap: nat, xs: Seq<T>)
    requires
        q.len() <= cap,
    ensures
        push_all(q, cap, xs) == (q + xs).take(min_nat(q.len() + xs.len(), cap) as int),
    decreases xs.len(),
{
    let n = q.len() + xs.len();
    if xs.len() == 0 {
        assert((q + xs).take(q.len() as int) =~= q);
    } else {
        let x = xs[0];
        let xs1 = xs.drop_first();
        let q1 = after_push(q, cap, x);
        law_push_all_keeps_first(q1, cap, xs1);
        if q.len() < cap {
            assert(q1 + xs1 =~= q + xs);
        } else {
            assert(q.len() == cap);
            assert((q + xs1).take(cap as int) =~= q);
            assert((q + xs).take(cap as int) =~= q);
        }
    }
}

/// Items pushed while there is room all go in, in order, behind those
/// already queued; a refused push changes nothing.
pub proof fn law_push_all_appends<T>(q: Seq<T>, cap: nat, xs: Seq<T>)
    requires
        q.len() + xs.len() <= cap,
    ensures
        push_all(q, cap, xs) == q + xs,
    decreases xs.len(),
{
    if xs.len() > 0 {
        law_push_all_appends(q.push(xs[0]), cap, xs.drop_first());
        assert(q.push(xs[0]) + xs.drop_first() =~= q + xs);
    }
}

/// A queue never holds more than its capacity, however many pushes it takes.
pub proof fn law_push_all_bounded<T>(q: Seq<T>, cap: nat, xs: Seq<T>)
    requires
        q.len() <= cap,
    ensures
        push_all(q, cap, xs).len() <= cap,
        push_all(q, cap, xs).len() == min_nat(q.len() + xs.len(), cap),
    decreases xs.len(),
{
    if xs.len() > 0 {
        law_push_all_bounded(after_push(q, cap, xs[0]), cap, xs.drop_first());
    }
}

/// The smaller of two numbers.
pub open spec fn min_nat(a: nat, b: nat) -> nat {
    if a <= b {
        a
    } else {
        b
    }
}

/// Popping hands the items back oldest first: `n` pops return the first
/// `n` items of the queue.
pub proof fn law_pops_in_order<T>(q: Seq<T>, n: nat)
    requires
        n <= q.len(),
    ensures
        pops(q, n) == q.take(n as int),
    decreases n,
{
    if n > 0 {
        law_pops_in_order(q.drop_first(), (n - 1) as nat);
        assert(seq![q[0]] + q.drop_first().take(n - 1) =~= q.take(n as int));
    }
}

/// First in, first out: into an empty queue with room for them, the items
/// pushed come back out of as many pops in the order they went in.
pub proof fn law_fifo<T>(cap: nat, xs: Seq<T>)
    requires
        xs.len() <= cap,
    ensures
        pops(push_all(Seq::empty(), cap, xs), xs.len()) == xs,
{
    law_push_all_appends(Seq::<T>::empty(), cap, xs);
    assert(Seq::<T>::empty() + xs =~= xs);
    law_pops_in_order(xs, xs.len());
    assert(xs.take(xs.len() as int) =~= xs);
}

/// Pushing with eviction keeps exactly the most recent items: the last
/// `cap` of all that were queued and pushed, or all of them if fewer.
pub proof fn law_overwrite_keeps_latest<T>(q: Seq<T>, cap: nat, xs: Seq<T>)
    requires
        q.len() <= cap,
    ensures
        overwrite_all(q, cap, xs) == (q + xs).subrange(
            (q.len() + xs.len()) - min_nat(q.len() + xs.len(), cap),
            (q.len() + xs.len()) as int,
        ),
    decreases xs.len(),
{
    let all = q + xs;
    let n = all.len();
    if xs.len() == 0 {
        assert(all =~= q);
        assert(all.subrange(0, n as int) =~= all);
    } else {
        let q1 = after_overwrite(q, cap, xs[0]);
        let xs1 = xs.drop_first();
        law_overwrite_keeps_latest(q1, cap, xs1);
        let all1 = q1 + xs1;
        if q.len() < cap {
            assert(all1 =~= all);
        } else {
            assert(all1 =~= all.subrange(1, n as int));
            assert(all1.subrange(all1.len() - min_nat(all1.len(), cap), all1.len() as int)
                =~= all.subrange(n - min_nat(n, cap), n as int));
        }
    }
}

} // verus!
