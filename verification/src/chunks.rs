//! Lists cut in pieces.
use vstd::prelude::*;

verus! {

/// A sequence cut in pieces of `size`, the last one possibly shorter.
pub open spec fn chunks<T>(items: Seq<T>, size: nat) -> Seq<Seq<T>>
    decreases items.len(),
{
    if items.len() == 0 || size == 0 {
        Seq::empty()
    } else if items.len() <= size {
        seq![items]
    } else {
        seq![items.take(size as int)] + chunks(items.skip(size as int), size)
    }
}

/// The contents of a list of lists.
pub open spec fn lists_view<T>(lists: Seq<Vec<T>>) -> Seq<Seq<T>> {
    Seq::new(lists.len(), |i: int| lists[i]@)
}

/// Cuts a list in pieces of `size`.
pub fn split_chunks<T>(items: Vec<T>, size: usize) -> (r: Vec<Vec<T>>)
    requires
        size > 0,
    ensures
        lists_view(r@) == chunks(items@, size as nat),
{
    let ghost whole = chunks(items@, size as nat);
    let mut rest: Vec<T> = items;
    let mut out: Vec<Vec<T>> = Vec::new();
    assert(lists_view(out@) =~= Seq::empty());
    while rest.len() > size
        invariant
            size > 0,
            lists_view(out@) + chunks(rest@, size as nat) == whole,
        decreases rest@.len(),
    {
        let ghost before = rest@;
        let ghost done = out@;
        let tail = rest.split_off(size);
        proof {
            assert(rest@ =~= before.take(size as int));
            assert(tail@ =~= before.skip(size as int));
        }
        out.push(rest);
        assert(lists_view(out@) =~= lists_view(done).push(before.take(size as int)));
        rest = tail;
        assert(lists_view(out@) + chunks(rest@, size as nat) =~= lists_view(done) + chunks(
            before,
            size as nat,
        ));
    }
    let ghost done = out@;
    if rest.len() > 0 {
        let ghost last = rest@;
        out.push(rest);
        assert(lists_view(out@) =~= lists_view(done).push(last));
        assert(lists_view(out@) =~= whole);
    } else {
        assert(lists_view(out@) =~= whole);
    }
    out
}

/// The pieces put together are the whole, none is empty or longer than `size`, and all but
/// the last are of that length.
pub proof fn law_chunks<T>(items: Seq<T>, size: nat)
    requires
        size > 0,
    ensures
        chunks(items, size).flatten() == items,
        forall|i: int|
            0 <= i < chunks(items, size).len() ==> 0 < (#[trigger] chunks(items, size)[i]).len()
                <= size,
        forall|i: int|
            0 <= i < chunks(items, size).len() - 1 ==> (#[trigger] chunks(items, size)[i]).len()
                == size,
    decreases items.len(),
{
    let all = chunks(items, size);
    if items.len() == 0 {
        assert(all.flatten() =~= items);
    } else if items.len() <= size {
        assert(all =~= seq![items]);
        assert(all.drop_first() =~= Seq::empty());
        assert(all.flatten() =~= items) by {
            assert(all.flatten() == all.first() + all.drop_first().flatten());
            assert(all.drop_first().flatten() =~= Seq::empty());
        }
    } else {
        let first = items.take(size as int);
        let tail = chunks(items.skip(size as int), size);
        law_chunks(items.skip(size as int), size);
        assert(all.drop_first() =~= tail);
        assert(all.first() == first);
        assert(all.flatten() == first + tail.flatten());
        assert(first + items.skip(size as int) =~= items);
        assert forall|i: int| 0 <= i < all.len() implies 0 < (#[trigger] all[i]).len() <= size
            && (i < all.len() - 1 ==> all[i].len() == size) by {
            if i > 0 {
                assert(all[i] == tail[i - 1]);
            }
        }
    }
}

/// The contents of a list of lists are those of each, in order.
pub proof fn law_list_contents<T>(lists: Seq<Vec<T>>)
    ensures
        lists_view(lists).len() == lists.len(),
        forall|i: int| 0 <= i < lists.len() ==> #[trigger] lists_view(lists)[i] == lists[i]@,
{
}

} // verus!
