//! Lists in a chunk: a count, then the items one after the other.

use vstd::prelude::*;

verus! {

/// The bytes of the items of a list, one after the other, where `each` gives
/// the bytes of one item.
pub open spec fn join<A>(items: Seq<A>, each: spec_fn(A) -> Seq<u8>) -> Seq<u8>
    decreases items.len(),
{
    if items.len() == 0 {
        Seq::empty()
    } else {
        join(items.drop_last(), each) + each(items.last())
    }
}

/// Two lists whose items have the same bytes, place by place, have the same bytes.
pub proof fn lemma_join_same<A, B>(
    xs: Seq<A>,
    fx: spec_fn(A) -> Seq<u8>,
    ys: Seq<B>,
    fy: spec_fn(B) -> Seq<u8>,
)
    requires
        xs.len() == ys.len(),
        forall|i: int| 0 <= i < xs.len() ==> fx(xs[i]) == fy(ys[i]),
    ensures
        join(xs, fx) == join(ys, fy),
    decreases xs.len(),
{
    if xs.len() > 0 {
        lemma_join_same(xs.drop_last(), fx, ys.drop_last(), fy);
    }
}

/// The bytes of a list with one more item at its end.
pub proof fn lemma_join_push<A>(items: Seq<A>, last: A, each: spec_fn(A) -> Seq<u8>)
    ensures
        join(items.push(last), each) == join(items, each) + each(last),
{
    assert(items.push(last).drop_last() =~= items);
}

/// What is left of `s` behind `count` items at its beginning, and the
/// items, where `one` reads one item; `None` where one of them cannot be read.
pub open spec fn many<A>(
    s: Seq<u8>,
    count: nat,
    one: spec_fn(Seq<u8>) -> Option<(Seq<u8>, A)>,
) -> Option<(Seq<u8>, Seq<A>)>
    decreases count,
{
    if count == 0 {
        Some((s, Seq::empty()))
    } else {
        match many(s, (count - 1) as nat, one) {
            Some((rest, items)) => match one(rest) {
                Some((rest, item)) => Some((rest, items.push(item))),
                None => None,
            },
            None => None,
        }
    }
}

/// As many items are read as were asked for.
pub proof fn lemma_many_len<A>(
    s: Seq<u8>,
    count: nat,
    one: spec_fn(Seq<u8>) -> Option<(Seq<u8>, A)>,
)
    ensures
        many(s, count, one) matches Some((_, items)) ==> items.len() == count,
    decreases count,
{
    if count > 0 {
        lemma_many_len(s, (count - 1) as nat, one);
    }
}

/// Once an item cannot be read, no greater count can be read either.
pub proof fn lemma_many_none<A>(
    s: Seq<u8>,
    count: nat,
    more: nat,
    one: spec_fn(Seq<u8>) -> Option<(Seq<u8>, A)>,
)
    requires
        count <= more,
        many(s, count, one) is None,
    ensures
        many(s, more, one) is None,
    decreases more,
{
    if more > count {
        lemma_many_none(s, count, (more - 1) as nat, one);
    }
}

/// Items that were written one after the other are read back: where `one`
/// reads back what `each` wrote, whatever stands behind it, `many` reads
/// back a list that `join` wrote.
pub proof fn lemma_many_join<A, B>(
    items: Seq<A>,
    each: spec_fn(A) -> Seq<u8>,
    one: spec_fn(Seq<u8>) -> Option<(Seq<u8>, B)>,
    back: spec_fn(A) -> B,
    rest: Seq<u8>,
)
    requires
        forall|i: int, tail: Seq<u8>|
            0 <= i < items.len() ==> #[trigger] one(each(items[i]) + tail) == Some(
                (tail, back(items[i])),
            ),
    ensures
        many(join(items, each) + rest, items.len(), one) == Some(
            (rest, Seq::new(items.len(), |i: int| back(items[i]))),
        ),
    decreases items.len(),
{
    let read = Seq::new(items.len(), |i: int| back(items[i]));
    if items.len() == 0 {
        assert(join(items, each) + rest =~= rest);
        assert(read =~= Seq::<B>::empty());
    } else {
        let front = items.drop_last();
        let last = items.last();
        lemma_many_join(front, each, one, back, each(last) + rest);
        assert(join(items, each) + rest =~= join(front, each) + (each(last) + rest));
        assert(one(each(items[items.len() - 1]) + rest) == Some((rest, back(last))));
        assert(read =~= Seq::new(front.len(), |i: int| back(front[i])).push(back(last)));
    }
}

/// The values of a list of items, where `view` gives the value of one.
pub open spec fn views<T, V>(items: Seq<T>, view: spec_fn(T) -> V) -> Seq<V> {
    Seq::new(items.len(), |i: int| view(items[i]))
}

} // verus!
