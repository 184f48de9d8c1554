use vstd::prelude::*;

verus! {

/// The items in the order of a stack: what comes first lies on top.
pub open spec fn unstacked<T>(stack: Seq<T>) -> Seq<T> {
    Seq::new(stack.len(), |i: int| stack[stack.len() - 1 - i])
}

/// Turns the order of items round.
pub fn turned<T>(items: Vec<T>) -> (r: Vec<T>)
    ensures
        r@ == unstacked(items@),
        r@.len() == items@.len(),
        forall|i: int| 0 <= i < r@.len() ==> #[trigger] r@[i] == items@[items@.len() - 1 - i],
{
    let mut items = items;
    let ghost all = items@;
    let mut r: Vec<T> = Vec::with_capacity(items.len());
    while items.len() > 0
        invariant
            items@.len() + r@.len() == all.len(),
            items@ == all.subrange(0, items@.len() as int),
            forall|i: int| 0 <= i < r@.len() ==> #[trigger] r@[i] == all[all.len() - 1 - i],
        decreases items@.len(),
    {
        match items.pop() {
            Some(v) => {
                assert(items@ =~= all.subrange(0, items@.len() as int));
                r.push(v);
            },
            None => {},
        }
    }
    assert(r@ =~= unstacked(all));
    r
}

/// Takes all items out of `buf` and stacks them, the first on top.
pub fn stacked<T>(buf: &mut Vec<T>) -> (r: Vec<T>)
    ensures
        final(buf)@.len() == 0,
        unstacked(r@) == old(buf)@,
        r@.len() == old(buf)@.len(),
        forall|i: int| 0 <= i < r@.len() ==> #[trigger] r@[i] == old(buf)@[r@.len() - 1 - i],
{
    let mut items: Vec<T> = Vec::new();
    items.append(buf);
    assert(items@ =~= old(buf)@);
    let r = turned(items);
    assert(unstacked(r@) =~= old(buf)@);
    r
}

} // verus!
