//! Facts about lists that the proofs share.

use vstd::prelude::*;

verus! {

/// What a filter lets through.
pub proof fn filtered<A>(list: Seq<A>, pred: spec_fn(A) -> bool)
    ensures
        forall|x: A| #[trigger] list.filter(pred).contains(x) ==> list.contains(x) && pred(x),
        forall|x: A| #[trigger] list.contains(x) && pred(x) ==> list.filter(pred).contains(x),
        list.filter(pred).len() <= list.len(),
    decreases list.len(),
{
    reveal(Seq::filter);
    if list.len() > 0 {
        let front = list.drop_last();
        let last = list.last();
        filtered(front, pred);
        let kept = front.filter(pred);
        assert forall|x: A| #[trigger] list.contains(x) == (front.contains(x) || x == last) by {
            if list.contains(x) && x != last {
                let i = choose|i: int| 0 <= i < list.len() && list[i] == x;
                assert(front[i] == x);
            }
            if front.contains(x) {
                let i = choose|i: int| 0 <= i < front.len() && front[i] == x;
                assert(list[i] == x);
            }
            assert(list[list.len() - 1] == last);
        }
        let all = list.filter(pred);
        assert(all =~= if pred(last) {
            kept.push(last)
        } else {
            kept
        });
        assert forall|x: A| #[trigger] all.contains(x) implies list.contains(x) && pred(x) by {
            let i = choose|i: int| 0 <= i < all.len() && all[i] == x;
            if i < kept.len() {
                assert(kept[i] == x);
                assert(kept.contains(x));
                assert(front.contains(x));
            }
            assert(list.contains(x));
        }
        assert forall|x: A| #[trigger] list.contains(x) && pred(x) implies all.contains(x) by {
            if front.contains(x) {
                assert(kept.contains(x));
                let i = choose|i: int| 0 <= i < kept.len() && kept[i] == x;
                assert(all[i] == x);
            } else {
                assert(all[kept.len() as int] == x);
            }
        }
    }
}

/// A filter keeps distinct things distinct.
pub proof fn filter_keeps_apart<A>(list: Seq<A>, pred: spec_fn(A) -> bool)
    requires
        list.no_duplicates(),
    ensures
        list.filter(pred).no_duplicates(),
    decreases list.len(),
{
    reveal(Seq::filter);
    if list.len() > 0 {
        let front = list.drop_last();
        filter_keeps_apart(front, pred);
        filtered(front, pred);
        let kept = front.filter(pred);
        if pred(list.last()) {
            assert(list.filter(pred) =~= kept.push(list.last()));
            assert(!kept.contains(list.last())) by {
                if kept.contains(list.last()) {
                    let i = choose|i: int| 0 <= i < front.len() && front[i] == list.last();
                    assert(list[i] == list[list.len() - 1]);
                }
            }
        }
    }
}

} // verus!
