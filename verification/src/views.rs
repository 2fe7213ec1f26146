//! How the element-wise views of vectors and deques change when they change.

use vstd::prelude::*;
use std::collections::VecDeque;

verus! {

pub proof fn lemma_vec_push_deep<T: DeepView>(before: Vec<T>, after: Vec<T>, x: T)
    requires
        after@ == before@.push(x),
    ensures
        after.deep_view() == before.deep_view().push(x.deep_view()),
{
    assert forall|j: int| 0 <= j < after@.len() implies #[trigger] after.deep_view()[j]
        == before.deep_view().push(x.deep_view())[j] by {
        if j < before@.len() {
            assert(after@[j] == before@[j]);
        }
    }
    assert(after.deep_view() =~= before.deep_view().push(x.deep_view()));
}

pub proof fn lemma_deque_push_deep<T: DeepView>(before: VecDeque<T>, after: VecDeque<T>, x: T)
    requires
        after@ == before@.push(x),
    ensures
        after.deep_view() == before.deep_view().push(x.deep_view()),
{
    assert forall|j: int| 0 <= j < after@.len() implies #[trigger] after.deep_view()[j]
        == before.deep_view().push(x.deep_view())[j] by {
        if j < before@.len() {
            assert(after@[j] == before@[j]);
        }
    }
    assert(after.deep_view() =~= before.deep_view().push(x.deep_view()));
}

pub proof fn lemma_deque_drop_first_deep<T: DeepView>(before: VecDeque<T>, after: VecDeque<T>)
    requires
        before@.len() > 0,
        after@ == before@.subrange(1, before@.len() as int),
    ensures
        after.deep_view() == before.deep_view().drop_first(),
{
    assert forall|j: int| 0 <= j < after@.len() implies #[trigger] after.deep_view()[j]
        == before.deep_view().drop_first()[j] by {
        assert(after@[j] == before@[j + 1]);
    }
    assert(after.deep_view() =~= before.deep_view().drop_first());
}

} // verus!
