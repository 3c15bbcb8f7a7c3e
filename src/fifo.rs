//! The first-in first-out law, stated over the queues' views.
//!
//! Every queue in this crate describes a push as appending to its view (or
//! changing nothing, handing the value back) and a pop as taking the view's
//! first value (or changing nothing, when it is empty). Over any run of such
//! steps from an empty queue, the values popped are the values accepted, in
//! the order they were accepted.
use vstd::prelude::*;

verus! {

/// One call on a queue, with what it returned.
pub enum Step<T> {
    Push(T, Result<(), T>),
    Pop(Option<T>),
}

/// Whether `step` takes a queue whose view is `pre` to one whose view is
/// `post`, as the queues' push and pop contracts describe it.
pub open spec fn step_ok<T>(pre: Seq<T>, step: Step<T>, post: Seq<T>) -> bool {
    match step {
        Step::Push(v, r) => match r {
            Ok(_) => post == pre.push(v),
            Err(w) => w == v && post == pre,
        },
        Step::Pop(r) => match r {
            Some(v) => pre.len() > 0 && v == pre[0] && post == pre.drop_first(),
            None => pre.len() == 0 && post == pre,
        },
    }
}

/// Whether `views` are the successive views of a queue under `steps`.
pub open spec fn is_run<T>(views: Seq<Seq<T>>, steps: Seq<Step<T>>) -> bool {
    &&& views.len() == steps.len() + 1
    &&& forall|i: int| 0 <= i < steps.len() ==> step_ok(views[i], steps[i], #[trigger] views[i + 1])
}

/// The values of the pushes that succeeded, in order.
pub open spec fn accepted<T>(steps: Seq<Step<T>>) -> Seq<T>
    decreases steps.len(),
{
    if steps.len() == 0 {
        Seq::empty()
    } else {
        let before = accepted(steps.drop_last());
        match steps.last() {
            Step::Push(v, Ok(_)) => before.push(v),
            _ => before,
        }
    }
}

/// The values the pops returned, in order.
pub open spec fn delivered<T>(steps: Seq<Step<T>>) -> Seq<T>
    decreases steps.len(),
{
    if steps.len() == 0 {
        Seq::empty()
    } else {
        let before = delivered(steps.drop_last());
        match steps.last() {
            Step::Pop(Some(v)) => before.push(v),
            _ => before,
        }
    }
}

/// First in, first out: over any run from an empty queue, the accepted
/// values are the delivered values followed by those still queued. Nothing
/// is lost, duplicated or reordered, and a refused push leaves no trace.
pub proof fn lemma_fifo<T>(views: Seq<Seq<T>>, steps: Seq<Step<T>>)
    requires
        is_run(views, steps),
        views[0].len() == 0,
    ensures
        accepted(steps) == delivered(steps) + views.last(),
    decreases steps.len(),
{
    let n = steps.len() as int;
    if n == 0 {
        assert(delivered(steps) + views.last() =~= Seq::<T>::empty());
    } else {
        let vs = views.drop_last();
        let ss = steps.drop_last();
        assert forall|i: int| 0 <= i < ss.len() implies step_ok(vs[i], ss[i], #[trigger] vs[i + 1]) by {
            assert(step_ok(views[i], steps[i], views[i + 1]));
        }
        lemma_fifo(vs, ss);
        let pre = views[n - 1];
        let post = views[n];
        assert(step_ok(views[n - 1], steps[n - 1], views[(n - 1) + 1]));
        assert(vs.last() == pre);
        match steps.last() {
            Step::Push(v, r) => {
                assert(accepted(steps) =~= delivered(steps) + post);
            },
            Step::Pop(r) => {
                if r is Some {
                    assert(pre =~= seq![pre[0]] + post);
                }
                assert(accepted(steps) =~= delivered(steps) + post);
            },
        }
    }
}

/// A queue reached from an empty one is empty again exactly when every
/// accepted value has been delivered.
pub proof fn lemma_empty_iff_drained<T>(views: Seq<Seq<T>>, steps: Seq<Step<T>>)
    requires
        is_run(views, steps),
        views[0].len() == 0,
    ensures
        views.last().len() == 0 <==> accepted(steps).len() == delivered(steps).len(),
        views.last().len() == 0 ==> accepted(steps) == delivered(steps),
{
    lemma_fifo(views, steps);
    if views.last().len() == 0 {
        assert(delivered(steps) + views.last() =~= delivered(steps));
    }
}

} // verus!
