//! Batch sizes at hash-shuffle boundaries.

use crate::large_batch::{is_kind, lemma_trees, trees};
use crate::large_batch::{LargeBatchExec, Operator, OperatorKind, Plan, PlanTree};
use vstd::prelude::*;

verus! {

/// A hash repartitioning had another number of inputs than one.
#[derive(Debug, Clone, Copy, PartialEq, Eq, Structural)]
pub struct WrongChildCount {
    pub got: usize,
}

/// The input of a hash repartitioning: an aggregation is made to emit one big batch.
pub open spec fn shuffle_input(child: PlanTree) -> PlanTree {
    if is_kind(child, OperatorKind::Aggregate) {
        PlanTree::LargeBatch(Box::new(child), usize::MAX)
    } else {
        child
    }
}

/// What becomes of an operator, once its inputs are done. The error is the number of inputs.
pub open spec fn operator_sized(
    id: usize,
    kind: OperatorKind,
    children: Seq<PlanTree>,
    batch_size: usize,
) -> Result<PlanTree, nat> {
    if kind != OperatorKind::HashRepartition {
        Ok(PlanTree::Operator(id, kind, children))
    } else if children.len() != 1 {
        Err(children.len())
    } else {
        Ok(
            PlanTree::LargeBatch(
                Box::new(PlanTree::Operator(id, kind, seq![shuffle_input(children[0])])),
                batch_size,
            ),
        )
    }
}

/// What becomes of a plan, from its leaves up. Wrappers that it has are left as they are.
pub open spec fn plan_sized(t: PlanTree, batch_size: usize) -> Result<PlanTree, nat>
    decreases t,
{
    match t {
        PlanTree::Operator(id, kind, children) => match plans_sized(children, batch_size) {
            Ok(new_children) => operator_sized(id, kind, new_children, batch_size),
            Err(got) => Err(got),
        },
        PlanTree::LargeBatch(input, size) => match plan_sized(*input, batch_size) {
            Ok(new_input) => Ok(PlanTree::LargeBatch(Box::new(new_input), size)),
            Err(got) => Err(got),
        },
    }
}

/// What becomes of plans, one after the other.
pub open spec fn plans_sized(ts: Seq<PlanTree>, batch_size: usize) -> Result<Seq<PlanTree>, nat>
    decreases ts,
{
    if ts.len() == 0 {
        Ok(Seq::empty())
    } else {
        match plans_sized(ts.drop_last(), batch_size) {
            Ok(done) => match plan_sized(ts.last(), batch_size) {
                Ok(t) => Ok(done.push(t)),
                Err(got) => Err(got),
            },
            Err(got) => Err(got),
        }
    }
}

/// Sizes the batches at one operator, the inputs of which are done.
fn size_operator(operator: Operator, shuffle_batch_size: usize) -> (r: Result<
    Plan,
    WrongChildCount,
>)
    ensures
        match operator_sized(
            operator.id,
            operator.kind,
            trees(operator.children@),
            shuffle_batch_size,
        ) {
            Ok(t) => r is Ok && r->Ok_0.tree() == t,
            Err(got) => r is Err && r->Err_0.got == got,
        },
{
    match operator.kind {
        OperatorKind::HashRepartition => {},
        _ => {
            return Ok(Plan::Operator(operator));
        },
    }
    let Operator { id, kind, children } = operator;
    let mut children: Vec<Plan> = children;
    proof {
        lemma_trees(children@);
    }
    if children.len() != 1 {
        return Err(WrongChildCount { got: children.len() });
    }
    let child: Plan = children.remove(0);
    let ghost child_tree = child.tree();
    assert(child_tree == trees(operator.children@)[0]);
    // If an aggregation feeds this repartitioning, make it emit one big batch.
    let new_child: Plan = match child.identity().kind {
        OperatorKind::Aggregate => Plan::LargeBatch(
            Box::new(LargeBatchExec::new(child, usize::MAX)),
        ),
        _ => child,
    };
    let ghost new_tree = new_child.tree();
    assert(new_tree == shuffle_input(child_tree));
    let mut new_children: Vec<Plan> = Vec::new();
    new_children.push(new_child);
    proof {
        lemma_trees(new_children@);
        assert(trees(new_children@) =~= seq![new_tree]);
    }
    let new_repartition: Plan = Plan::Operator(Operator { id, kind, children: new_children });
    assert(new_repartition.tree() == PlanTree::Operator(id, kind, seq![new_tree]));
    // Wrap the repartitioning so that it emits chunks of `shuffle_batch_size`.
    Ok(Plan::LargeBatch(Box::new(LargeBatchExec::new(new_repartition, shuffle_batch_size))))
}

/// Applies targeted batch-size overrides at hash-shuffle boundaries.
///
/// Called on the worker after plan deserialization so these wrapper nodes never appear
/// in serialized plans. The two rewrites are:
///
/// 1. Each hash repartitioning is wrapped with a [`LargeBatchExec`] set to
///    `shuffle_batch_size`, so the repartition emits right-sized chunks for Arrow
///    Flight encoding while the nodes above it use the `batch_size` of the session.
///
/// 2. When an aggregation feeds that repartition, it is wrapped with a
///    [`LargeBatchExec`] set to `usize::MAX`, so the aggregate emits all accumulated
///    rows as one batch and the repartition can hash-partition them in a single pass.
///
/// Result for an aggregation below a repartitioning:
///
/// ```text
/// LargeBatchExec(shuffle_batch_size)   ← repartition output chunked for Arrow Flight
///   RepartitionExec(Hash)              ← receives one huge batch, copies once
///     LargeBatchExec(usize::MAX)       ← aggregate emits everything at once
///       AggregateExec(Partial)
/// ```
///
/// A [`LargeBatchExec`] that already stands in the plan is left as it is.
pub fn apply_shuffle_batch_sizing(plan: &Plan, shuffle_batch_size: usize) -> (r: Result<
    Plan,
    WrongChildCount,
>)
    ensures
        match plan_sized(plan.tree(), shuffle_batch_size) {
            Ok(t) => r is Ok && r->Ok_0.tree() == t,
            Err(got) => r is Err && r->Err_0.got == got,
        },
    decreases plan,
{
    match plan {
        Plan::Operator(op) => {
            let mut children: Vec<Plan> = Vec::new();
            let ghost ts = trees(op.children@);
            proof {
                lemma_trees(op.children@);
                assert(ts.take(0) =~= Seq::<PlanTree>::empty());
            }
            for i in 0..op.children.len()
                invariant
                    *plan == Plan::Operator(*op),
                    ts == trees(op.children@),
                    ts.len() == op.children@.len(),
                    forall|j: int| 0 <= j < ts.len() ==> #[trigger] ts[j] == op.children@[j].tree(),
                    plans_sized(ts.take(i as int), shuffle_batch_size) == Ok::<
                        Seq<PlanTree>,
                        nat,
                    >(trees(children@)),
            {
                let ghost next = ts.take(i + 1);
                proof {
                    assert(next.drop_last() =~= ts.take(i as int));
                    assert(next.last() == ts[i as int]);
                }
                match apply_shuffle_batch_sizing(&op.children[i], shuffle_batch_size) {
                    Ok(child) => {
                        let ghost before = children@;
                        children.push(child);
                        assert(children@.drop_last() =~= before);
                    },
                    Err(e) => {
                        proof {
                            lemma_error_stays(ts, i + 1, shuffle_batch_size);
                        }
                        return Err(e);
                    },
                }
            }
            assert(ts.take(ts.len() as int) =~= ts);
            size_operator(
                Operator { id: op.id, kind: op.kind, children },
                shuffle_batch_size,
            )
        },
        Plan::LargeBatch(b) => {
            match apply_shuffle_batch_sizing(&b.input, shuffle_batch_size) {
                Ok(input) => Ok(
                    Plan::LargeBatch(Box::new(LargeBatchExec::new(input, b.batch_size))),
                ),
                Err(e) => Err(e),
            }
        },
    }
}

/// An error that the first plans give stays.
proof fn lemma_error_stays(ts: Seq<PlanTree>, n: int, batch_size: usize)
    requires
        0 <= n <= ts.len(),
        plans_sized(ts.take(n), batch_size) is Err,
    ensures
        plans_sized(ts, batch_size) == plans_sized(ts.take(n), batch_size),
    decreases ts.len(),
{
    if n == ts.len() {
        assert(ts.take(n) =~= ts);
    } else {
        assert(ts.drop_last().take(n) =~= ts.take(n));
        lemma_error_stays(ts.drop_last(), n, batch_size);
    }
}

} // verus!
