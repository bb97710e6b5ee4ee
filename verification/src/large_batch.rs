//! Plans, and the wrapper that changes the batch size of a part of one.
//!
//! A plan is seen here as a tree of operators. Of an operator this library reads what it is, as
//! far as that matters for shuffles, and its inputs; which operator it is, the number that its
//! owner gave it tells.

use crate::session::{differs_in_batch_size, session_batch_size, session_slots};
use crate::session::{task_services, task_session_config};
use crate::text::{decimal, number_text};
use datafusion::execution::TaskContext;
use vstd::prelude::*;
use vstd::string::*;

verus! {

/// What an operator is.
#[derive(Clone, Copy, PartialEq, Eq, Structural, Debug)]
pub enum OperatorKind {
    /// A repartitioning by hash.
    HashRepartition,
    /// An aggregation.
    Aggregate,
    /// Anything else.
    Other,
}

/// An operator of a plan.
#[derive(Debug)]
pub struct Operator {
    /// The number by which the owner of the plan knows the operator.
    pub id: usize,
    pub kind: OperatorKind,
    pub children: Vec<Plan>,
}

/// A plan.
#[derive(Debug)]
pub enum Plan {
    Operator(Operator),
    LargeBatch(Box<LargeBatchExec>),
}

/// Transparent wrapper that overrides `batch_size` in the [`TaskContext`] passed to its
/// child. The context of the nodes outside the wrapper stays as it is.
///
/// Used at hash-shuffle boundaries on the worker side:
/// - Wrapped around a hash repartitioning with `batch_size = shuffle_batch_size` so
///   the repartition emits right-sized chunks for Arrow Flight encoding.
/// - Wrapped around an aggregation with `batch_size = usize::MAX` so the aggregate
///   emits all accumulated rows as a single batch, letting the repartition hash-partition
///   them in one pass instead of under repeated mutex contention.
///
/// Both nodes are wrapped on the worker after plan deserialization, so this type never
/// appears in serialized plans.
#[derive(Debug)]
pub struct LargeBatchExec {
    pub input: Plan,
    pub batch_size: usize,
}

/// A plan as a tree.
pub enum PlanTree {
    Operator(usize, OperatorKind, Seq<PlanTree>),
    LargeBatch(Box<PlanTree>, usize),
}

/// The trees of plans.
pub open spec fn trees(plans: Seq<Plan>) -> Seq<PlanTree>
    decreases plans,
{
    if plans.len() == 0 {
        Seq::empty()
    } else {
        trees(plans.drop_last()).push(plans.last().tree())
    }
}

impl Plan {
    /// The tree of this plan.
    pub open spec fn tree(self) -> PlanTree
        decreases self,
    {
        match self {
            Plan::Operator(op) => PlanTree::Operator(op.id, op.kind, trees(op.children@)),
            Plan::LargeBatch(b) => PlanTree::LargeBatch(Box::new(b.input.tree()), b.batch_size),
        }
    }

    /// The plan that a downcast of this one sees: what stands below its wrappers.
    pub fn identity(&self) -> (r: &Operator)
        ensures
            Plan::Operator(*r).tree() == identity(self.tree()),
        decreases self,
    {
        match self {
            Plan::Operator(op) => op,
            Plan::LargeBatch(b) => b.downcast_delegate().identity(),
        }
    }
}

/// The number of trees is that of the plans, and each is that of its plan.
pub proof fn lemma_trees(plans: Seq<Plan>)
    ensures
        trees(plans).len() == plans.len(),
        forall|i: int| 0 <= i < plans.len() ==> #[trigger] trees(plans)[i] == plans[i].tree(),
    decreases plans.len(),
{
    if plans.len() > 0 {
        lemma_trees(plans.drop_last());
    }
}

/// What stands below the wrappers of a plan.
pub open spec fn identity(t: PlanTree) -> PlanTree
    decreases t,
{
    match t {
        PlanTree::Operator(_, _, _) => t,
        PlanTree::LargeBatch(input, _) => identity(*input),
    }
}

/// What stands below the wrappers of a plan is an operator of this kind.
pub open spec fn is_kind(t: PlanTree, kind: OperatorKind) -> bool {
    identity(t) matches PlanTree::Operator(_, k, _) && k == kind
}

impl LargeBatchExec {
    /// A wrapper around `input`.
    pub fn new(input: Plan, batch_size: usize) -> (r: LargeBatchExec)
        ensures
            r.input == input,
            r.batch_size == batch_size,
    {
        LargeBatchExec { input, batch_size }
    }

    /// The one input of the wrapper.
    pub fn children(&self) -> (r: Vec<&Plan>)
        ensures
            r@ == seq![&self.input],
    {
        let mut r: Vec<&Plan> = Vec::new();
        r.push(&self.input);
        r
    }

    /// The wrapper around the first of `children`, with the same batch size.
    pub fn with_new_children(self, children: Vec<Plan>) -> (r: LargeBatchExec)
        requires
            children@.len() > 0,
        ensures
            r.input == children@[0],
            r.batch_size == self.batch_size,
    {
        let mut children: Vec<Plan> = children;
        LargeBatchExec::new(children.remove(0), self.batch_size)
    }

    /// The plan that a downcast of the wrapper is passed on to.
    pub fn downcast_delegate(&self) -> (r: &Plan)
        ensures
            *r == self.input,
    {
        &self.input
    }

    /// How the wrapper is shown, around its input as `input` shows it.
    pub fn debug_text(&self, input: &str) -> (r: String)
        ensures
            r@ == "LargeBatchExec(batch_size="@ + decimal(self.batch_size as nat) + ", "@ + input@
                + ")"@,
    {
        let mut r: String = "LargeBatchExec(batch_size=".to_owned();
        r.append(number_text(self.batch_size).as_str());
        r.append(", ");
        r.append(input);
        r.append(")");
        r
    }

    /// The context in which the wrapper executes its input: that of the wrapper itself, with the
    /// batch size of the wrapper. The other options, all opaque extensions and all that the task
    /// holds beside its session configuration are kept.
    pub fn child_context(&self, context: &TaskContext) -> (r: TaskContext)
        requires
            self.batch_size > 0,
        ensures
            session_batch_size(task_session_config(r)) == self.batch_size,
            differs_in_batch_size(
                task_session_config(*context),
                task_session_config(r),
                self.batch_size,
            ),
            session_slots(task_session_config(r)) == session_slots(task_session_config(*context)),
            task_services(r) == task_services(*context),
    {
        TaskContext::new(
            context.task_id(),
            context.session_id(),
            context.session_config().clone().with_batch_size(self.batch_size),
            context.scalar_functions().clone(),
            context.higher_order_functions().clone(),
            context.aggregate_functions().clone(),
            context.window_functions().clone(),
            context.runtime_env(),
        )
    }
}

/// The tree of a plan shows each operator with its number, its kind and its inputs, and each
/// wrapper with its input and its batch size.
pub proof fn tree_shows_each_node(op: Operator, b: LargeBatchExec, i: int)
    ensures
        Plan::Operator(op).tree() matches PlanTree::Operator(id, kind, children) && {
            &&& id == op.id
            &&& kind == op.kind
            &&& children.len() == op.children@.len()
            &&& 0 <= i < op.children@.len() ==> children[i] == op.children@[i].tree()
        },
        Plan::LargeBatch(Box::new(b)).tree() matches PlanTree::LargeBatch(input, batch_size) && {
            &&& *input == b.input.tree()
            &&& batch_size == b.batch_size
        },
{
    lemma_trees(op.children@);
}

/// An operator is of its own kind, and a wrapper of the kind of what it wraps.
pub proof fn wrappers_show_the_kind_below(
    id: usize,
    own: OperatorKind,
    children: Seq<PlanTree>,
    input: PlanTree,
    batch_size: usize,
    kind: OperatorKind,
)
    ensures
        is_kind(PlanTree::Operator(id, own, children), kind) == (own == kind),
        is_kind(PlanTree::LargeBatch(Box::new(input), batch_size), kind) == is_kind(input, kind),
        identity(PlanTree::Operator(id, own, children)) == PlanTree::Operator(id, own, children),
        identity(PlanTree::LargeBatch(Box::new(input), batch_size)) == identity(input),
{
}

} // verus!
