//! Sized shuffles, and the wrapper that sizes them.

use datafusion::execution::TaskContext;
use datafusion::prelude::{SessionConfig, SessionContext};
use datafusion_distributed::distributed_config::DistributedConfig;
use datafusion_distributed::large_batch::{LargeBatchExec, Operator, OperatorKind, Plan};
use datafusion_distributed::tune_shuffle_producer_batch_sizes::apply_shuffle_batch_sizing;
use std::sync::Arc;

fn op(id: usize, kind: OperatorKind, children: Vec<Plan>) -> Plan {
    Plan::Operator(Operator { id, kind, children })
}

fn hash(id: usize, children: Vec<Plan>) -> Plan {
    op(id, OperatorKind::HashRepartition, children)
}

fn agg(id: usize, children: Vec<Plan>) -> Plan {
    op(id, OperatorKind::Aggregate, children)
}

fn other(id: usize, children: Vec<Plan>) -> Plan {
    op(id, OperatorKind::Other, children)
}

fn large(input: Plan, batch_size: usize) -> Plan {
    Plan::LargeBatch(Box::new(LargeBatchExec::new(input, batch_size)))
}

fn show(plan: &Plan) -> String {
    match plan {
        Plan::Operator(op) => {
            let children: Vec<String> = op.children.iter().map(show).collect();
            format!("{:?}{}({})", op.kind, op.id, children.join(","))
        }
        Plan::LargeBatch(b) => b.debug_text(&show(&b.input)),
    }
}

fn assert_sized(plan: Plan, batch_size: usize, expected: Plan) {
    assert_eq!(show(&apply_shuffle_batch_sizing(&plan, batch_size).unwrap()), show(&expected));
}

#[test]
fn an_aggregate_that_feeds_a_shuffle() {
    assert_sized(
        hash(1, vec![agg(2, vec![other(3, vec![])])]),
        8192,
        large(hash(1, vec![large(agg(2, vec![other(3, vec![])]), usize::MAX)]), 8192),
    );
}

#[test]
fn a_shuffle_without_an_aggregate() {
    assert_sized(
        other(1, vec![hash(2, vec![other(3, vec![])]), agg(4, vec![other(5, vec![])])]),
        10,
        other(1, vec![large(hash(2, vec![other(3, vec![])]), 10), agg(4, vec![other(5, vec![])])]),
    );
}

#[test]
fn a_shuffle_below_a_shuffle() {
    assert_sized(
        hash(1, vec![hash(2, vec![agg(3, vec![])])]),
        5,
        large(
            hash(1, vec![large(hash(2, vec![large(agg(3, vec![]), usize::MAX)]), 5)]),
            5,
        ),
    );
}

#[test]
fn a_plan_without_shuffles_stays() {
    assert_sized(
        agg(1, vec![other(2, vec![agg(3, vec![])]), other(4, vec![])]),
        7,
        agg(1, vec![other(2, vec![agg(3, vec![])]), other(4, vec![])]),
    );
}

#[test]
fn a_wrapped_aggregate_is_seen_through_its_wrapper() {
    assert_sized(
        hash(1, vec![large(agg(2, vec![]), 3)]),
        9,
        large(hash(1, vec![large(large(agg(2, vec![]), 3), usize::MAX)]), 9),
    );
}

#[test]
fn a_wrapper_around_a_shuffle_is_left_as_it_is() {
    assert_sized(
        large(hash(1, vec![other(2, vec![])]), 3),
        9,
        large(large(hash(1, vec![other(2, vec![])]), 9), 3),
    );
    assert_sized(
        other(0, vec![large(hash(1, vec![agg(2, vec![])]), 3)]),
        9,
        other(0, vec![large(large(hash(1, vec![large(agg(2, vec![]), usize::MAX)]), 9), 3)]),
    );
}

fn wrappers(plan: &Plan) -> usize {
    match plan {
        Plan::Operator(op) => op.children.iter().map(wrappers).sum(),
        Plan::LargeBatch(b) => 1 + wrappers(&b.input),
    }
}

#[test]
fn each_shuffle_and_each_feeding_aggregate_gets_one_wrapper() {
    let plan = other(
        0,
        vec![
            hash(1, vec![agg(2, vec![agg(3, vec![hash(4, vec![other(5, vec![])])])])]),
            agg(6, vec![large(other(7, vec![]), 3)]),
        ],
    );
    assert_eq!(wrappers(&plan), 1);
    assert_eq!(wrappers(&apply_shuffle_batch_sizing(&plan, 9).unwrap()), 1 + 3);
}

#[test]
fn a_shuffle_needs_one_input() {
    let none = apply_shuffle_batch_sizing(&other(0, vec![hash(1, vec![])]), 9);
    assert_eq!(none.err().unwrap().got, 0);
    let two = hash(1, vec![other(2, vec![]), other(3, vec![])]);
    assert_eq!(apply_shuffle_batch_sizing(&two, 9).err().unwrap().got, 2);
    let first = other(0, vec![hash(1, vec![]), two]);
    assert_eq!(apply_shuffle_batch_sizing(&first, 9).err().unwrap().got, 0);
}

#[test]
fn the_text_of_a_wrapper() {
    let b = LargeBatchExec::new(other(1, vec![]), 120);
    assert_eq!(b.debug_text("Input"), "LargeBatchExec(batch_size=120, Input)");
}

#[test]
fn the_children_of_a_wrapper() {
    let b = LargeBatchExec::new(other(1, vec![]), 4);
    assert_eq!(b.children().len(), 1);
    assert_eq!(show(b.children()[0]), "Other1()");
    assert_eq!(show(b.downcast_delegate()), "Other1()");
    let b = b.with_new_children(vec![other(2, vec![]), other(3, vec![])]);
    assert_eq!(show(&b.input), "Other2()");
    assert_eq!(b.batch_size, 4);
}

#[test]
fn the_identity_of_a_plan() {
    assert_eq!(large(large(agg(7, vec![]), 1), 2).identity().id, 7);
    assert_eq!(other(8, vec![]).identity().id, 8);
}

struct Foreign(u32);

#[test]
fn the_context_of_the_input() {
    let mut cfg = SessionConfig::new().with_batch_size(17);
    cfg.set_extension(Arc::new(DistributedConfig { shuffle_batch_size: 99, ..Default::default() }));
    cfg.set_extension(Arc::new(Foreign(7)));
    let session = SessionContext::new_with_config(cfg);
    let ctx = session.task_ctx();
    assert!(!ctx.scalar_functions().is_empty());

    let b = LargeBatchExec::new(other(1, vec![]), usize::MAX);
    let child: TaskContext = b.child_context(&ctx);
    assert_eq!(child.session_config().batch_size(), usize::MAX);
    assert_eq!(ctx.session_config().batch_size(), 17);
    assert_eq!(child.session_id(), ctx.session_id());
    assert_eq!(child.task_id(), ctx.task_id());
    assert_eq!(child.scalar_functions().len(), ctx.scalar_functions().len());
    assert_eq!(child.higher_order_functions().len(), ctx.higher_order_functions().len());
    assert_eq!(child.aggregate_functions().len(), ctx.aggregate_functions().len());
    assert_eq!(child.window_functions().len(), ctx.window_functions().len());
    assert!(child.scalar_functions().keys().all(|k| ctx.scalar_functions().contains_key(k)));
    assert!(Arc::ptr_eq(&child.runtime_env(), &ctx.runtime_env()));
    for (old, new) in ctx
        .session_config()
        .options()
        .entries()
        .into_iter()
        .zip(child.session_config().options().entries())
    {
        assert_eq!(old.key, new.key);
        if old.key == "datafusion.execution.batch_size" {
            assert_eq!(new.value, Some(usize::MAX.to_string()));
        } else {
            assert_eq!(old.value, new.value);
        }
    }
    assert_eq!(child.session_config().get_extension::<Foreign>().unwrap().0, 7);
    let d = DistributedConfig::from_task_context(&Arc::new(child)).ok().unwrap();
    assert_eq!(d.shuffle_batch_size, 99);
}
