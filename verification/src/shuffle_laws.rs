//! What holds of plans with sized shuffles.

use crate::large_batch::{identity, is_kind, OperatorKind, PlanTree};
use crate::tune_shuffle_producer_batch_sizes::{plan_sized, plans_sized, shuffle_input};
use vstd::prelude::*;

verus! {

/// The plan without its wrappers.
pub open spec fn stripped(t: PlanTree) -> PlanTree
    decreases t,
{
    match t {
        PlanTree::Operator(id, kind, children) => PlanTree::Operator(
            id,
            kind,
            all_stripped(children),
        ),
        PlanTree::LargeBatch(input, _) => stripped(*input),
    }
}

/// The plans without their wrappers.
pub open spec fn all_stripped(ts: Seq<PlanTree>) -> Seq<PlanTree>
    decreases ts,
{
    if ts.len() == 0 {
        Seq::empty()
    } else {
        all_stripped(ts.drop_last()).push(stripped(ts.last()))
    }
}

/// No operator of the plan is a hash repartitioning.
pub open spec fn has_no_shuffle(t: PlanTree) -> bool
    decreases t,
{
    match t {
        PlanTree::Operator(_, kind, children) => kind != OperatorKind::HashRepartition && (
        forall|i: int| 0 <= i < children.len() ==> has_no_shuffle(#[trigger] children[i])),
        PlanTree::LargeBatch(input, _) => has_no_shuffle(*input),
    }
}

/// Every hash repartitioning of the plan has one input.
pub open spec fn shuffles_have_one_input(t: PlanTree) -> bool
    decreases t,
{
    match t {
        PlanTree::Operator(_, kind, children) => (kind == OperatorKind::HashRepartition
            ==> children.len() == 1) && (forall|i: int|
            0 <= i < children.len() ==> shuffles_have_one_input(#[trigger] children[i])),
        PlanTree::LargeBatch(input, _) => shuffles_have_one_input(*input),
    }
}

/// No wrapper stands in the plan, as it is with every plan that comes to a worker.
pub open spec fn has_no_wrapper(t: PlanTree) -> bool
    decreases t,
{
    match t {
        PlanTree::Operator(_, _, children) => forall|i: int|
            0 <= i < children.len() ==> has_no_wrapper(#[trigger] children[i]),
        PlanTree::LargeBatch(_, _) => false,
    }
}

/// Every wrapper of the plan stands directly around a hash repartitioning, with this batch size, or
/// directly around an aggregation that feeds one, with the largest there is. `feeds` tells whether
/// the plan itself feeds one.
pub open spec fn has_no_other_wrapper(t: PlanTree, batch_size: usize, feeds: bool) -> bool
    decreases t,
{
    match t {
        PlanTree::Operator(_, kind, children) => forall|i: int|
            0 <= i < children.len() ==> has_no_other_wrapper(
                #[trigger] children[i],
                batch_size,
                kind == OperatorKind::HashRepartition,
            ),
        PlanTree::LargeBatch(input, size) => {
            &&& *input matches PlanTree::Operator(_, kind, _) && (kind
                == OperatorKind::HashRepartition && size == batch_size || kind
                == OperatorKind::Aggregate && feeds && size == usize::MAX)
            &&& has_no_other_wrapper(*input, batch_size, false)
        },
    }
}

/// The number of wrappers in the plan.
pub open spec fn wrapper_count(t: PlanTree) -> nat
    decreases t,
{
    match t {
        PlanTree::Operator(_, _, children) => all_wrapper_count(children),
        PlanTree::LargeBatch(input, _) => 1 + wrapper_count(*input),
    }
}

/// The number of wrappers in the plans.
pub open spec fn all_wrapper_count(ts: Seq<PlanTree>) -> nat
    decreases ts,
{
    if ts.len() == 0 {
        0
    } else {
        all_wrapper_count(ts.drop_last()) + wrapper_count(ts.last())
    }
}

/// The number of wrappers that the plan calls for: one for each hash repartitioning, and one for
/// each that an aggregation feeds.
pub open spec fn wanted_count(t: PlanTree) -> nat
    decreases t,
{
    match t {
        PlanTree::Operator(_, kind, children) => all_wanted_count(children) + (if kind
            != OperatorKind::HashRepartition {
            0nat
        } else if is_kind(children[0], OperatorKind::Aggregate) {
            2nat
        } else {
            1nat
        }),
        PlanTree::LargeBatch(input, _) => wanted_count(*input),
    }
}

/// The number of wrappers that the plans call for.
pub open spec fn all_wanted_count(ts: Seq<PlanTree>) -> nat
    decreases ts,
{
    if ts.len() == 0 {
        0
    } else {
        all_wanted_count(ts.drop_last()) + wanted_count(ts.last())
    }
}

/// Every hash repartitioning of the plan stands directly below a wrapper with this batch size,
/// and every aggregation that feeds one directly below a wrapper with the largest there is.
/// `wrapped` tells whether the plan itself stands below the former.
pub open spec fn is_well_sized(t: PlanTree, batch_size: usize, wrapped: bool) -> bool
    decreases t,
{
    match t {
        PlanTree::Operator(_, kind, children) => {
            &&& kind == OperatorKind::HashRepartition ==> wrapped && children.len() == 1 && (
            is_kind(children[0], OperatorKind::Aggregate) ==> (children[0] matches PlanTree::LargeBatch(
                _,
                size,
            ) && size == usize::MAX))
            &&& forall|i: int|
                0 <= i < children.len() ==> is_well_sized(
                    #[trigger] children[i],
                    batch_size,
                    false,
                )
        },
        PlanTree::LargeBatch(input, size) => is_well_sized(*input, batch_size, size == batch_size),
    }
}

/// The plans are done one by one.
proof fn lemma_plans_sized(ts: Seq<PlanTree>, batch_size: usize)
    ensures
        match plans_sized(ts, batch_size) {
            Ok(done) => done.len() == ts.len() && forall|i: int|
                0 <= i < ts.len() ==> plan_sized(#[trigger] ts[i], batch_size) == Ok::<
                    PlanTree,
                    nat,
                >(done[i]),
            Err(_) => exists|i: int|
                0 <= i < ts.len() && plan_sized(#[trigger] ts[i], batch_size) is Err,
        },
    decreases ts.len(),
{
    if ts.len() > 0 {
        let before = ts.drop_last();
        lemma_plans_sized(before, batch_size);
        match plans_sized(before, batch_size) {
            Ok(done) => {
                match plan_sized(ts.last(), batch_size) {
                    Ok(t) => {
                        assert forall|i: int| 0 <= i < ts.len() implies plan_sized(
                            #[trigger] ts[i],
                            batch_size,
                        ) == Ok::<PlanTree, nat>(done.push(t)[i]) by {
                            if i < before.len() {
                                assert(before[i] == ts[i]);
                            }
                        }
                    },
                    Err(_) => {
                        assert(plan_sized(ts[ts.len() - 1], batch_size) is Err);
                    },
                }
            },
            Err(_) => {
                let i = choose|i: int|
                    0 <= i < before.len() && plan_sized(#[trigger] before[i], batch_size) is Err;
                assert(plan_sized(ts[i], batch_size) is Err);
            },
        }
    }
}

/// Plans are stripped one by one.
proof fn lemma_all_stripped(ts: Seq<PlanTree>)
    ensures
        all_stripped(ts).len() == ts.len(),
        forall|i: int| 0 <= i < ts.len() ==> #[trigger] all_stripped(ts)[i] == stripped(ts[i]),
    decreases ts.len(),
{
    if ts.len() > 0 {
        lemma_all_stripped(ts.drop_last());
    }
}

/// A plan without shuffles is left as it is.
pub proof fn plan_without_shuffle_is_unchanged(t: PlanTree, batch_size: usize)
    requires
        has_no_shuffle(t),
    ensures
        plan_sized(t, batch_size) == Ok::<PlanTree, nat>(t),
    decreases t,
{
    match t {
        PlanTree::Operator(id, kind, children) => {
            lemma_plans_sized(children, batch_size);
            assert forall|i: int| 0 <= i < children.len() implies plan_sized(
                #[trigger] children[i],
                batch_size,
            ) == Ok::<PlanTree, nat>(children[i]) by {
                plan_without_shuffle_is_unchanged(children[i], batch_size);
            }
            let done = plans_sized(children, batch_size)->Ok_0;
            assert forall|i: int| 0 <= i < children.len() implies done[i] == children[i] by {
                assert(plan_sized(children[i], batch_size) == Ok::<PlanTree, nat>(done[i]));
            }
            assert(done =~= children);
        },
        PlanTree::LargeBatch(input, size) => {
            plan_without_shuffle_is_unchanged(*input, batch_size);
        },
    }
}

/// Sizing succeeds exactly on the plans whose hash repartitionings all have one input, and leaves
/// them so.
pub proof fn sizing_needs_one_input(t: PlanTree, batch_size: usize)
    ensures
        plan_sized(t, batch_size) is Ok <==> shuffles_have_one_input(t),
        plan_sized(t, batch_size) matches Ok(u) ==> shuffles_have_one_input(u),
    decreases t,
{
    match t {
        PlanTree::Operator(id, kind, children) => {
            lemma_plans_sized(children, batch_size);
            assert forall|i: int| 0 <= i < children.len() implies (plan_sized(
                #[trigger] children[i],
                batch_size,
            ) is Ok <==> shuffles_have_one_input(children[i])) && (plan_sized(
                children[i],
                batch_size,
            ) matches Ok(u) ==> shuffles_have_one_input(u)) by {
                sizing_needs_one_input(children[i], batch_size);
            }
            match plans_sized(children, batch_size) {
                Ok(done) => {
                    assert forall|i: int| 0 <= i < done.len() implies shuffles_have_one_input(
                        #[trigger] done[i],
                    ) by {
                        assert(plan_sized(children[i], batch_size) is Ok);
                    }
                    assert forall|i: int| 0 <= i < children.len() implies shuffles_have_one_input(
                        #[trigger] children[i],
                    ) by {
                        assert(plan_sized(children[i], batch_size) is Ok);
                    }
                    if kind == OperatorKind::HashRepartition && done.len() == 1 {
                        let child = shuffle_input(done[0]);
                        assert(shuffles_have_one_input(done[0]));
                        assert(shuffles_have_one_input(child));
                        let over = PlanTree::Operator(id, kind, seq![child]);
                        assert(shuffles_have_one_input(over));
                    }
                },
                Err(_) => {
                    let i = choose|i: int|
                        0 <= i < children.len() && plan_sized(
                            #[trigger] children[i],
                            batch_size,
                        ) is Err;
                    assert(!shuffles_have_one_input(children[i]));
                },
            }
        },
        PlanTree::LargeBatch(input, size) => {
            sizing_needs_one_input(*input, batch_size);
        },
    }
}

/// Sizing keeps what stands below the wrappers.
proof fn lemma_sizing_keeps_kind(t: PlanTree, batch_size: usize, kind: OperatorKind)
    requires
        plan_sized(t, batch_size) is Ok,
    ensures
        is_kind(plan_sized(t, batch_size)->Ok_0, kind) == is_kind(t, kind),
    decreases t,
{
    match t {
        PlanTree::Operator(id, k, children) => {
            let done = plans_sized(children, batch_size)->Ok_0;
            if k == OperatorKind::HashRepartition {
                let over = PlanTree::Operator(id, k, seq![shuffle_input(done[0])]);
                assert(identity(over) == over);
                let u = PlanTree::LargeBatch(Box::new(over), batch_size);
                assert(plan_sized(t, batch_size) == Ok::<PlanTree, nat>(u));
                assert(identity(u) == over);
            }
        },
        PlanTree::LargeBatch(input, size) => {
            lemma_sizing_keeps_kind(*input, batch_size, kind);
            let u = plan_sized(*input, batch_size)->Ok_0;
            assert(identity(PlanTree::LargeBatch(Box::new(u), size)) == identity(u));
        },
    }
}

/// Sizing adds wrappers and does nothing else: without the wrappers the plan is the one it was.
pub proof fn sizing_only_adds_wrappers(t: PlanTree, batch_size: usize)
    ensures
        plan_sized(t, batch_size) matches Ok(u) ==> stripped(u) == stripped(t),
    decreases t,
{
    if plan_sized(t, batch_size) is Ok {
        match t {
            PlanTree::Operator(id, kind, children) => {
                lemma_plans_sized(children, batch_size);
                let done = plans_sized(children, batch_size)->Ok_0;
                assert forall|i: int| 0 <= i < children.len() implies stripped(done[i])
                    == stripped(#[trigger] children[i]) by {
                    sizing_only_adds_wrappers(children[i], batch_size);
                    assert(plan_sized(children[i], batch_size) == Ok::<PlanTree, nat>(done[i]));
                }
                lemma_all_stripped(children);
                lemma_all_stripped(done);
                assert(all_stripped(done) =~= all_stripped(children));
                if kind == OperatorKind::HashRepartition {
                    let child = shuffle_input(done[0]);
                    assert(stripped(child) == stripped(done[0]));
                    let cs = seq![child];
                    lemma_all_stripped(cs);
                    assert(all_stripped(cs) =~= all_stripped(done));
                    assert(stripped(PlanTree::Operator(id, kind, cs)) == stripped(t));
                }
            },
            PlanTree::LargeBatch(input, _) => {
                sizing_only_adds_wrappers(*input, batch_size);
            },
        }
    }
}

/// A plan that is well sized is so below a wrapper as well.
proof fn lemma_wrapped_well_sized(t: PlanTree, batch_size: usize)
    requires
        is_well_sized(t, batch_size, false),
    ensures
        is_well_sized(t, batch_size, true),
{
}

/// After sizing, every hash repartitioning emits chunks of the given size, and every aggregation
/// that feeds one emits all its rows at once.
pub proof fn sizing_sizes_every_shuffle(t: PlanTree, batch_size: usize)
    ensures
        plan_sized(t, batch_size) matches Ok(u) ==> is_well_sized(u, batch_size, false),
    decreases t,
{
    if plan_sized(t, batch_size) is Ok {
        match t {
            PlanTree::Operator(id, kind, children) => {
                lemma_plans_sized(children, batch_size);
                let done = plans_sized(children, batch_size)->Ok_0;
                assert forall|i: int| 0 <= i < done.len() implies is_well_sized(
                    #[trigger] done[i],
                    batch_size,
                    false,
                ) by {
                    sizing_sizes_every_shuffle(children[i], batch_size);
                    assert(plan_sized(children[i], batch_size) == Ok::<PlanTree, nat>(done[i]));
                }
                if kind == OperatorKind::HashRepartition {
                    let child = shuffle_input(done[0]);
                    lemma_wrapped_well_sized(done[0], batch_size);
                    assert(is_well_sized(done[0], batch_size, false));
                    assert(is_well_sized(child, batch_size, false));
                    let over = PlanTree::Operator(id, kind, seq![child]);
                    assert(is_well_sized(over, batch_size, true));
                }
            },
            PlanTree::LargeBatch(input, _) => {
                sizing_sizes_every_shuffle(*input, batch_size);
                lemma_wrapped_well_sized(plan_sized(*input, batch_size)->Ok_0, batch_size);
            },
        }
    }
}

/// What feeds no repartitioning may as well feed one.
proof fn lemma_feeds(t: PlanTree, batch_size: usize)
    requires
        has_no_other_wrapper(t, batch_size, false),
    ensures
        has_no_other_wrapper(t, batch_size, true),
{
}

/// Sizing wraps hash repartitionings and the aggregations that feed them, each of them once, and
/// nothing else.
pub proof fn sizing_wraps_nothing_else(t: PlanTree, batch_size: usize)
    requires
        has_no_wrapper(t),
    ensures
        plan_sized(t, batch_size) matches Ok(u) ==> has_no_other_wrapper(u, batch_size, false),
    decreases t,
{
    if plan_sized(t, batch_size) is Ok {
        if let PlanTree::Operator(id, kind, children) = t {
            lemma_plans_sized(children, batch_size);
            let done = plans_sized(children, batch_size)->Ok_0;
            let feeds = kind == OperatorKind::HashRepartition;
            assert forall|i: int| 0 <= i < done.len() implies has_no_other_wrapper(
                #[trigger] done[i],
                batch_size,
                feeds,
            ) by {
                sizing_wraps_nothing_else(children[i], batch_size);
                assert(plan_sized(children[i], batch_size) == Ok::<PlanTree, nat>(done[i]));
                lemma_feeds(done[i], batch_size);
            }
            if feeds {
                assert(has_no_wrapper(children[0]));
                assert(plan_sized(children[0], batch_size) == Ok::<PlanTree, nat>(done[0]));
                sizing_wraps_nothing_else(children[0], batch_size);
                lemma_sizing_keeps_kind(children[0], batch_size, OperatorKind::Aggregate);
                let child = shuffle_input(done[0]);
                assert(has_no_other_wrapper(child, batch_size, true));
                let over = PlanTree::Operator(id, kind, seq![child]);
                assert(has_no_other_wrapper(over, batch_size, false));
            }
        }
    }
}

/// Sizing adds exactly as many wrappers as the plan calls for, whatever wrappers it has already.
pub proof fn sizing_adds_wanted_wrappers(t: PlanTree, batch_size: usize)
    ensures
        plan_sized(t, batch_size) matches Ok(u) ==> wrapper_count(u) == wrapper_count(t)
            + wanted_count(t),
    decreases t,
{
    if plan_sized(t, batch_size) is Ok {
        match t {
            PlanTree::Operator(id, kind, children) => {
                lemma_all_wanted_wrappers(children, batch_size);
                let done = plans_sized(children, batch_size)->Ok_0;
                if kind == OperatorKind::HashRepartition {
                    lemma_plans_sized(children, batch_size);
                    assert(plan_sized(children[0], batch_size) == Ok::<PlanTree, nat>(done[0]));
                    lemma_sizing_keeps_kind(children[0], batch_size, OperatorKind::Aggregate);
                    let child = shuffle_input(done[0]);
                    let cs = seq![child];
                    lemma_single_count(done);
                    lemma_single_count(cs);
                    let over = PlanTree::Operator(id, kind, cs);
                    assert(wrapper_count(over) == wrapper_count(child));
                }
            },
            PlanTree::LargeBatch(input, _) => {
                sizing_adds_wanted_wrappers(*input, batch_size);
            },
        }
    }
}

/// Sizing adds as many wrappers as plans call for.
proof fn lemma_all_wanted_wrappers(ts: Seq<PlanTree>, batch_size: usize)
    ensures
        plans_sized(ts, batch_size) matches Ok(done) ==> all_wrapper_count(done)
            == all_wrapper_count(ts) + all_wanted_count(ts),
    decreases ts,
{
    if ts.len() > 0 && plans_sized(ts, batch_size) is Ok {
        lemma_all_wanted_wrappers(ts.drop_last(), batch_size);
        sizing_adds_wanted_wrappers(ts.last(), batch_size);
        let before = plans_sized(ts.drop_last(), batch_size)->Ok_0;
        let done = plans_sized(ts, batch_size)->Ok_0;
        assert(done.drop_last() =~= before);
    }
}

/// One plan has its own wrappers alone.
proof fn lemma_single_count(ts: Seq<PlanTree>)
    requires
        ts.len() == 1,
    ensures
        all_wrapper_count(ts) == wrapper_count(ts[0]),
{
    assert(ts.drop_last() =~= Seq::<PlanTree>::empty());
    assert(all_wrapper_count(ts.drop_last()) == 0);
}

/// The plans are sized one by one, each by itself; the first that cannot be is the error of all.
pub proof fn inputs_are_sized_one_by_one(ts: Seq<PlanTree>, batch_size: usize, i: int)
    requires
        0 <= i < ts.len(),
    ensures
        plans_sized(ts, batch_size) matches Ok(done) ==> {
            &&& done.len() == ts.len()
            &&& plan_sized(ts[i], batch_size) == Ok::<PlanTree, nat>(done[i])
        },
        (forall|k: int| 0 <= k < ts.len() ==> plan_sized(#[trigger] ts[k], batch_size) is Ok)
            ==> plans_sized(ts, batch_size) is Ok,
        plan_sized(ts[i], batch_size) is Err && (forall|k: int|
            0 <= k < i ==> plan_sized(#[trigger] ts[k], batch_size) is Ok) ==> plans_sized(
            ts,
            batch_size,
        ) == Err::<Seq<PlanTree>, nat>(plan_sized(ts[i], batch_size)->Err_0),
    decreases ts.len(),
{
    lemma_plans_sized(ts, batch_size);
    let before = ts.drop_last();
    lemma_plans_sized(before, batch_size);
    assert forall|k: int| 0 <= k < before.len() implies before[k] == ts[k] by {}
    if plan_sized(ts[i], batch_size) is Err && (forall|k: int|
        0 <= k < i ==> plan_sized(#[trigger] ts[k], batch_size) is Ok) {
        if i < before.len() {
            assert forall|k: int| 0 <= k < i implies plan_sized(
                #[trigger] before[k],
                batch_size,
            ) is Ok by {
                assert(plan_sized(ts[k], batch_size) is Ok);
            }
            inputs_are_sized_one_by_one(before, batch_size, i);
        } else {
            assert forall|k: int| 0 <= k < before.len() implies plan_sized(
                #[trigger] before[k],
                batch_size,
            ) is Ok by {
                assert(plan_sized(ts[k], batch_size) is Ok);
            }
        }
    }
}

/// What becomes of each node, by what it is: a wrapper stays around its sized input, and an
/// operator that is no hash repartitioning stays over its sized inputs. A hash repartitioning comes
/// to stand in a wrapper of the given size, over its sized input, which stands in a wrapper of the
/// largest size where it is an aggregation; one with any other number of inputs is refused with
/// that number. What is wrong below a node is wrong with it.
pub proof fn each_node_by_what_it_is(
    id: usize,
    kind: OperatorKind,
    inputs: Seq<PlanTree>,
    input: PlanTree,
    size: usize,
    batch_size: usize,
)
    ensures
        plan_sized(PlanTree::LargeBatch(Box::new(input), size), batch_size) == match plan_sized(
            input,
            batch_size,
        ) {
            Ok(done) => Ok::<PlanTree, nat>(PlanTree::LargeBatch(Box::new(done), size)),
            Err(got) => Err(got),
        },
        kind != OperatorKind::HashRepartition ==> plan_sized(
            PlanTree::Operator(id, kind, inputs),
            batch_size,
        ) == match plans_sized(inputs, batch_size) {
            Ok(done) => Ok::<PlanTree, nat>(PlanTree::Operator(id, kind, done)),
            Err(got) => Err(got),
        },
        inputs.len() != 1 ==> plan_sized(
            PlanTree::Operator(id, OperatorKind::HashRepartition, inputs),
            batch_size,
        ) == match plans_sized(inputs, batch_size) {
            Ok(_) => Err::<PlanTree, nat>(inputs.len()),
            Err(got) => Err(got),
        },
        plan_sized(
            PlanTree::Operator(id, OperatorKind::HashRepartition, seq![input]),
            batch_size,
        ) == match plan_sized(input, batch_size) {
            Ok(done) => Ok::<PlanTree, nat>(
                PlanTree::LargeBatch(
                    Box::new(
                        PlanTree::Operator(
                            id,
                            OperatorKind::HashRepartition,
                            seq![
                                if is_kind(input, OperatorKind::Aggregate) {
                                    PlanTree::LargeBatch(Box::new(done), usize::MAX)
                                } else {
                                    done
                                },
                            ],
                        ),
                    ),
                    batch_size,
                ),
            ),
            Err(got) => Err(got),
        },
{
    lemma_plans_sized(inputs, batch_size);
    let one = seq![input];
    assert(one.drop_last() =~= Seq::<PlanTree>::empty());
    assert(plans_sized(Seq::<PlanTree>::empty(), batch_size) == Ok::<Seq<PlanTree>, nat>(
        Seq::empty(),
    ));
    if let Ok(done) = plan_sized(input, batch_size) {
        lemma_sizing_keeps_kind(input, batch_size, OperatorKind::Aggregate);
        assert(Seq::<PlanTree>::empty().push(done) =~= seq![done]);
        assert(plans_sized(one, batch_size) == Ok::<Seq<PlanTree>, nat>(seq![done]));
    }
}

/// An aggregation below a hash repartitioning: the former is wrapped to emit everything at once,
/// the latter to emit chunks, and the inputs of the aggregation are sized in the same way.
pub proof fn aggregate_below_shuffle(
    repartition: usize,
    aggregate: usize,
    inputs: Seq<PlanTree>,
    batch_size: usize,
)
    ensures
        plan_sized(
            PlanTree::Operator(
                repartition,
                OperatorKind::HashRepartition,
                seq![PlanTree::Operator(aggregate, OperatorKind::Aggregate, inputs)],
            ),
            batch_size,
        ) == match plans_sized(inputs, batch_size) {
            Ok(done) => Ok::<PlanTree, nat>(
                PlanTree::LargeBatch(
                    Box::new(
                        PlanTree::Operator(
                            repartition,
                            OperatorKind::HashRepartition,
                            seq![
                                PlanTree::LargeBatch(
                                    Box::new(
                                        PlanTree::Operator(
                                            aggregate,
                                            OperatorKind::Aggregate,
                                            done,
                                        ),
                                    ),
                                    usize::MAX,
                                ),
                            ],
                        ),
                    ),
                    batch_size,
                ),
            ),
            Err(got) => Err(got),
        },
{
    let below = PlanTree::Operator(aggregate, OperatorKind::Aggregate, inputs);
    let children = seq![below];
    assert(children.drop_last() =~= Seq::<PlanTree>::empty());
    assert(plans_sized(Seq::<PlanTree>::empty(), batch_size) == Ok::<Seq<PlanTree>, nat>(
        Seq::empty(),
    ));
    if let Ok(done) = plans_sized(inputs, batch_size) {
        let sized = PlanTree::Operator(aggregate, OperatorKind::Aggregate, done);
        assert(plan_sized(below, batch_size) == Ok::<PlanTree, nat>(sized));
        assert(Seq::<PlanTree>::empty().push(sized) =~= seq![sized]);
        assert(plans_sized(children, batch_size) == Ok::<Seq<PlanTree>, nat>(seq![sized]));
    } else {
        assert(plan_sized(below, batch_size) is Err);
    }
}

} // verus!
