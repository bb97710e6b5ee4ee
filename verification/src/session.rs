//! What this library keeps in DataFusion's sessions and tasks.
//!
//! A [`SessionConfig`] holds opaque extensions, one for each Rust type, and configuration options.
//! Of the extensions this library reads and writes two; of the options, the registered option
//! extensions and the batch size. What extensions of other types hold is known to their owners
//! alone: here numbers stand for those types and for what they hold.

use crate::config_extension_ext::ConfigExtensionPropagationContext;
use crate::distributed_config::{default_config, ConfigView, DistributedConfig};
use crate::text::decimal;
use datafusion::execution::runtime_env::RuntimeEnv;
use datafusion::execution::TaskContext;
use datafusion::logical_expr::{AggregateUDF, HigherOrderUDF, ScalarUDF, WindowUDF};
use datafusion::prelude::SessionConfig;
use std::collections::HashMap;
use std::sync::Arc;
use vstd::prelude::*;

verus! {

#[verifier::external_type_specification]
#[verifier::external_body]
pub struct ExSessionConfig(SessionConfig);

#[verifier::external_type_specification]
#[verifier::external_body]
pub struct ExTaskContext(TaskContext);

/// The opaque extensions of a session, by their type.
pub enum SessionSlot {
    DistributedConfig,
    PropagationContext,
    /// The type of this number, which is none of this library's.
    Other(int),
}

/// What a [`SessionSlot`] holds.
pub enum SessionValue {
    DistributedConfig(DistributedConfig),
    PropagationContext(ConfigExtensionPropagationContext),
    /// The value of this number, which is of a type that is none of this library's.
    Other(int),
}

/// The opaque extensions of a session.
pub uninterp spec fn session_slots(cfg: SessionConfig) -> Map<SessionSlot, SessionValue>;

/// The option extensions of a session, in the order in which they are walked: the prefix of each
/// and the entries stored in it, which are keys and the values that they have.
pub uninterp spec fn session_option_extensions(cfg: SessionConfig) -> Seq<
    (Seq<char>, Seq<(Seq<char>, Option<Seq<char>>)>),
>;

/// The batch size of a session.
pub uninterp spec fn session_batch_size(cfg: SessionConfig) -> usize;

/// The options that DataFusion itself knows, by key: the text of each, where it has a value. The
/// batch size is one of them; the option extensions are not.
pub uninterp spec fn session_builtin_options(cfg: SessionConfig) -> Map<
    Seq<char>,
    Option<Seq<char>>,
>;

/// The session configuration of a task.
pub uninterp spec fn task_session_config(ctx: TaskContext) -> SessionConfig;

/// The [`DistributedConfig`] of a session.
pub open spec fn session_distributed_config(cfg: SessionConfig) -> Option<DistributedConfig> {
    let slots = session_slots(cfg);
    if slots.dom().contains(SessionSlot::DistributedConfig) {
        Some(slots[SessionSlot::DistributedConfig]->DistributedConfig_0)
    } else {
        None
    }
}

/// The propagation context of a session.
pub open spec fn session_propagation_context(cfg: SessionConfig) -> Option<
    ConfigExtensionPropagationContext,
> {
    let slots = session_slots(cfg);
    if slots.dom().contains(SessionSlot::PropagationContext) {
        Some(slots[SessionSlot::PropagationContext]->PropagationContext_0)
    } else {
        None
    }
}

/// The distributed configuration that a session starts from: its own, or the default one, in test
/// builds and in all others.
pub open spec fn session_config_or_default(cfg: SessionConfig, test_build: bool) -> ConfigView {
    match session_distributed_config(cfg) {
        Some(d) => d@,
        None => default_config(test_build),
    }
}

/// The prefixes that a session propagates.
pub open spec fn session_propagated_prefixes(cfg: SessionConfig) -> Seq<Seq<char>> {
    match session_propagation_context(cfg) {
        Some(c) => c@,
        None => Seq::empty(),
    }
}

/// The two sessions have the same options: the option extensions with their entries, the batch size
/// and all the others.
pub open spec fn same_options(a: SessionConfig, b: SessionConfig) -> bool {
    &&& session_option_extensions(a) == session_option_extensions(b)
    &&& session_batch_size(a) == session_batch_size(b)
    &&& session_builtin_options(a) == session_builtin_options(b)
}

/// [`SessionConfig::get_extension`] for [`DistributedConfig`]: what the slot of that type holds.
#[verifier::external_body]
pub(crate) fn get_distributed_config(cfg: &SessionConfig) -> (r: Option<Arc<DistributedConfig>>)
    ensures
        r is Some <==> session_slots(*cfg).dom().contains(SessionSlot::DistributedConfig),
        r matches Some(d) ==> session_slots(*cfg)[SessionSlot::DistributedConfig]
            == SessionValue::DistributedConfig(*d),
{
    cfg.get_extension::<DistributedConfig>()
}

/// [`SessionConfig::set_extension`] for [`DistributedConfig`]: fills the slot of that type, and
/// changes nothing else.
#[verifier::external_body]
pub(crate) fn set_distributed_config(cfg: &mut SessionConfig, d: Arc<DistributedConfig>)
    ensures
        session_slots(*final(cfg)) == session_slots(*old(cfg)).insert(
            SessionSlot::DistributedConfig,
            SessionValue::DistributedConfig(*d),
        ),
        same_options(*final(cfg), *old(cfg)),
{
    cfg.set_extension(d)
}

/// [`SessionConfig::get_extension`] for [`ConfigExtensionPropagationContext`]: what the slot of
/// that type holds.
#[verifier::external_body]
pub(crate) fn get_propagation_context(cfg: &SessionConfig) -> (r: Option<
    Arc<ConfigExtensionPropagationContext>,
>)
    ensures
        r is Some <==> session_slots(*cfg).dom().contains(SessionSlot::PropagationContext),
        r matches Some(c) ==> session_slots(*cfg)[SessionSlot::PropagationContext]
            == SessionValue::PropagationContext(*c),
{
    cfg.get_extension::<ConfigExtensionPropagationContext>()
}

/// [`SessionConfig::set_extension`] for [`ConfigExtensionPropagationContext`]: fills the slot of
/// that type, and changes nothing else.
#[verifier::external_body]
pub(crate) fn set_propagation_context(
    cfg: &mut SessionConfig,
    c: Arc<ConfigExtensionPropagationContext>,
)
    ensures
        session_slots(*final(cfg)) == session_slots(*old(cfg)).insert(
            SessionSlot::PropagationContext,
            SessionValue::PropagationContext(*c),
        ),
        same_options(*final(cfg), *old(cfg)),
{
    cfg.set_extension(c)
}

/// [`TaskContext::session_config`]: the session configuration of the task.
pub assume_specification[ TaskContext::session_config ](ctx: &TaskContext) -> (r: &SessionConfig)
    ensures
        *r == task_session_config(*ctx),
;

/// The `Clone` of [`SessionConfig`]: the copy holds the same.
pub assume_specification[ <SessionConfig as Clone>::clone ](cfg: &SessionConfig) -> (r: SessionConfig)
    ensures
        session_slots(r) == session_slots(*cfg),
        same_options(r, *cfg),
;

/// The two lists hold the same option extensions: the same prefixes in the same order, and under
/// each prefix the same entries in any order.
pub open spec fn same_extensions(
    a: Seq<(Seq<char>, Seq<(Seq<char>, Option<Seq<char>>)>)>,
    b: Seq<(Seq<char>, Seq<(Seq<char>, Option<Seq<char>>)>)>,
) -> bool {
    &&& a.len() == b.len()
    &&& forall|i: int|
        0 <= i < a.len() ==> (#[trigger] a[i]).0 == b[i].0 && a[i].1.to_multiset()
            == b[i].1.to_multiset()
}

/// `b` has the options of `a`, but for the batch size, which is `n`. The entries of an option
/// extension may stand in another order.
pub open spec fn differs_in_batch_size(a: SessionConfig, b: SessionConfig, n: usize) -> bool {
    &&& session_batch_size(b) == n
    &&& session_builtin_options(b) == session_builtin_options(a).insert(
        "datafusion.execution.batch_size"@,
        Some(decimal(n as nat)),
    )
    &&& same_extensions(session_option_extensions(b), session_option_extensions(a))
}

/// [`SessionConfig::with_batch_size`]: sets the batch size, which must not be zero, and keeps all
/// other options and the opaque extensions. The option extensions may be copied on the way, by
/// `ExtensionOptions::cloned`, which its documentation asks to be a deep copy; a copy may give its
/// entries in another order.
pub assume_specification[ SessionConfig::with_batch_size ](cfg: SessionConfig, n: usize) -> (r:
    SessionConfig)
    requires
        n > 0,
    ensures
        session_batch_size(r) == n,
        session_builtin_options(r) == session_builtin_options(cfg).insert(
            "datafusion.execution.batch_size"@,
            Some(decimal(n as nat)),
        ),
        same_extensions(session_option_extensions(r), session_option_extensions(cfg)),
        session_slots(r) == session_slots(cfg),
;

/// What the option extension registered under a prefix says it holds.
pub struct OptionExtension {
    pub prefix: &'static str,
    pub entries: Vec<ExtensionEntry>,
}

/// One entry of an option extension: its key and its value, if it has one.
pub struct ExtensionEntry {
    pub key: String,
    pub value: Option<String>,
}

impl View for ExtensionEntry {
    type V = (Seq<char>, Option<Seq<char>>);

    open spec fn view(&self) -> (Seq<char>, Option<Seq<char>>) {
        (
            self.key@,
            match self.value {
                Some(v) => Some(v@),
                None => None,
            },
        )
    }
}

impl View for OptionExtension {
    type V = (Seq<char>, Seq<(Seq<char>, Option<Seq<char>>)>);

    open spec fn view(&self) -> (Seq<char>, Seq<(Seq<char>, Option<Seq<char>>)>) {
        (self.prefix@, self.entries@.map_values(|e: ExtensionEntry| e@))
    }
}

/// `Extensions::iter` on the options of the session: the prefixes of the option extensions, in the
/// order in which they are walked.
#[verifier::external_body]
pub(crate) fn option_prefixes(cfg: &SessionConfig) -> (r: Vec<&'static str>)
    ensures
        r@.len() == session_option_extensions(*cfg).len(),
        forall|i: int|
            0 <= i < r@.len() ==> (#[trigger] r@[i])@ == session_option_extensions(*cfg)[i].0,
{
    cfg.options().extensions.iter().map(|(prefix, _)| prefix).collect()
}

/// `ExtensionOptions::entries` of the option extension at `index`: the entries stored in it, as the
/// documentation of that method asks of the types that implement it.
#[verifier::external_body]
pub(crate) fn option_entries(cfg: &SessionConfig, index: usize) -> (r: Vec<ExtensionEntry>)
    requires
        index < session_option_extensions(*cfg).len(),
    ensures
        r@.map_values(|e: ExtensionEntry| e@) == session_option_extensions(*cfg)[index as int].1,
{
    let (_, extension) = cfg.options().extensions.iter().nth(index).unwrap();
    let entries = extension.entries().into_iter();
    entries.map(|e| ExtensionEntry { key: e.key, value: e.value }).collect()
}

#[verifier::external_type_specification]
#[verifier::external_body]
pub struct ExScalarUDF(ScalarUDF);

#[verifier::external_type_specification]
#[verifier::external_body]
pub struct ExHigherOrderUDF(HigherOrderUDF);

#[verifier::external_type_specification]
#[verifier::external_body]
pub struct ExAggregateUDF(AggregateUDF);

#[verifier::external_type_specification]
#[verifier::external_body]
pub struct ExWindowUDF(WindowUDF);

#[verifier::external_type_specification]
#[verifier::external_body]
pub struct ExRuntimeEnv(RuntimeEnv);

/// What a task holds beside its session configuration.
pub struct TaskServices {
    pub task_id: Option<Seq<char>>,
    pub session_id: Seq<char>,
    pub scalar_functions: Map<String, Arc<ScalarUDF>>,
    pub higher_order_functions: Map<String, Arc<HigherOrderUDF>>,
    pub aggregate_functions: Map<String, Arc<AggregateUDF>>,
    pub window_functions: Map<String, Arc<WindowUDF>>,
    pub runtime_env: Arc<RuntimeEnv>,
}

/// What a task holds beside its session configuration.
pub uninterp spec fn task_services(ctx: TaskContext) -> TaskServices;

/// The text that may be there.
pub open spec fn optional_text(s: Option<String>) -> Option<Seq<char>> {
    match s {
        Some(t) => Some(t@),
        None => None,
    }
}

/// [`TaskContext::new`]: the task holds what it is given.
pub assume_specification[ TaskContext::new ](
    task_id: Option<String>,
    session_id: String,
    session_config: SessionConfig,
    scalar_functions: HashMap<String, Arc<ScalarUDF>>,
    higher_order_functions: HashMap<String, Arc<HigherOrderUDF>>,
    aggregate_functions: HashMap<String, Arc<AggregateUDF>>,
    window_functions: HashMap<String, Arc<WindowUDF>>,
    runtime: Arc<RuntimeEnv>,
) -> (r: TaskContext)
    ensures
        task_session_config(r) == session_config,
        task_services(r) == (TaskServices {
            task_id: optional_text(task_id),
            session_id: session_id@,
            scalar_functions: scalar_functions@,
            higher_order_functions: higher_order_functions@,
            aggregate_functions: aggregate_functions@,
            window_functions: window_functions@,
            runtime_env: runtime,
        }),
;

/// [`TaskContext::task_id`]: the identifier of the task, if it has one.
pub assume_specification[ TaskContext::task_id ](ctx: &TaskContext) -> (r: Option<String>)
    ensures
        optional_text(r) == task_services(*ctx).task_id,
;

/// [`TaskContext::session_id`]: the identifier of the session.
pub assume_specification[ TaskContext::session_id ](ctx: &TaskContext) -> (r: String)
    ensures
        r@ == task_services(*ctx).session_id,
;

/// [`TaskContext::scalar_functions`]: the scalar functions of the task, by name.
pub assume_specification[ TaskContext::scalar_functions ](ctx: &TaskContext) -> (r: &HashMap<
    String,
    Arc<ScalarUDF>,
>)
    ensures
        r@ == task_services(*ctx).scalar_functions,
;

/// [`TaskContext::higher_order_functions`]: the higher-order functions of the task, by name.
pub assume_specification[ TaskContext::higher_order_functions ](ctx: &TaskContext) -> (r: &HashMap<
    String,
    Arc<HigherOrderUDF>,
>)
    ensures
        r@ == task_services(*ctx).higher_order_functions,
;

/// [`TaskContext::aggregate_functions`]: the aggregate functions of the task, by name.
pub assume_specification[ TaskContext::aggregate_functions ](ctx: &TaskContext) -> (r: &HashMap<
    String,
    Arc<AggregateUDF>,
>)
    ensures
        r@ == task_services(*ctx).aggregate_functions,
;

/// [`TaskContext::window_functions`]: the window functions of the task, by name.
pub assume_specification[ TaskContext::window_functions ](ctx: &TaskContext) -> (r: &HashMap<
    String,
    Arc<WindowUDF>,
>)
    ensures
        r@ == task_services(*ctx).window_functions,
;

/// [`TaskContext::runtime_env`]: the runtime environment of the task.
pub assume_specification[ TaskContext::runtime_env ](ctx: &TaskContext) -> (r: Arc<RuntimeEnv>)
    ensures
        r == task_services(*ctx).runtime_env,
;

/// What a session has of this library is what the slots of its two types hold.
pub proof fn slots_show_what_a_session_has(
    cfg: SessionConfig,
    d: DistributedConfig,
    c: ConfigExtensionPropagationContext,
    test_build: bool,
)
    ensures
        !session_slots(cfg).dom().contains(SessionSlot::DistributedConfig) ==> {
            &&& session_distributed_config(cfg) is None
            &&& session_config_or_default(cfg, test_build) == default_config(test_build)
        },
        session_slots(cfg).dom().contains(SessionSlot::DistributedConfig) && session_slots(
            cfg,
        )[SessionSlot::DistributedConfig] == SessionValue::DistributedConfig(d) ==> {
            &&& session_distributed_config(cfg) == Some(d)
            &&& session_config_or_default(cfg, test_build) == d@
        },
        !session_slots(cfg).dom().contains(SessionSlot::PropagationContext) ==> {
            &&& session_propagation_context(cfg) is None
            &&& session_propagated_prefixes(cfg).len() == 0
        },
        session_slots(cfg).dom().contains(SessionSlot::PropagationContext) && session_slots(
            cfg,
        )[SessionSlot::PropagationContext] == SessionValue::PropagationContext(c) ==> {
            &&& session_propagation_context(cfg) == Some(c)
            &&& session_propagated_prefixes(cfg) == c@
        },
{
}

/// Sessions with the same options agree in every one of them; those that differ in the batch size
/// agree in every other.
pub proof fn same_options_are_all_the_same(a: SessionConfig, b: SessionConfig, n: usize)
    ensures
        same_options(a, b) ==> {
            &&& session_option_extensions(a) == session_option_extensions(b)
            &&& session_batch_size(a) == session_batch_size(b)
            &&& session_builtin_options(a) == session_builtin_options(b)
        },
        differs_in_batch_size(a, b, n) ==> {
            &&& session_batch_size(b) == n
            &&& session_builtin_options(b).remove("datafusion.execution.batch_size"@)
                == session_builtin_options(a).remove("datafusion.execution.batch_size"@)
            &&& session_option_extensions(b).len() == session_option_extensions(a).len()
            &&& forall|i: int|
                0 <= i < session_option_extensions(a).len() ==> {
                    &&& (#[trigger] session_option_extensions(a)[i]).0 == session_option_extensions(
                        b,
                    )[i].0
                    &&& session_option_extensions(a)[i].1.to_multiset()
                        == session_option_extensions(b)[i].1.to_multiset()
                }
        },
{
    if differs_in_batch_size(a, b, n) {
        assert(session_builtin_options(b).remove("datafusion.execution.batch_size"@)
            =~= session_builtin_options(a).remove("datafusion.execution.batch_size"@));
        assert forall|i: int| 0 <= i < session_option_extensions(a).len() implies {
            &&& (#[trigger] session_option_extensions(a)[i]).0 == session_option_extensions(b)[i].0
            &&& session_option_extensions(a)[i].1.to_multiset() == session_option_extensions(
                b,
            )[i].1.to_multiset()
        } by {
            assert(session_option_extensions(b)[i].0 == session_option_extensions(a)[i].0);
        }
    }
}

/// The view of an option extension shows its prefix and each of its entries.
pub proof fn view_shows_each_entry(e: OptionExtension, i: int)
    ensures
        e@.0 == e.prefix@,
        e@.1.len() == e.entries@.len(),
        0 <= i < e.entries@.len() ==> {
            &&& e@.1[i].0 == e.entries@[i].key@
            &&& e@.1[i].1 is Some <==> e.entries@[i].value is Some
            &&& e.entries@[i].value matches Some(v) ==> e@.1[i].1 == Some(v@)
        },
{
    if 0 <= i < e.entries@.len() {
        assert(e@.1[i] == e.entries@[i]@);
    }
}

} // verus!
