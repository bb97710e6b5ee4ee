//! How the workers of a cluster are found.

use crate::distributed_config::{ConfigView, DistributedConfig};
use crate::error::{DistributedError, ErrorView};
use crate::session::{get_distributed_config, set_distributed_config};
use crate::session::{same_options, session_config_or_default, session_distributed_config};
use crate::session::{session_propagation_context, session_slots, SessionSlot};
use crate::shared::Shared;
use datafusion::prelude::SessionConfig;
use std::sync::Arc;
use url::Url;
use vstd::prelude::*;

verus! {

#[verifier::external_type_specification]
#[verifier::external_body]
pub struct ExUrl(Url);

/// Resolves a list of worker URLs in the cluster available for executing parts of the plan.
pub trait WorkerResolver: Send + Sync {
    /// Gets all available worker URLs in the cluster. Note how this method is not async, which
    /// means that any async operation involved in discovering worker URLs must happen on a
    /// background thread and be retrieved by this method synchronously.
    ///
    /// This method will be called in several places during distributed planning:
    /// - During task count assignation for the different stages, for determining the size of
    ///   the cluster and limiting the amount of tasks per stage to Vec<Url>.length().
    /// - Right before execution, for lazily assigning worker URLs to the different tasks in the
    ///   plan. This is done as close to execution in order to have fresh worker URLs as updated
    ///   as possible.
    fn get_urls(&self) -> Result<Vec<Url>, DistributedError>;
}

/// `r` is an answer of `resolver`: something that its `get_urls` can return.
pub open spec fn is_answer_of<R: WorkerResolver + ?Sized>(
    resolver: &R,
    r: Result<Vec<Url>, DistributedError>,
) -> bool {
    call_ensures(R::get_urls, (resolver,), r)
}

/// The answer of `resolver`.
fn ask<R: WorkerResolver + ?Sized>(resolver: &R) -> (r: Result<Vec<Url>, DistributedError>)
    ensures
        is_answer_of(resolver, r),
{
    resolver.get_urls()
}

impl WorkerResolver for Arc<dyn WorkerResolver> {
    /// What the shared resolver answers.
    fn get_urls(&self) -> (r: Result<Vec<Url>, DistributedError>)
        ensures
            is_answer_of::<dyn WorkerResolver>(&**self, r),
    {
        ask::<dyn WorkerResolver>(&**self)
    }
}

/// The resolver that a configuration carries: one that a user provided, or none yet.
pub enum WorkerResolverExtension {
    NotImplemented,
    Provided(Shared<dyn WorkerResolver>),
}

impl Clone for WorkerResolverExtension {
    fn clone(&self) -> (r: WorkerResolverExtension)
        ensures
            r == *self,
    {
        match self {
            WorkerResolverExtension::NotImplemented => WorkerResolverExtension::NotImplemented,
            WorkerResolverExtension::Provided(resolver) => WorkerResolverExtension::Provided(
                resolver.clone(),
            ),
        }
    }
}

impl WorkerResolverExtension {
    /// The resolver of a configuration for which nobody provided one.
    pub fn not_implemented() -> (r: WorkerResolverExtension)
        ensures
            r == WorkerResolverExtension::NotImplemented,
    {
        WorkerResolverExtension::NotImplemented
    }
}

impl WorkerResolver for WorkerResolverExtension {
    /// What the provided resolver answers, and an error as long as there is none.
    fn get_urls(&self) -> (r: Result<Vec<Url>, DistributedError>)
        ensures
            *self is NotImplemented ==> r is Err && r->Err_0@ == ErrorView::NotImplemented(
                "WorkerResolver::get_urls() not implemented"@,
            ),
            *self matches WorkerResolverExtension::Provided(resolver) ==> is_answer_of::<
                dyn WorkerResolver,
            >(&*resolver.ptr, r),
    {
        match self {
            WorkerResolverExtension::NotImplemented => Err(
                DistributedError::NotImplemented(
                    "WorkerResolver::get_urls() not implemented".to_owned(),
                ),
            ),
            WorkerResolverExtension::Provided(resolver) => ask::<dyn WorkerResolver>(&*resolver.ptr),
        }
    }
}

/// Puts `worker_resolver` into the [`DistributedConfig`] of the session, which is the default one
/// for this kind of build where the session has none yet.
pub fn set_distributed_worker_resolver(
    cfg: &mut SessionConfig,
    worker_resolver: Shared<dyn WorkerResolver>,
    test_build: bool,
)
    ensures
        session_distributed_config(*final(cfg)) is Some,
        session_distributed_config(*final(cfg))->0@ == (ConfigView {
            worker_resolver: WorkerResolverExtension::Provided(worker_resolver),
            ..session_config_or_default(*old(cfg), test_build)
        }),
        session_slots(*final(cfg)).remove(SessionSlot::DistributedConfig) == session_slots(*old(cfg)).remove(
            SessionSlot::DistributedConfig,
        ),
        session_propagation_context(*final(cfg)) == session_propagation_context(*old(cfg)),
        same_options(*final(cfg), *old(cfg)),
{
    let mut distributed_cfg: DistributedConfig = match get_distributed_config(cfg) {
        Some(d) => (*d).clone(),
        None => DistributedConfig::default_for(test_build),
    };
    distributed_cfg.__private_worker_resolver = WorkerResolverExtension::Provided(worker_resolver);
    set_distributed_config(cfg, Arc::new(distributed_cfg));
}

/// The resolver of the session's [`DistributedConfig`].
pub fn get_distributed_worker_resolver(cfg: &SessionConfig) -> (r: Result<
    WorkerResolverExtension,
    DistributedError,
>)
    ensures
        match session_distributed_config(*cfg) {
            Some(d) => r == Ok::<WorkerResolverExtension, DistributedError>(d@.worker_resolver),
            None => r is Err && r->Err_0@ == ErrorView::Execution(
                "WorkerResolver not present in the session config"@,
            ),
        },
{
    match get_distributed_config(cfg) {
        Some(d) => Ok(d.__private_worker_resolver.clone()),
        None => Err(
            DistributedError::Execution(
                "WorkerResolver not present in the session config".to_owned(),
            ),
        ),
    }
}

/// An answer of a resolver is something that its own `get_urls` returns.
pub proof fn answers_come_from_the_resolver<R: WorkerResolver + ?Sized>(
    resolver: &R,
    r: Result<Vec<Url>, DistributedError>,
)
    requires
        is_answer_of(resolver, r),
    ensures
        call_ensures(R::get_urls, (resolver,), r),
{
}

} // verus!
