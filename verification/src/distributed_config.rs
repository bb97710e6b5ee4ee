//! The configuration of the distributed planner.

use crate::error::{DistributedError, ErrorView};
use crate::session::{get_distributed_config, session_distributed_config, task_session_config};
use crate::shared::Shared;
use crate::worker_resolver::WorkerResolverExtension;
use datafusion::execution::TaskContext;
use std::sync::Arc;
use vstd::prelude::*;

verus! {

/// Estimates how many tasks the stage of a leaf node should have.
pub trait TaskEstimator: Send + Sync {

}

/// Opens channels to the workers.
pub trait ChannelResolver: Send + Sync {

}

/// Finds the work unit feeds of a plan node.
pub trait WorkUnitFeedGetter: Send + Sync {

}

/// The task estimators, in the order in which they are asked.
pub struct CombinedTaskEstimator {
    pub user_provided: Vec<Shared<dyn TaskEstimator>>,
}

/// The getters that, applied to each node of a plan, give the work unit feeds of all nodes.
pub struct WorkUnitFeedRegistry {
    pub getters: Vec<Shared<dyn WorkUnitFeedGetter>>,
}

/// Configuration for the distributed planner.
///
/// Stored in `SessionConfig.extensions`
pub struct DistributedConfig {
    /// Sets the number of bytes each partition is expected to scan from parquet files. If
    /// more partitions than the ones available in one machine would be needed, several machines
    /// are used, and the scan is distributed.
    /// Lowering this number will increase parallelism.
    pub file_scan_config_bytes_per_partition: usize,
    /// Task multiplying factor for when a node declares that it changes the cardinality
    /// of the data:
    /// - If a node is increasing the cardinality of the data, this factor will increase.
    /// - If a node reduces the cardinality of the data, this factor will decrease.
    /// - In any other situation, this factor is left intact.
    ///
    /// Kept as the bits of a double-precision number.
    pub cardinality_task_count_factor: u64,
    /// When encountering a UNION operation, isolate its children depending on the task context.
    /// For example, on a UNION operation with 3 children running in 3 distributed tasks,
    /// instead of executing the 3 children in each 3 tasks with a DistributedTaskContext of
    /// 1/3, 2/3, and 3/3 respectively, Execute:
    /// - The first child in the first task with a DistributedTaskContext of 1/1
    /// - The second child in the second task with a DistributedTaskContext of 1/1
    /// - The third child in the third task with a DistributedTaskContext of 1/1
    pub children_isolator_unions: bool,
    /// Propagate collected metrics from all nodes in the plan across network boundaries
    /// so that they can be reconstructed on the head node of the plan.
    pub collect_metrics: bool,
    /// Enable broadcast joins for CollectLeft hash joins. When enabled, the build side of
    /// a CollectLeft join is broadcast to all consumer tasks. Broadcasting all CollectLeft joins
    /// is not always beneficial.
    pub broadcast_joins: bool,
    /// The compression used for sending data over the network between workers.
    /// It can be set to either `zstd`, `lz4` or `none`.
    pub compression: String,
    /// Overrides `datafusion.execution.batch_size` for worker-executed stages. Because
    /// `RepartitionExec` reads `session_config().batch_size()` at execute time to size its
    /// output batches (via its internal `LimitedBatchCoalescer`), this knob lets users tune
    /// shuffle batch sizes independently of the global `datafusion.execution.batch_size`.
    ///
    /// Set to 0 (the default) to apply no override and inherit `datafusion.execution.batch_size`.
    pub shuffle_batch_size: usize,
    /// Maximum tasks that will be assigned per stage during distributed planning.
    /// If set to 0, this value is the number of workers returned by the provided `WorkerResolver`.
    /// It defaults to 0.
    pub max_tasks_per_stage: usize,
    /// Enable the PartialReduce optimization, which inserts an extra aggregation pass
    /// above hash RepartitionExec before network shuffles to reduce shuffle data size.
    /// Disabled by default because its effectiveness is workload-dependent: it helps when
    /// aggregation significantly reduces cardinality, but adds overhead when it does not.
    pub partial_reduce: bool,
    /// Soft byte budget that each per-worker connection will buffer in memory before pausing
    /// the gRPC pull from that worker. Per-partition channels are unbounded (to avoid
    /// head-of-line blocking between sibling partitions), so backpressure is enforced
    /// globally per worker connection using this budget. A single message larger than this
    /// budget will still be admitted (otherwise we would livelock), so the actual peak per
    /// connection is `worker_connection_buffer_budget_bytes + max_message_size`.
    pub worker_connection_buffer_budget_bytes: usize,
    /// Calculates the task count of the different stages at execution time, based on runtime
    /// information collected by sampling at the head of the stages.
    ///
    /// With this option enabled, the shape of the distributed plan is only known after fully
    /// executing it, as it's dynamically created on the fly during execution.
    pub dynamic_task_count: bool,
    /// If `dynamic_task_count` is enabled, this value is the amount of bytes/second each
    /// partition is expected to handle. Lower values will result in greater parallelism.
    pub bytes_per_partition_per_second: usize,
    /// Collection of [TaskEstimator]s that will be applied to leaf nodes in order to
    /// estimate how many tasks should be spawned for the stage containing the leaf node.
    pub __private_task_estimator: CombinedTaskEstimator,
    /// [ChannelResolver] implementation that opens the channels to the workers, if one was set.
    pub __private_channel_resolver: Option<Shared<dyn ChannelResolver>>,
    /// [WorkerResolver](crate::worker_resolver::WorkerResolver) implementation that tells the
    /// distributed planner information about the available workers ready to execute distributed
    /// tasks.
    pub __private_worker_resolver: WorkerResolverExtension,
    /// [WorkUnitFeedRegistry] that contains a set of getters that, applied to each node in a
    /// plan, will return the work unit feeds present in all nodes.
    pub __private_work_unit_feed_registry: WorkUnitFeedRegistry,
}

/// What a [`DistributedConfig`] holds.
#[verifier::ext_equal]
pub struct ConfigView {
    pub file_scan_config_bytes_per_partition: usize,
    pub cardinality_task_count_factor: u64,
    pub children_isolator_unions: bool,
    pub collect_metrics: bool,
    pub broadcast_joins: bool,
    pub compression: Seq<char>,
    pub shuffle_batch_size: usize,
    pub max_tasks_per_stage: usize,
    pub partial_reduce: bool,
    pub worker_connection_buffer_budget_bytes: usize,
    pub dynamic_task_count: bool,
    pub bytes_per_partition_per_second: usize,
    pub task_estimators: Seq<Shared<dyn TaskEstimator>>,
    pub channel_resolver: Option<Shared<dyn ChannelResolver>>,
    pub worker_resolver: WorkerResolverExtension,
    pub work_unit_feed_getters: Seq<Shared<dyn WorkUnitFeedGetter>>,
}

impl View for DistributedConfig {
    type V = ConfigView;

    open spec fn view(&self) -> ConfigView {
        ConfigView {
            file_scan_config_bytes_per_partition: self.file_scan_config_bytes_per_partition,
            cardinality_task_count_factor: self.cardinality_task_count_factor,
            children_isolator_unions: self.children_isolator_unions,
            collect_metrics: self.collect_metrics,
            broadcast_joins: self.broadcast_joins,
            compression: self.compression@,
            shuffle_batch_size: self.shuffle_batch_size,
            max_tasks_per_stage: self.max_tasks_per_stage,
            partial_reduce: self.partial_reduce,
            worker_connection_buffer_budget_bytes: self.worker_connection_buffer_budget_bytes,
            dynamic_task_count: self.dynamic_task_count,
            bytes_per_partition_per_second: self.bytes_per_partition_per_second,
            task_estimators: self.__private_task_estimator.user_provided@,
            channel_resolver: self.__private_channel_resolver,
            worker_resolver: self.__private_worker_resolver,
            work_unit_feed_getters: self.__private_work_unit_feed_registry.getters@,
        }
    }
}

/// The bits of the double-precision number 1.0.
pub const FACTOR_ONE: u64 = 0x3FF0_0000_0000_0000;

/// The bits of the double-precision number 1.5.
pub const FACTOR_ONE_AND_A_HALF: u64 = 0x3FF8_0000_0000_0000;

/// The default configuration, in test builds and in all others.
pub open spec fn default_config(test_build: bool) -> ConfigView {
    ConfigView {
        file_scan_config_bytes_per_partition: (16 * 1024 * 1024) as usize,
        cardinality_task_count_factor: if test_build {
            FACTOR_ONE_AND_A_HALF
        } else {
            FACTOR_ONE
        },
        children_isolator_unions: true,
        collect_metrics: true,
        broadcast_joins: false,
        compression: "lz4"@,
        shuffle_batch_size: 0,
        max_tasks_per_stage: 0,
        partial_reduce: false,
        worker_connection_buffer_budget_bytes: (64 * 1024 * 1024) as usize,
        dynamic_task_count: false,
        bytes_per_partition_per_second: (16 * 1024 * 1024) as usize,
        task_estimators: Seq::empty(),
        channel_resolver: None,
        worker_resolver: WorkerResolverExtension::NotImplemented,
        work_unit_feed_getters: Seq::empty(),
    }
}

/// The default of `cardinality_task_count_factor`, as the bits of a double-precision number: 1.5
/// in test builds, so that tests see more than one task, and 1.0 in all others.
pub fn cardinality_task_count_factor_default(test_build: bool) -> (r: u64)
    ensures
        r == (if test_build {
            FACTOR_ONE_AND_A_HALF
        } else {
            FACTOR_ONE
        }),
{
    if test_build {
        FACTOR_ONE_AND_A_HALF
    } else {
        FACTOR_ONE
    }
}

impl Default for DistributedConfig {
    /// The default of builds that are no test builds.
    fn default() -> (r: DistributedConfig)
        ensures
            r@ == default_config(false),
    {
        DistributedConfig::default_for(false)
    }
}

impl Clone for DistributedConfig {
    fn clone(&self) -> (r: DistributedConfig)
        ensures
            r@ == self@,
    {
        let channel_resolver: Option<Shared<dyn ChannelResolver>> = match &self.__private_channel_resolver {
            Some(c) => Some(c.clone()),
            None => None,
        };
        DistributedConfig {
            file_scan_config_bytes_per_partition: self.file_scan_config_bytes_per_partition,
            cardinality_task_count_factor: self.cardinality_task_count_factor,
            children_isolator_unions: self.children_isolator_unions,
            collect_metrics: self.collect_metrics,
            broadcast_joins: self.broadcast_joins,
            compression: self.compression.clone(),
            shuffle_batch_size: self.shuffle_batch_size,
            max_tasks_per_stage: self.max_tasks_per_stage,
            partial_reduce: self.partial_reduce,
            worker_connection_buffer_budget_bytes: self.worker_connection_buffer_budget_bytes,
            dynamic_task_count: self.dynamic_task_count,
            bytes_per_partition_per_second: self.bytes_per_partition_per_second,
            __private_task_estimator: CombinedTaskEstimator {
                user_provided: self.__private_task_estimator.user_provided.clone(),
            },
            __private_channel_resolver: channel_resolver,
            __private_worker_resolver: self.__private_worker_resolver.clone(),
            __private_work_unit_feed_registry: WorkUnitFeedRegistry {
                getters: self.__private_work_unit_feed_registry.getters.clone(),
            },
        }
    }
}

impl DistributedConfig {
    /// The default configuration, in test builds and in all others.
    pub fn default_for(test_build: bool) -> (r: DistributedConfig)
        ensures
            r@ == default_config(test_build),
    {
        DistributedConfig {
            file_scan_config_bytes_per_partition: 16 * 1024 * 1024,
            cardinality_task_count_factor: cardinality_task_count_factor_default(
                test_build,
            ),
            children_isolator_unions: true,
            collect_metrics: true,
            broadcast_joins: false,
            compression: "lz4".to_owned(),
            shuffle_batch_size: 0,
            max_tasks_per_stage: 0,
            partial_reduce: false,
            worker_connection_buffer_budget_bytes: 64 * 1024 * 1024,
            dynamic_task_count: false,
            bytes_per_partition_per_second: 16 * 1024 * 1024,
            __private_task_estimator: CombinedTaskEstimator { user_provided: Vec::new() },
            __private_channel_resolver: None,
            __private_worker_resolver: WorkerResolverExtension::not_implemented(),
            __private_work_unit_feed_registry: WorkUnitFeedRegistry { getters: Vec::new() },
        }
    }

    /// Appends a [TaskEstimator] to the list. [TaskEstimator] will be executed sequentially in
    /// order on leaf nodes, and the first one to provide a value is the one that gets to decide
    /// how many tasks are used for that stage.
    pub fn with_task_estimator(self, task_estimator: Shared<dyn TaskEstimator>) -> (r: Self)
        ensures
            r@ == (ConfigView {
                task_estimators: self@.task_estimators.push(task_estimator),
                ..self@
            }),
    {
        let mut r: DistributedConfig = self;
        r.__private_task_estimator.user_provided.push(task_estimator);
        r
    }

    /// Gets the [DistributedConfig] from the [TaskContext]'s session config extensions.
    pub fn from_task_context(ctx: &Arc<TaskContext>) -> (r: Result<Arc<Self>, DistributedError>)
        ensures
            match session_distributed_config(task_session_config(**ctx)) {
                Some(d) => r is Ok && *r->Ok_0 == d,
                None => r is Err && r->Err_0@ == ErrorView::Internal(
                    "DistributedConfig not in SessionConfig.extensions"@,
                ),
            },
    {
        match get_distributed_config(ctx.session_config()) {
            Some(d) => Ok(d),
            None => Err(
                DistributedError::Internal(
                    "DistributedConfig not in SessionConfig.extensions".to_owned(),
                ),
            ),
        }
    }

    /// Returns the worker resolver currently in scope for this [DistributedConfig].
    pub fn worker_resolver(&self) -> (r: &WorkerResolverExtension)
        ensures
            *r == self@.worker_resolver,
    {
        &self.__private_worker_resolver
    }
}

/// The view of a configuration shows each of its fields under the name of that field.
pub proof fn view_shows_each_field(d: DistributedConfig)
    ensures
        d@.file_scan_config_bytes_per_partition == d.file_scan_config_bytes_per_partition,
        d@.cardinality_task_count_factor == d.cardinality_task_count_factor,
        d@.children_isolator_unions == d.children_isolator_unions,
        d@.collect_metrics == d.collect_metrics,
        d@.broadcast_joins == d.broadcast_joins,
        d@.compression == d.compression@,
        d@.shuffle_batch_size == d.shuffle_batch_size,
        d@.max_tasks_per_stage == d.max_tasks_per_stage,
        d@.partial_reduce == d.partial_reduce,
        d@.worker_connection_buffer_budget_bytes == d.worker_connection_buffer_budget_bytes,
        d@.dynamic_task_count == d.dynamic_task_count,
        d@.bytes_per_partition_per_second == d.bytes_per_partition_per_second,
        d@.task_estimators == d.__private_task_estimator.user_provided@,
        d@.channel_resolver == d.__private_channel_resolver,
        d@.worker_resolver == d.__private_worker_resolver,
        d@.work_unit_feed_getters == d.__private_work_unit_feed_registry.getters@,
{
}

/// The defaults of the two kinds of build differ in the factor alone, which is 1.5 in test builds
/// and 1.0 in all others; all other defaults are these.
pub proof fn defaults_of_builds()
    ensures
        FACTOR_ONE == 0x3FF0_0000_0000_0000,
        FACTOR_ONE_AND_A_HALF == 0x3FF8_0000_0000_0000,
        default_config(true) == (ConfigView {
            cardinality_task_count_factor: 0x3FF8_0000_0000_0000,
            ..default_config(false)
        }),
        default_config(false).cardinality_task_count_factor == 0x3FF0_0000_0000_0000,
        default_config(false).file_scan_config_bytes_per_partition == 16_777_216,
        default_config(false).children_isolator_unions,
        default_config(false).collect_metrics,
        !default_config(false).broadcast_joins,
        default_config(false).compression == "lz4"@,
        default_config(false).shuffle_batch_size == 0,
        default_config(false).max_tasks_per_stage == 0,
        !default_config(false).partial_reduce,
        default_config(false).worker_connection_buffer_budget_bytes == 67_108_864,
        !default_config(false).dynamic_task_count,
        default_config(false).bytes_per_partition_per_second == 16_777_216,
        default_config(false).task_estimators.len() == 0,
        default_config(false).channel_resolver is None,
        default_config(false).worker_resolver is NotImplemented,
        default_config(false).work_unit_feed_getters.len() == 0,
{
}

} // verus!
