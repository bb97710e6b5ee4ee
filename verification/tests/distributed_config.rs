//! The distributed configuration, in sessions and on its way to the workers.

use datafusion::execution::TaskContext;
use datafusion::prelude::SessionConfig;
use datafusion_distributed::config_extension_ext::{
    set_distributed_option_extension, set_distributed_option_extension_from_headers,
};
use datafusion_distributed::config_propagation::{
    apply_field, distributed_config_headers, get_distributed_config_propagation_headers,
    set_distributed_config_from_headers,
};
use datafusion_distributed::distributed_config::{
    cardinality_task_count_factor_default, DistributedConfig, TaskEstimator,
};
use datafusion_distributed::error::DistributedError;
use datafusion_distributed::shared::Shared;
use datafusion_distributed::worker_resolver::{
    get_distributed_worker_resolver, set_distributed_worker_resolver, WorkerResolver,
    WorkerResolverExtension,
};
use http::{HeaderMap, HeaderName, HeaderValue};
use std::sync::Arc;
use url::Url;

fn factor_text(bits: u64) -> String {
    f64::from_bits(bits).to_string()
}

fn parse_factor(text: &str) -> Result<u64, String> {
    text.parse::<f64>().map(f64::to_bits).map_err(|e| e.to_string())
}

fn internal(e: DistributedError) -> String {
    match e {
        DistributedError::Internal(m) => m,
        other => panic!("unexpected {other:?}"),
    }
}

fn sample() -> DistributedConfig {
    DistributedConfig {
        file_scan_config_bytes_per_partition: 1,
        cardinality_task_count_factor: 2.25f64.to_bits(),
        children_isolator_unions: false,
        collect_metrics: false,
        broadcast_joins: true,
        compression: "zstd".to_string(),
        shuffle_batch_size: 20,
        max_tasks_per_stage: 300,
        partial_reduce: true,
        worker_connection_buffer_budget_bytes: usize::MAX,
        dynamic_task_count: true,
        bytes_per_partition_per_second: 9876543210,
        ..Default::default()
    }
}

fn session(d: DistributedConfig) -> SessionConfig {
    let mut cfg = SessionConfig::new();
    cfg.set_extension(Arc::new(d));
    cfg
}

fn one_header(field: &str, value: &[u8]) -> HeaderMap {
    let name = format!("x-datafusion-distributed-config-distributed.{field}");
    let mut headers = HeaderMap::new();
    headers.insert(
        HeaderName::from_bytes(name.as_bytes()).unwrap(),
        HeaderValue::from_bytes(value).unwrap(),
    );
    headers
}

fn assert_same_scalars(a: &DistributedConfig, b: &DistributedConfig) {
    assert_eq!(a.file_scan_config_bytes_per_partition, b.file_scan_config_bytes_per_partition);
    assert_eq!(a.cardinality_task_count_factor, b.cardinality_task_count_factor);
    assert_eq!(a.children_isolator_unions, b.children_isolator_unions);
    assert_eq!(a.collect_metrics, b.collect_metrics);
    assert_eq!(a.broadcast_joins, b.broadcast_joins);
    assert_eq!(a.compression, b.compression);
    assert_eq!(a.shuffle_batch_size, b.shuffle_batch_size);
    assert_eq!(a.max_tasks_per_stage, b.max_tasks_per_stage);
    assert_eq!(a.partial_reduce, b.partial_reduce);
    assert_eq!(a.worker_connection_buffer_budget_bytes, b.worker_connection_buffer_budget_bytes);
    assert_eq!(a.dynamic_task_count, b.dynamic_task_count);
    assert_eq!(a.bytes_per_partition_per_second, b.bytes_per_partition_per_second);
}

struct Fixed(Vec<Url>);

impl WorkerResolver for Fixed {
    fn get_urls(&self) -> Result<Vec<Url>, DistributedError> {
        Ok(self.0.clone())
    }
}

fn fixed(url: &str) -> Shared<dyn WorkerResolver> {
    let resolver: Arc<dyn WorkerResolver> = Arc::new(Fixed(vec![Url::parse(url).unwrap()]));
    Shared::new(resolver)
}

struct Estimator;

impl TaskEstimator for Estimator {}

fn estimator() -> Shared<dyn TaskEstimator> {
    let estimator: Arc<dyn TaskEstimator> = Arc::new(Estimator);
    Shared::new(estimator)
}

#[test]
fn the_default_configuration() {
    let d = DistributedConfig::default();
    assert_eq!(d.file_scan_config_bytes_per_partition, 16 * 1024 * 1024);
    assert_eq!(f64::from_bits(d.cardinality_task_count_factor), 1.0);
    assert!(d.children_isolator_unions);
    assert!(d.collect_metrics);
    assert!(!d.broadcast_joins);
    assert_eq!(d.compression, "lz4");
    assert_eq!(d.shuffle_batch_size, 0);
    assert_eq!(d.max_tasks_per_stage, 0);
    assert!(!d.partial_reduce);
    assert_eq!(d.worker_connection_buffer_budget_bytes, 64 * 1024 * 1024);
    assert!(!d.dynamic_task_count);
    assert_eq!(d.bytes_per_partition_per_second, 16 * 1024 * 1024);
    assert!(d.__private_task_estimator.user_provided.is_empty());
}

#[test]
fn the_default_factor() {
    assert_eq!(f64::from_bits(cardinality_task_count_factor_default(false)), 1.0);
    assert_eq!(f64::from_bits(cardinality_task_count_factor_default(true)), 1.5);
}

#[test]
fn sessions_start_from_the_default_of_the_build() {
    for (test_build, factor) in [(false, 1.0), (true, 1.5)] {
        let d = DistributedConfig::default_for(test_build);
        assert_eq!(f64::from_bits(d.cardinality_task_count_factor), factor);
        assert_eq!(d.compression, "lz4");

        let mut cfg = SessionConfig::new();
        set_distributed_worker_resolver(&mut cfg, fixed("http://worker:1"), test_build);
        assert_same_scalars(&cfg.get_extension::<DistributedConfig>().unwrap(), &d);

        let mut cfg = SessionConfig::new();
        let none = HeaderMap::new();
        set_distributed_config_from_headers(&mut cfg, &none, parse_factor, test_build).unwrap();
        assert_same_scalars(&cfg.get_extension::<DistributedConfig>().unwrap(), &d);
    }
}

#[test]
fn the_options_of_a_session_are_kept() {
    let texts = |cfg: &SessionConfig| -> Vec<(String, Option<String>)> {
        cfg.options().entries().into_iter().map(|e| (e.key, e.value)).collect()
    };
    let mut cfg = SessionConfig::new().with_batch_size(77).with_target_partitions(3);
    let before = texts(&cfg);
    set_distributed_worker_resolver(&mut cfg, fixed("http://worker:1"), false);
    set_distributed_option_extension(&mut cfg, "p");
    let headers = one_header("max_tasks_per_stage", b"5");
    set_distributed_config_from_headers(&mut cfg, &headers, parse_factor, false).unwrap();
    assert_eq!(texts(&cfg), before);
    assert_eq!(cfg.batch_size(), 77);
}

struct Foreign(u32);

#[test]
fn extensions_of_other_types_are_kept() {
    let mut cfg = SessionConfig::new();
    let foreign = Arc::new(Foreign(7));
    cfg.set_extension(Arc::clone(&foreign));
    set_distributed_worker_resolver(&mut cfg, fixed("http://worker:1"), false);
    set_distributed_option_extension(&mut cfg, "p");
    let none = HeaderMap::new();
    set_distributed_option_extension_from_headers(&mut cfg, "p", &vec![], &none);
    set_distributed_config_from_headers(&mut cfg, &none, parse_factor, false).unwrap();
    let kept = cfg.get_extension::<Foreign>().unwrap();
    assert!(Arc::ptr_eq(&kept, &foreign));
    assert_eq!(kept.0, 7);
}

#[test]
fn reading_the_same_headers_twice_is_reading_them_once() {
    let mut headers = distributed_config_headers(&sample(), "2.25").unwrap();
    headers.append(
        HeaderName::from_static("x-datafusion-distributed-config-distributed.max_tasks_per_stage"),
        HeaderValue::from_static("4"),
    );
    let mut worker = SessionConfig::new();
    set_distributed_config_from_headers(&mut worker, &headers, parse_factor, false).unwrap();
    let once = worker.get_extension::<DistributedConfig>().unwrap();
    assert_eq!(once.max_tasks_per_stage, 4);
    set_distributed_config_from_headers(&mut worker, &headers, parse_factor, false).unwrap();
    assert_same_scalars(&worker.get_extension::<DistributedConfig>().unwrap(), &once);
}

#[test]
fn task_estimators_are_kept_in_order() {
    let (a, b) = (estimator(), estimator());
    let d = DistributedConfig::default().with_task_estimator(a.clone()).with_task_estimator(b.clone());
    let kept = &d.__private_task_estimator.user_provided;
    assert_eq!(kept.len(), 2);
    assert!(Arc::ptr_eq(&kept[0].ptr, &a.ptr));
    assert!(Arc::ptr_eq(&kept[1].ptr, &b.ptr));
}

#[test]
fn the_configuration_of_a_task() {
    let cfg = session(sample());
    let ctx = Arc::new(TaskContext::default().with_session_config(cfg));
    let d = DistributedConfig::from_task_context(&ctx).ok().unwrap();
    assert_same_scalars(&d, &sample());

    let bare = Arc::new(TaskContext::default());
    let e = DistributedConfig::from_task_context(&bare).err().unwrap();
    assert_eq!(internal(e), "DistributedConfig not in SessionConfig.extensions");
}

#[test]
fn a_missing_resolver_is_not_implemented() {
    let d = DistributedConfig::default();
    match d.worker_resolver().get_urls() {
        Err(DistributedError::NotImplemented(m)) => {
            assert_eq!(m, "WorkerResolver::get_urls() not implemented")
        }
        other => panic!("unexpected {other:?}"),
    }
}

#[test]
fn a_session_without_a_configuration_has_no_resolver() {
    match get_distributed_worker_resolver(&SessionConfig::new()) {
        Err(DistributedError::Execution(m)) => {
            assert_eq!(m, "WorkerResolver not present in the session config")
        }
        _ => panic!("unexpected"),
    }
}

#[test]
fn the_resolver_of_a_session() {
    let mut cfg = SessionConfig::new();
    let first = fixed("http://worker-1:8080");
    set_distributed_worker_resolver(&mut cfg, first, false);
    let d = cfg.get_extension::<DistributedConfig>().unwrap();
    assert_same_scalars(&d, &DistributedConfig::default());

    let mut cfg = session(sample());
    let second = fixed("http://worker-2:8080");
    set_distributed_worker_resolver(&mut cfg, second.clone(), false);
    let d = cfg.get_extension::<DistributedConfig>().unwrap();
    assert_same_scalars(&d, &sample());

    let resolver = get_distributed_worker_resolver(&cfg).ok().unwrap();
    let urls = resolver.get_urls().unwrap();
    assert_eq!(urls, vec![Url::parse("http://worker-2:8080").unwrap()]);
    match resolver {
        WorkerResolverExtension::Provided(r) => assert!(Arc::ptr_eq(&r.ptr, &second.ptr)),
        WorkerResolverExtension::NotImplemented => panic!("no resolver"),
    }
}

#[test]
fn a_shared_resolver_passes_the_question_on() {
    let inner: Arc<dyn WorkerResolver> = Arc::new(Fixed(vec![]));
    let outer: &dyn WorkerResolver = &inner;
    assert!(outer.get_urls().unwrap().is_empty());
}

#[test]
fn the_headers_of_a_configuration() {
    let headers = get_distributed_config_propagation_headers(&session(sample()), factor_text).unwrap();
    let all: Vec<(&str, &str)> =
        headers.iter().map(|(n, v)| (n.as_str(), v.to_str().unwrap())).collect();
    let max = usize::MAX.to_string();
    assert_eq!(
        all,
        vec![
            ("x-datafusion-distributed-config-distributed.file_scan_config_bytes_per_partition", "1"),
            ("x-datafusion-distributed-config-distributed.cardinality_task_count_factor", "2.25"),
            ("x-datafusion-distributed-config-distributed.children_isolator_unions", "false"),
            ("x-datafusion-distributed-config-distributed.collect_metrics", "false"),
            ("x-datafusion-distributed-config-distributed.broadcast_joins", "true"),
            ("x-datafusion-distributed-config-distributed.compression", "zstd"),
            ("x-datafusion-distributed-config-distributed.shuffle_batch_size", "20"),
            ("x-datafusion-distributed-config-distributed.max_tasks_per_stage", "300"),
            ("x-datafusion-distributed-config-distributed.partial_reduce", "true"),
            (
                "x-datafusion-distributed-config-distributed.worker_connection_buffer_budget_bytes",
                max.as_str(),
            ),
            ("x-datafusion-distributed-config-distributed.dynamic_task_count", "true"),
            (
                "x-datafusion-distributed-config-distributed.bytes_per_partition_per_second",
                "9876543210",
            ),
        ]
    );
}

#[test]
fn a_session_without_a_configuration_has_no_headers() {
    let headers =
        get_distributed_config_propagation_headers(&SessionConfig::new(), factor_text).unwrap();
    assert!(headers.is_empty());
}

#[test]
fn a_configuration_survives_propagation() {
    let headers = get_distributed_config_propagation_headers(&session(sample()), factor_text).unwrap();
    let mut worker = SessionConfig::new();
    set_distributed_config_from_headers(&mut worker, &headers, parse_factor, false).unwrap();
    let d = worker.get_extension::<DistributedConfig>().unwrap();
    assert_same_scalars(&d, &sample());
}

#[test]
fn reading_keeps_the_resolver_and_the_estimators() {
    let mut worker = session(DistributedConfig::default().with_task_estimator(estimator()));
    set_distributed_worker_resolver(&mut worker, fixed("http://worker:1"), false);
    let headers = distributed_config_headers(&sample(), "2.25").unwrap();
    set_distributed_config_from_headers(&mut worker, &headers, parse_factor, false).unwrap();
    let d = worker.get_extension::<DistributedConfig>().unwrap();
    assert_same_scalars(&d, &sample());
    assert_eq!(d.__private_task_estimator.user_provided.len(), 1);
    assert_eq!(d.worker_resolver().get_urls().unwrap().len(), 1);
}

#[test]
fn without_headers_the_configuration_is_the_one_it_was() {
    let mut worker = session(sample());
    set_distributed_config_from_headers(&mut worker, &HeaderMap::new(), parse_factor, false).unwrap();
    assert_same_scalars(&worker.get_extension::<DistributedConfig>().unwrap(), &sample());

    let mut fresh = SessionConfig::new();
    set_distributed_config_from_headers(&mut fresh, &HeaderMap::new(), parse_factor, false).unwrap();
    let d = fresh.get_extension::<DistributedConfig>().unwrap();
    assert_same_scalars(&d, &DistributedConfig::default());
}

#[test]
fn unrelated_headers_are_passed_over() {
    let mut worker = session(sample());
    let mut headers = one_header("newer_field", b"anything");
    headers.insert(HeaderName::from_static("host"), HeaderValue::from_bytes(b"\xff").unwrap());
    headers.insert(
        HeaderName::from_static("distributed.shuffle_batch_size"),
        HeaderValue::from_static("5"),
    );
    set_distributed_config_from_headers(&mut worker, &headers, parse_factor, false).unwrap();
    assert_same_scalars(&worker.get_extension::<DistributedConfig>().unwrap(), &sample());
}

#[test]
fn a_refused_header_changes_nothing() {
    let refused: Vec<(&str, &[u8], String)> = vec![
        (
            "shuffle_batch_size",
            b"",
            format!("bad header shuffle_batch_size: {}", "".parse::<usize>().unwrap_err()),
        ),
        (
            "max_tasks_per_stage",
            b"12x",
            format!("bad header max_tasks_per_stage: {}", "12x".parse::<usize>().unwrap_err()),
        ),
        (
            "bytes_per_partition_per_second",
            b"99999999999999999999999999",
            format!(
                "bad header bytes_per_partition_per_second: {}",
                "99999999999999999999999999".parse::<usize>().unwrap_err()
            ),
        ),
        (
            "partial_reduce",
            b"True",
            format!("bad header partial_reduce: {}", "True".parse::<bool>().unwrap_err()),
        ),
        (
            "cardinality_task_count_factor",
            b"one",
            format!("bad header cardinality_task_count_factor: {}", "one".parse::<f64>().unwrap_err()),
        ),
        (
            "compression",
            b"\xff",
            "invalid header value: failed to convert header to a str".to_string(),
        ),
        (
            "newer_field",
            b"\xff",
            "invalid header value: failed to convert header to a str".to_string(),
        ),
    ];
    for (field, value, message) in refused {
        let mut worker = session(sample());
        let before = worker.get_extension::<DistributedConfig>().unwrap();
        let mut headers = one_header("collect_metrics", b"true");
        headers.extend(one_header(field, value));
        let e = set_distributed_config_from_headers(&mut worker, &headers, parse_factor, false)
            .err()
            .unwrap();
        assert_eq!(internal(e), message);
        let after = worker.get_extension::<DistributedConfig>().unwrap();
        assert!(Arc::ptr_eq(&before, &after));
    }
}

#[test]
fn the_last_of_repeated_headers_stays() {
    let mut headers = HeaderMap::new();
    let name = "x-datafusion-distributed-config-distributed.shuffle_batch_size";
    headers.append(HeaderName::from_static(name), HeaderValue::from_static("1"));
    headers.append(HeaderName::from_static(name), HeaderValue::from_static("+2"));
    let mut worker = SessionConfig::new();
    set_distributed_config_from_headers(&mut worker, &headers, parse_factor, false).unwrap();
    assert_eq!(worker.get_extension::<DistributedConfig>().unwrap().shuffle_batch_size, 2);
}

#[test]
fn texts_that_are_no_header_values_are_refused() {
    let mut d = sample();
    d.compression = "a\nb".to_string();
    let e = distributed_config_headers(&d, "1").err().unwrap();
    assert_eq!(internal(e), "invalid header value: failed to parse header value");
    let e = distributed_config_headers(&sample(), "\u{7f}").err().unwrap();
    assert_eq!(internal(e), "invalid header value: failed to parse header value");
}

#[test]
fn a_compression_beyond_ascii_is_written_and_refused() {
    let mut d = sample();
    d.compression = "é".to_string();
    let headers = distributed_config_headers(&d, "1").unwrap();
    let name = "x-datafusion-distributed-config-distributed.compression";
    assert_eq!(headers.get(name).unwrap().as_bytes(), "é".as_bytes());
    let mut worker = SessionConfig::new();
    let e = set_distributed_config_from_headers(&mut worker, &headers, parse_factor, false).err().unwrap();
    assert_eq!(internal(e), "invalid header value: failed to convert header to a str");
    assert!(worker.get_extension::<DistributedConfig>().is_none());
}

#[test]
fn one_field_at_a_time() {
    let mut d = DistributedConfig::default();
    apply_field(&mut d, "max_tasks_per_stage", "007", Ok(0)).unwrap();
    apply_field(&mut d, "cardinality_task_count_factor", "ignored", Ok(17)).unwrap();
    apply_field(&mut d, "compression", "none", Err("unused".to_string())).unwrap();
    apply_field(&mut d, "nothing", "at all", Ok(0)).unwrap();
    assert_eq!(d.max_tasks_per_stage, 7);
    assert_eq!(d.cardinality_task_count_factor, 17);
    assert_eq!(d.compression, "none");
    let e = apply_field(&mut d, "cardinality_task_count_factor", "x", Err("why".to_string()));
    assert_eq!(internal(e.err().unwrap()), "bad header cardinality_task_count_factor: why");
    assert_eq!(d.cardinality_task_count_factor, 17);
}
