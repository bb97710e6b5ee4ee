//! What the headers of a configuration say, and what they set, name by name.

use crate::config_propagation::{answers, are_answers, config_entries, config_field};
use crate::config_propagation::{config_namespace, config_settings, factor_view, lemma_field_names};
use crate::config_propagation::{is_config_outcome, read_config, with_entry, with_field};
use crate::distributed_config::ConfigView;
use crate::error::{DistributedError, ErrorView};
use crate::headers::{header_entries, header_text, is_header_text, is_header_value, HeaderEntry};
use crate::text::{bool_text, decimal, has_prefix, number_of, NumberError};
use http::header::{HeaderMap, HeaderValue};
use vstd::prelude::*;
use vstd::utf8::*;

verus! {

/// The namespace of the fields, letter by letter.
proof fn lemma_namespace()
    ensures
        config_namespace() == "x-datafusion-distributed-config-distributed."@,
{
    reveal_strlit("x-datafusion-distributed-config-");
    reveal_strlit("distributed.");
    reveal_strlit("x-datafusion-distributed-config-distributed.");
    assert(config_namespace() =~= "x-datafusion-distributed-config-distributed."@);
}

/// Each header that is written is named after the field whose text it carries, there is one for
/// each of the twelve fields, in their order, and none else. Writing fails exactly where the text of the factor or
/// the compression can be no header value.
pub proof fn each_header_carries_the_field_it_names(
    v: ConfigView,
    factor: Seq<char>,
    r: Result<HeaderMap<HeaderValue>, DistributedError>,
)
    requires
        is_config_outcome(v, factor, r),
    ensures
        r is Ok <==> is_header_value(factor) && is_header_value(v.compression),
        r matches Err(e) ==> e@ == ErrorView::Internal(
            "invalid header value: "@ + "failed to parse header value"@,
        ),
        r matches Ok(headers) ==> {
            &&& header_entries(headers).len() == 12
            &&& header_entries(headers)[0] == (
                "x-datafusion-distributed-config-distributed."@ + "file_scan_config_bytes_per_partition"@,
                encode_utf8(decimal(v.file_scan_config_bytes_per_partition as nat)),
            )
            &&& header_entries(headers)[1] == (
                "x-datafusion-distributed-config-distributed."@ + "cardinality_task_count_factor"@,
                encode_utf8(factor),
            )
            &&& header_entries(headers)[2] == (
                "x-datafusion-distributed-config-distributed."@ + "children_isolator_unions"@,
                encode_utf8(
                    if v.children_isolator_unions {
                        "true"@
                    } else {
                        "false"@
                    },
                ),
            )
            &&& header_entries(headers)[3] == (
                "x-datafusion-distributed-config-distributed."@ + "collect_metrics"@,
                encode_utf8(
                    if v.collect_metrics {
                        "true"@
                    } else {
                        "false"@
                    },
                ),
            )
            &&& header_entries(headers)[4] == (
                "x-datafusion-distributed-config-distributed."@ + "broadcast_joins"@,
                encode_utf8(
                    if v.broadcast_joins {
                        "true"@
                    } else {
                        "false"@
                    },
                ),
            )
            &&& header_entries(headers)[5] == (
                "x-datafusion-distributed-config-distributed."@ + "compression"@,
                encode_utf8(v.compression),
            )
            &&& header_entries(headers)[6] == (
                "x-datafusion-distributed-config-distributed."@ + "shuffle_batch_size"@,
                encode_utf8(decimal(v.shuffle_batch_size as nat)),
            )
            &&& header_entries(headers)[7] == (
                "x-datafusion-distributed-config-distributed."@ + "max_tasks_per_stage"@,
                encode_utf8(decimal(v.max_tasks_per_stage as nat)),
            )
            &&& header_entries(headers)[8] == (
                "x-datafusion-distributed-config-distributed."@ + "partial_reduce"@,
                encode_utf8(
                    if v.partial_reduce {
                        "true"@
                    } else {
                        "false"@
                    },
                ),
            )
            &&& header_entries(headers)[9] == (
                "x-datafusion-distributed-config-distributed."@ + "worker_connection_buffer_budget_bytes"@,
                encode_utf8(decimal(v.worker_connection_buffer_budget_bytes as nat)),
            )
            &&& header_entries(headers)[10] == (
                "x-datafusion-distributed-config-distributed."@ + "dynamic_task_count"@,
                encode_utf8(
                    if v.dynamic_task_count {
                        "true"@
                    } else {
                        "false"@
                    },
                ),
            )
            &&& header_entries(headers)[11] == (
                "x-datafusion-distributed-config-distributed."@ + "bytes_per_partition_per_second"@,
                encode_utf8(decimal(v.bytes_per_partition_per_second as nat)),
            )
        },
{
    if let Ok(headers) = r {
        lemma_namespace();
        let entries = config_entries(v, factor);
        assert(header_entries(headers) == entries);
        assert(entries[0] == ("x-datafusion-distributed-config-distributed."@ + "file_scan_config_bytes_per_partition"@, encode_utf8(decimal(v.file_scan_config_bytes_per_partition as nat))));
        assert(entries[1] == ("x-datafusion-distributed-config-distributed."@ + "cardinality_task_count_factor"@, encode_utf8(factor)));
        assert(entries[2] == ("x-datafusion-distributed-config-distributed."@ + "children_isolator_unions"@, encode_utf8(bool_text(v.children_isolator_unions))));
        assert(entries[3] == ("x-datafusion-distributed-config-distributed."@ + "collect_metrics"@, encode_utf8(bool_text(v.collect_metrics))));
        assert(entries[4] == ("x-datafusion-distributed-config-distributed."@ + "broadcast_joins"@, encode_utf8(bool_text(v.broadcast_joins))));
        assert(entries[5] == ("x-datafusion-distributed-config-distributed."@ + "compression"@, encode_utf8(v.compression)));
        assert(entries[6] == ("x-datafusion-distributed-config-distributed."@ + "shuffle_batch_size"@, encode_utf8(decimal(v.shuffle_batch_size as nat))));
        assert(entries[7] == ("x-datafusion-distributed-config-distributed."@ + "max_tasks_per_stage"@, encode_utf8(decimal(v.max_tasks_per_stage as nat))));
        assert(entries[8] == ("x-datafusion-distributed-config-distributed."@ + "partial_reduce"@, encode_utf8(bool_text(v.partial_reduce))));
        assert(entries[9] == ("x-datafusion-distributed-config-distributed."@ + "worker_connection_buffer_budget_bytes"@, encode_utf8(decimal(v.worker_connection_buffer_budget_bytes as nat))));
        assert(entries[10] == ("x-datafusion-distributed-config-distributed."@ + "dynamic_task_count"@, encode_utf8(bool_text(v.dynamic_task_count))));
        assert(entries[11] == ("x-datafusion-distributed-config-distributed."@ + "bytes_per_partition_per_second"@, encode_utf8(decimal(v.bytes_per_partition_per_second as nat))));
    }
}

/// A header of the namespace of the fields carries the field that is named behind it.
proof fn lemma_header_of_field(field: Seq<char>)
    ensures
        config_field("x-datafusion-distributed-config-distributed."@ + field) == Some(field),
{
    lemma_namespace();
    let name = config_namespace() + field;
    assert(name.take(config_namespace().len() as int) =~= config_namespace());
    assert(name.skip(config_namespace().len() as int) =~= field);
}

/// A text sets the boolean field that it is given for, from `true` or `false`, and no other; any
/// other text is refused.
#[verifier::spinoff_prover]
#[verifier::rlimit(40)]
pub proof fn a_text_sets_the_flag_it_is_for(
    v: ConfigView,
    value: Seq<char>,
    factor: Result<u64, Seq<char>>,
)
    ensures
        with_field(v, "children_isolator_unions"@, value, factor) == (if value == "true"@ {
            Ok::<ConfigView, Seq<char>>(ConfigView { children_isolator_unions: true, ..v })
        } else if value == "false"@ {
            Ok(ConfigView { children_isolator_unions: false, ..v })
        } else {
            Err(
                "bad header "@ + "children_isolator_unions"@ + ": "@
                    + "provided string was not `true` or `false`"@,
            )
        }),
        with_field(v, "collect_metrics"@, value, factor) == (if value == "true"@ {
            Ok::<ConfigView, Seq<char>>(ConfigView { collect_metrics: true, ..v })
        } else if value == "false"@ {
            Ok(ConfigView { collect_metrics: false, ..v })
        } else {
            Err(
                "bad header "@ + "collect_metrics"@ + ": "@
                    + "provided string was not `true` or `false`"@,
            )
        }),
        with_field(v, "broadcast_joins"@, value, factor) == (if value == "true"@ {
            Ok::<ConfigView, Seq<char>>(ConfigView { broadcast_joins: true, ..v })
        } else if value == "false"@ {
            Ok(ConfigView { broadcast_joins: false, ..v })
        } else {
            Err(
                "bad header "@ + "broadcast_joins"@ + ": "@
                    + "provided string was not `true` or `false`"@,
            )
        }),
        with_field(v, "partial_reduce"@, value, factor) == (if value == "true"@ {
            Ok::<ConfigView, Seq<char>>(ConfigView { partial_reduce: true, ..v })
        } else if value == "false"@ {
            Ok(ConfigView { partial_reduce: false, ..v })
        } else {
            Err(
                "bad header "@ + "partial_reduce"@ + ": "@
                    + "provided string was not `true` or `false`"@,
            )
        }),
        with_field(v, "dynamic_task_count"@, value, factor) == (if value == "true"@ {
            Ok::<ConfigView, Seq<char>>(ConfigView { dynamic_task_count: true, ..v })
        } else if value == "false"@ {
            Ok(ConfigView { dynamic_task_count: false, ..v })
        } else {
            Err(
                "bad header "@ + "dynamic_task_count"@ + ": "@
                    + "provided string was not `true` or `false`"@,
            )
        }),
{
    lemma_field_names(v, Seq::empty());
    let c = config_settings(v, Seq::empty());
    assert(c[0].0 == "file_scan_config_bytes_per_partition"@);
    assert(c[1].0 == "cardinality_task_count_factor"@);
    assert(c[2].0 == "children_isolator_unions"@);
    assert(c[3].0 == "collect_metrics"@);
    assert(c[4].0 == "broadcast_joins"@);
    assert(c[5].0 == "compression"@);
    assert(c[6].0 == "shuffle_batch_size"@);
    assert(c[7].0 == "max_tasks_per_stage"@);
    assert(c[8].0 == "partial_reduce"@);
    assert(c[9].0 == "worker_connection_buffer_budget_bytes"@);
    assert(c[10].0 == "dynamic_task_count"@);
    assert(c[11].0 == "bytes_per_partition_per_second"@);
}

/// A text sets the number that it is given for, as far as it is one, and no other.
#[verifier::spinoff_prover]
#[verifier::rlimit(40)]
pub proof fn a_text_sets_the_number_it_is_for(
    v: ConfigView,
    value: Seq<char>,
    factor: Result<u64, Seq<char>>,
)
    ensures
        with_field(v, "file_scan_config_bytes_per_partition"@, value, factor) == match number_of(
            value,
            usize::MAX as nat,
        ) {
            Ok(n) => Ok::<ConfigView, Seq<char>>(ConfigView { file_scan_config_bytes_per_partition: n as usize, ..v }),
            Err(NumberError::Empty) => Err(
                "bad header "@ + "file_scan_config_bytes_per_partition"@ + ": "@ + "cannot parse integer from empty string"@,
            ),
            Err(NumberError::InvalidDigit) => Err(
                "bad header "@ + "file_scan_config_bytes_per_partition"@ + ": "@ + "invalid digit found in string"@,
            ),
            Err(NumberError::Overflow) => Err(
                "bad header "@ + "file_scan_config_bytes_per_partition"@ + ": "@ + "number too large to fit in target type"@,
            ),
        },
        with_field(v, "shuffle_batch_size"@, value, factor) == match number_of(
            value,
            usize::MAX as nat,
        ) {
            Ok(n) => Ok::<ConfigView, Seq<char>>(ConfigView { shuffle_batch_size: n as usize, ..v }),
            Err(NumberError::Empty) => Err(
                "bad header "@ + "shuffle_batch_size"@ + ": "@ + "cannot parse integer from empty string"@,
            ),
            Err(NumberError::InvalidDigit) => Err(
                "bad header "@ + "shuffle_batch_size"@ + ": "@ + "invalid digit found in string"@,
            ),
            Err(NumberError::Overflow) => Err(
                "bad header "@ + "shuffle_batch_size"@ + ": "@ + "number too large to fit in target type"@,
            ),
        },
        with_field(v, "max_tasks_per_stage"@, value, factor) == match number_of(
            value,
            usize::MAX as nat,
        ) {
            Ok(n) => Ok::<ConfigView, Seq<char>>(ConfigView { max_tasks_per_stage: n as usize, ..v }),
            Err(NumberError::Empty) => Err(
                "bad header "@ + "max_tasks_per_stage"@ + ": "@ + "cannot parse integer from empty string"@,
            ),
            Err(NumberError::InvalidDigit) => Err(
                "bad header "@ + "max_tasks_per_stage"@ + ": "@ + "invalid digit found in string"@,
            ),
            Err(NumberError::Overflow) => Err(
                "bad header "@ + "max_tasks_per_stage"@ + ": "@ + "number too large to fit in target type"@,
            ),
        },
        with_field(v, "worker_connection_buffer_budget_bytes"@, value, factor) == match number_of(
            value,
            usize::MAX as nat,
        ) {
            Ok(n) => Ok::<ConfigView, Seq<char>>(ConfigView { worker_connection_buffer_budget_bytes: n as usize, ..v }),
            Err(NumberError::Empty) => Err(
                "bad header "@ + "worker_connection_buffer_budget_bytes"@ + ": "@ + "cannot parse integer from empty string"@,
            ),
            Err(NumberError::InvalidDigit) => Err(
                "bad header "@ + "worker_connection_buffer_budget_bytes"@ + ": "@ + "invalid digit found in string"@,
            ),
            Err(NumberError::Overflow) => Err(
                "bad header "@ + "worker_connection_buffer_budget_bytes"@ + ": "@ + "number too large to fit in target type"@,
            ),
        },
        with_field(v, "bytes_per_partition_per_second"@, value, factor) == match number_of(
            value,
            usize::MAX as nat,
        ) {
            Ok(n) => Ok::<ConfigView, Seq<char>>(ConfigView { bytes_per_partition_per_second: n as usize, ..v }),
            Err(NumberError::Empty) => Err(
                "bad header "@ + "bytes_per_partition_per_second"@ + ": "@ + "cannot parse integer from empty string"@,
            ),
            Err(NumberError::InvalidDigit) => Err(
                "bad header "@ + "bytes_per_partition_per_second"@ + ": "@ + "invalid digit found in string"@,
            ),
            Err(NumberError::Overflow) => Err(
                "bad header "@ + "bytes_per_partition_per_second"@ + ": "@ + "number too large to fit in target type"@,
            ),
        },
{
    lemma_field_names(v, Seq::empty());
    let c = config_settings(v, Seq::empty());
    assert(c[0].0 == "file_scan_config_bytes_per_partition"@);
    assert(c[1].0 == "cardinality_task_count_factor"@);
    assert(c[2].0 == "children_isolator_unions"@);
    assert(c[3].0 == "collect_metrics"@);
    assert(c[4].0 == "broadcast_joins"@);
    assert(c[5].0 == "compression"@);
    assert(c[6].0 == "shuffle_batch_size"@);
    assert(c[7].0 == "max_tasks_per_stage"@);
    assert(c[8].0 == "partial_reduce"@);
    assert(c[9].0 == "worker_connection_buffer_budget_bytes"@);
    assert(c[10].0 == "dynamic_task_count"@);
    assert(c[11].0 == "bytes_per_partition_per_second"@);
}

/// A text sets the compression to itself and the factor to what it gives, where it is for them, and
/// nothing where it is for none of the twelve fields.
#[verifier::spinoff_prover]
pub proof fn a_text_sets_the_compression_or_the_factor(
    v: ConfigView,
    field: Seq<char>,
    value: Seq<char>,
    factor: Result<u64, Seq<char>>,
)
    ensures
        with_field(v, "compression"@, value, factor) == Ok::<ConfigView, Seq<char>>(
            ConfigView { compression: value, ..v },
        ),
        with_field(v, "cardinality_task_count_factor"@, value, factor) == match factor {
            Ok(bits) => Ok::<ConfigView, Seq<char>>(
                ConfigView { cardinality_task_count_factor: bits, ..v },
            ),
            Err(why) => Err(
                "bad header "@ + "cardinality_task_count_factor"@ + ": "@ + why,
            ),
        },
        !seq![
            "file_scan_config_bytes_per_partition"@,
            "cardinality_task_count_factor"@,
            "children_isolator_unions"@,
            "collect_metrics"@,
            "broadcast_joins"@,
            "compression"@,
            "shuffle_batch_size"@,
            "max_tasks_per_stage"@,
            "partial_reduce"@,
            "worker_connection_buffer_budget_bytes"@,
            "dynamic_task_count"@,
            "bytes_per_partition_per_second"@,
        ].contains(field) ==> with_field(v, field, value, factor) == Ok::<ConfigView, Seq<char>>(v),
{
    lemma_field_names(v, Seq::empty());
    let c = config_settings(v, Seq::empty());
    assert(c[0].0 == "file_scan_config_bytes_per_partition"@);
    assert(c[1].0 == "cardinality_task_count_factor"@);
    assert(c[2].0 == "children_isolator_unions"@);
    assert(c[3].0 == "collect_metrics"@);
    assert(c[4].0 == "broadcast_joins"@);
    assert(c[5].0 == "compression"@);
    assert(c[6].0 == "shuffle_batch_size"@);
    assert(c[7].0 == "max_tasks_per_stage"@);
    assert(c[8].0 == "partial_reduce"@);
    assert(c[9].0 == "worker_connection_buffer_budget_bytes"@);
    assert(c[10].0 == "dynamic_task_count"@);
    assert(c[11].0 == "bytes_per_partition_per_second"@);
    let known = seq![
            "file_scan_config_bytes_per_partition"@,
            "cardinality_task_count_factor"@,
            "children_isolator_unions"@,
            "collect_metrics"@,
            "broadcast_joins"@,
            "compression"@,
            "shuffle_batch_size"@,
            "max_tasks_per_stage"@,
            "partial_reduce"@,
            "worker_connection_buffer_budget_bytes"@,
            "dynamic_task_count"@,
            "bytes_per_partition_per_second"@,
    ];
    assert(known[0] == "file_scan_config_bytes_per_partition"@);
    assert(known[1] == "cardinality_task_count_factor"@);
    assert(known[2] == "children_isolator_unions"@);
    assert(known[3] == "collect_metrics"@);
    assert(known[4] == "broadcast_joins"@);
    assert(known[5] == "compression"@);
    assert(known[6] == "shuffle_batch_size"@);
    assert(known[7] == "max_tasks_per_stage"@);
    assert(known[8] == "partial_reduce"@);
    assert(known[9] == "worker_connection_buffer_budget_bytes"@);
    assert(known[10] == "dynamic_task_count"@);
    assert(known[11] == "bytes_per_partition_per_second"@);
}

/// What a reader of factors gives is taken as it is: its bits, or its message.
pub proof fn factor_is_taken_as_given(bits: u64, why: String)
    ensures
        factor_view(Ok(bits)) == Ok::<u64, Seq<char>>(bits),
        factor_view(Err(why)) == Err::<u64, Seq<char>>(why@),
{
}

/// The header named after a boolean field sets that field, from `true` or `false`, and no other;
/// any other text is refused.
#[verifier::spinoff_prover]
#[verifier::rlimit(40)]
pub proof fn a_header_sets_the_flag_it_names(
    v: ConfigView,
    bytes: Seq<u8>,
    factor: Result<u64, Seq<char>>,
)
    requires
        is_header_text(bytes),
    ensures
        with_entry(v, ("x-datafusion-distributed-config-distributed."@ + "children_isolator_unions"@, bytes), factor) == (if header_text(
            bytes,
        ) == "true"@ {
            Ok::<ConfigView, Seq<char>>(ConfigView { children_isolator_unions: true, ..v })
        } else if header_text(bytes) == "false"@ {
            Ok(ConfigView { children_isolator_unions: false, ..v })
        } else {
            Err(
                "bad header "@ + "children_isolator_unions"@ + ": "@
                    + "provided string was not `true` or `false`"@,
            )
        }),
        with_entry(v, ("x-datafusion-distributed-config-distributed."@ + "collect_metrics"@, bytes), factor) == (if header_text(
            bytes,
        ) == "true"@ {
            Ok::<ConfigView, Seq<char>>(ConfigView { collect_metrics: true, ..v })
        } else if header_text(bytes) == "false"@ {
            Ok(ConfigView { collect_metrics: false, ..v })
        } else {
            Err(
                "bad header "@ + "collect_metrics"@ + ": "@
                    + "provided string was not `true` or `false`"@,
            )
        }),
        with_entry(v, ("x-datafusion-distributed-config-distributed."@ + "broadcast_joins"@, bytes), factor) == (if header_text(
            bytes,
        ) == "true"@ {
            Ok::<ConfigView, Seq<char>>(ConfigView { broadcast_joins: true, ..v })
        } else if header_text(bytes) == "false"@ {
            Ok(ConfigView { broadcast_joins: false, ..v })
        } else {
            Err(
                "bad header "@ + "broadcast_joins"@ + ": "@
                    + "provided string was not `true` or `false`"@,
            )
        }),
        with_entry(v, ("x-datafusion-distributed-config-distributed."@ + "partial_reduce"@, bytes), factor) == (if header_text(
            bytes,
        ) == "true"@ {
            Ok::<ConfigView, Seq<char>>(ConfigView { partial_reduce: true, ..v })
        } else if header_text(bytes) == "false"@ {
            Ok(ConfigView { partial_reduce: false, ..v })
        } else {
            Err(
                "bad header "@ + "partial_reduce"@ + ": "@
                    + "provided string was not `true` or `false`"@,
            )
        }),
        with_entry(v, ("x-datafusion-distributed-config-distributed."@ + "dynamic_task_count"@, bytes), factor) == (if header_text(
            bytes,
        ) == "true"@ {
            Ok::<ConfigView, Seq<char>>(ConfigView { dynamic_task_count: true, ..v })
        } else if header_text(bytes) == "false"@ {
            Ok(ConfigView { dynamic_task_count: false, ..v })
        } else {
            Err(
                "bad header "@ + "dynamic_task_count"@ + ": "@
                    + "provided string was not `true` or `false`"@,
            )
        }),
{
    lemma_field_names(v, Seq::empty());
    let c = config_settings(v, Seq::empty());
    assert(c[0].0 == "file_scan_config_bytes_per_partition"@);
    assert(c[1].0 == "cardinality_task_count_factor"@);
    assert(c[2].0 == "children_isolator_unions"@);
    assert(c[3].0 == "collect_metrics"@);
    assert(c[4].0 == "broadcast_joins"@);
    assert(c[5].0 == "compression"@);
    assert(c[6].0 == "shuffle_batch_size"@);
    assert(c[7].0 == "max_tasks_per_stage"@);
    assert(c[8].0 == "partial_reduce"@);
    assert(c[9].0 == "worker_connection_buffer_budget_bytes"@);
    assert(c[10].0 == "dynamic_task_count"@);
    assert(c[11].0 == "bytes_per_partition_per_second"@);
    lemma_header_of_field("children_isolator_unions"@);
    lemma_header_of_field("collect_metrics"@);
    lemma_header_of_field("broadcast_joins"@);
    lemma_header_of_field("partial_reduce"@);
    lemma_header_of_field("dynamic_task_count"@);
}

/// The header named after a number sets that number, as far as its text is one, and no other.
#[verifier::spinoff_prover]
#[verifier::rlimit(40)]
pub proof fn a_header_sets_the_number_it_names(
    v: ConfigView,
    bytes: Seq<u8>,
    factor: Result<u64, Seq<char>>,
)
    requires
        is_header_text(bytes),
    ensures
        with_entry(v, ("x-datafusion-distributed-config-distributed."@ + "file_scan_config_bytes_per_partition"@, bytes), factor) == match number_of(
            header_text(bytes),
            usize::MAX as nat,
        ) {
            Ok(n) => Ok::<ConfigView, Seq<char>>(ConfigView { file_scan_config_bytes_per_partition: n as usize, ..v }),
            Err(NumberError::Empty) => Err(
                "bad header "@ + "file_scan_config_bytes_per_partition"@ + ": "@ + "cannot parse integer from empty string"@,
            ),
            Err(NumberError::InvalidDigit) => Err(
                "bad header "@ + "file_scan_config_bytes_per_partition"@ + ": "@ + "invalid digit found in string"@,
            ),
            Err(NumberError::Overflow) => Err(
                "bad header "@ + "file_scan_config_bytes_per_partition"@ + ": "@ + "number too large to fit in target type"@,
            ),
        },
        with_entry(v, ("x-datafusion-distributed-config-distributed."@ + "shuffle_batch_size"@, bytes), factor) == match number_of(
            header_text(bytes),
            usize::MAX as nat,
        ) {
            Ok(n) => Ok::<ConfigView, Seq<char>>(ConfigView { shuffle_batch_size: n as usize, ..v }),
            Err(NumberError::Empty) => Err(
                "bad header "@ + "shuffle_batch_size"@ + ": "@ + "cannot parse integer from empty string"@,
            ),
            Err(NumberError::InvalidDigit) => Err(
                "bad header "@ + "shuffle_batch_size"@ + ": "@ + "invalid digit found in string"@,
            ),
            Err(NumberError::Overflow) => Err(
                "bad header "@ + "shuffle_batch_size"@ + ": "@ + "number too large to fit in target type"@,
            ),
        },
        with_entry(v, ("x-datafusion-distributed-config-distributed."@ + "max_tasks_per_stage"@, bytes), factor) == match number_of(
            header_text(bytes),
            usize::MAX as nat,
        ) {
            Ok(n) => Ok::<ConfigView, Seq<char>>(ConfigView { max_tasks_per_stage: n as usize, ..v }),
            Err(NumberError::Empty) => Err(
                "bad header "@ + "max_tasks_per_stage"@ + ": "@ + "cannot parse integer from empty string"@,
            ),
            Err(NumberError::InvalidDigit) => Err(
                "bad header "@ + "max_tasks_per_stage"@ + ": "@ + "invalid digit found in string"@,
            ),
            Err(NumberError::Overflow) => Err(
                "bad header "@ + "max_tasks_per_stage"@ + ": "@ + "number too large to fit in target type"@,
            ),
        },
        with_entry(v, ("x-datafusion-distributed-config-distributed."@ + "worker_connection_buffer_budget_bytes"@, bytes), factor) == match number_of(
            header_text(bytes),
            usize::MAX as nat,
        ) {
            Ok(n) => Ok::<ConfigView, Seq<char>>(ConfigView { worker_connection_buffer_budget_bytes: n as usize, ..v }),
            Err(NumberError::Empty) => Err(
                "bad header "@ + "worker_connection_buffer_budget_bytes"@ + ": "@ + "cannot parse integer from empty string"@,
            ),
            Err(NumberError::InvalidDigit) => Err(
                "bad header "@ + "worker_connection_buffer_budget_bytes"@ + ": "@ + "invalid digit found in string"@,
            ),
            Err(NumberError::Overflow) => Err(
                "bad header "@ + "worker_connection_buffer_budget_bytes"@ + ": "@ + "number too large to fit in target type"@,
            ),
        },
        with_entry(v, ("x-datafusion-distributed-config-distributed."@ + "bytes_per_partition_per_second"@, bytes), factor) == match number_of(
            header_text(bytes),
            usize::MAX as nat,
        ) {
            Ok(n) => Ok::<ConfigView, Seq<char>>(ConfigView { bytes_per_partition_per_second: n as usize, ..v }),
            Err(NumberError::Empty) => Err(
                "bad header "@ + "bytes_per_partition_per_second"@ + ": "@ + "cannot parse integer from empty string"@,
            ),
            Err(NumberError::InvalidDigit) => Err(
                "bad header "@ + "bytes_per_partition_per_second"@ + ": "@ + "invalid digit found in string"@,
            ),
            Err(NumberError::Overflow) => Err(
                "bad header "@ + "bytes_per_partition_per_second"@ + ": "@ + "number too large to fit in target type"@,
            ),
        },
{
    lemma_field_names(v, Seq::empty());
    let c = config_settings(v, Seq::empty());
    assert(c[0].0 == "file_scan_config_bytes_per_partition"@);
    assert(c[1].0 == "cardinality_task_count_factor"@);
    assert(c[2].0 == "children_isolator_unions"@);
    assert(c[3].0 == "collect_metrics"@);
    assert(c[4].0 == "broadcast_joins"@);
    assert(c[5].0 == "compression"@);
    assert(c[6].0 == "shuffle_batch_size"@);
    assert(c[7].0 == "max_tasks_per_stage"@);
    assert(c[8].0 == "partial_reduce"@);
    assert(c[9].0 == "worker_connection_buffer_budget_bytes"@);
    assert(c[10].0 == "dynamic_task_count"@);
    assert(c[11].0 == "bytes_per_partition_per_second"@);
    lemma_header_of_field("file_scan_config_bytes_per_partition"@);
    lemma_header_of_field("shuffle_batch_size"@);
    lemma_header_of_field("max_tasks_per_stage"@);
    lemma_header_of_field("worker_connection_buffer_budget_bytes"@);
    lemma_header_of_field("bytes_per_partition_per_second"@);
}

/// The header named after the compression sets it to its text, that named after the factor sets
/// the factor to what its text gives, and neither sets anything else.
#[verifier::spinoff_prover]
pub proof fn a_header_sets_the_compression_or_the_factor(
    v: ConfigView,
    bytes: Seq<u8>,
    factor: Result<u64, Seq<char>>,
)
    requires
        is_header_text(bytes),
    ensures
        with_entry(v, ("x-datafusion-distributed-config-distributed."@ + "compression"@, bytes), factor) == Ok::<
            ConfigView,
            Seq<char>,
        >(ConfigView { compression: header_text(bytes), ..v }),
        with_entry(
            v,
            ("x-datafusion-distributed-config-distributed."@ + "cardinality_task_count_factor"@, bytes),
            factor,
        ) == match factor {
            Ok(bits) => Ok::<ConfigView, Seq<char>>(
                ConfigView { cardinality_task_count_factor: bits, ..v },
            ),
            Err(why) => Err(
                "bad header "@ + "cardinality_task_count_factor"@ + ": "@ + why,
            ),
        },
{
    lemma_field_names(v, Seq::empty());
    let c = config_settings(v, Seq::empty());
    assert(c[0].0 == "file_scan_config_bytes_per_partition"@);
    assert(c[1].0 == "cardinality_task_count_factor"@);
    assert(c[2].0 == "children_isolator_unions"@);
    assert(c[3].0 == "collect_metrics"@);
    assert(c[4].0 == "broadcast_joins"@);
    assert(c[5].0 == "compression"@);
    assert(c[6].0 == "shuffle_batch_size"@);
    assert(c[7].0 == "max_tasks_per_stage"@);
    assert(c[8].0 == "partial_reduce"@);
    assert(c[9].0 == "worker_connection_buffer_budget_bytes"@);
    assert(c[10].0 == "dynamic_task_count"@);
    assert(c[11].0 == "bytes_per_partition_per_second"@);
    lemma_header_of_field("compression"@);
    lemma_header_of_field("cardinality_task_count_factor"@);
}

/// A header outside the namespace of the fields is passed over, whatever it carries. One inside it
/// that is no text is refused, and one that names none of the twelve fields is passed over.
pub proof fn other_headers_are_passed_over(
    v: ConfigView,
    name: Seq<char>,
    field: Seq<char>,
    bytes: Seq<u8>,
    factor: Result<u64, Seq<char>>,
)
    ensures
        !has_prefix(name, "x-datafusion-distributed-config-distributed."@) ==> with_entry(
            v,
            (name, bytes),
            factor,
        ) == Ok::<ConfigView, Seq<char>>(v),
        !is_header_text(bytes) ==> with_entry(
            v,
            ("x-datafusion-distributed-config-distributed."@ + field, bytes),
            factor,
        ) == Err::<ConfigView, Seq<char>>(
            "invalid header value: "@ + "failed to convert header to a str"@,
        ),
        is_header_text(bytes) && !seq![
                "file_scan_config_bytes_per_partition"@,
                "cardinality_task_count_factor"@,
                "children_isolator_unions"@,
                "collect_metrics"@,
                "broadcast_joins"@,
                "compression"@,
                "shuffle_batch_size"@,
                "max_tasks_per_stage"@,
                "partial_reduce"@,
                "worker_connection_buffer_budget_bytes"@,
                "dynamic_task_count"@,
                "bytes_per_partition_per_second"@,
        ].contains(field) ==> with_entry(
            v,
            ("x-datafusion-distributed-config-distributed."@ + field, bytes),
            factor,
        ) == Ok::<ConfigView, Seq<char>>(v),
{
    lemma_namespace();
    lemma_header_of_field(field);
    let known = seq![
                "file_scan_config_bytes_per_partition"@,
                "cardinality_task_count_factor"@,
                "children_isolator_unions"@,
                "collect_metrics"@,
                "broadcast_joins"@,
                "compression"@,
                "shuffle_batch_size"@,
                "max_tasks_per_stage"@,
                "partial_reduce"@,
                "worker_connection_buffer_budget_bytes"@,
                "dynamic_task_count"@,
                "bytes_per_partition_per_second"@,
    ];
    assert(known[0] == "file_scan_config_bytes_per_partition"@);
    assert(known[1] == "cardinality_task_count_factor"@);
    assert(known[2] == "children_isolator_unions"@);
    assert(known[3] == "collect_metrics"@);
    assert(known[4] == "broadcast_joins"@);
    assert(known[5] == "compression"@);
    assert(known[6] == "shuffle_batch_size"@);
    assert(known[7] == "max_tasks_per_stage"@);
    assert(known[8] == "partial_reduce"@);
    assert(known[9] == "worker_connection_buffer_budget_bytes"@);
    assert(known[10] == "dynamic_task_count"@);
    assert(known[11] == "bytes_per_partition_per_second"@);
}

/// The two configurations agree in every field but that which `name` names.
#[verifier::opaque]
spec fn agree_but_named(v: ConfigView, w: ConfigView, name: Seq<char>) -> bool {
    &&& w.file_scan_config_bytes_per_partition == v.file_scan_config_bytes_per_partition || name == "x-datafusion-distributed-config-distributed."@ + "file_scan_config_bytes_per_partition"@
    &&& w.cardinality_task_count_factor == v.cardinality_task_count_factor || name == "x-datafusion-distributed-config-distributed."@ + "cardinality_task_count_factor"@
    &&& w.children_isolator_unions == v.children_isolator_unions || name == "x-datafusion-distributed-config-distributed."@ + "children_isolator_unions"@
    &&& w.collect_metrics == v.collect_metrics || name == "x-datafusion-distributed-config-distributed."@ + "collect_metrics"@
    &&& w.broadcast_joins == v.broadcast_joins || name == "x-datafusion-distributed-config-distributed."@ + "broadcast_joins"@
    &&& w.compression == v.compression || name == "x-datafusion-distributed-config-distributed."@ + "compression"@
    &&& w.shuffle_batch_size == v.shuffle_batch_size || name == "x-datafusion-distributed-config-distributed."@ + "shuffle_batch_size"@
    &&& w.max_tasks_per_stage == v.max_tasks_per_stage || name == "x-datafusion-distributed-config-distributed."@ + "max_tasks_per_stage"@
    &&& w.partial_reduce == v.partial_reduce || name == "x-datafusion-distributed-config-distributed."@ + "partial_reduce"@
    &&& w.worker_connection_buffer_budget_bytes == v.worker_connection_buffer_budget_bytes || name == "x-datafusion-distributed-config-distributed."@ + "worker_connection_buffer_budget_bytes"@
    &&& w.dynamic_task_count == v.dynamic_task_count || name == "x-datafusion-distributed-config-distributed."@ + "dynamic_task_count"@
    &&& w.bytes_per_partition_per_second == v.bytes_per_partition_per_second || name == "x-datafusion-distributed-config-distributed."@ + "bytes_per_partition_per_second"@
}

/// One header changes no field but that which it names.
#[verifier::spinoff_prover]
#[verifier::rlimit(40)]
proof fn lemma_one_field_at_most(v: ConfigView, entry: HeaderEntry, factor: Result<u64, Seq<char>>)
    ensures
        with_entry(v, entry, factor) matches Ok(w) ==> agree_but_named(v, w, entry.0),
{
    reveal(agree_but_named);
    lemma_namespace();
    if let Some(field) = config_field(entry.0) {
        assert(entry.0 =~= config_namespace() + field);
    }
}

/// Reading headers changes no field that none of them names.
#[verifier::spinoff_prover]
#[verifier::rlimit(40)]
pub proof fn unnamed_fields_stay(
    start: ConfigView,
    entries: Seq<HeaderEntry>,
    factors: Seq<Result<u64, Seq<char>>>,
    n: nat,
)
    ensures
        read_config(start, entries, factors, n) matches Ok(v) ==> {
            &&& (forall|i: int|
                0 <= i < n ==> (#[trigger] entries[i]).0 != "x-datafusion-distributed-config-distributed."@ + "file_scan_config_bytes_per_partition"@)
                ==> v.file_scan_config_bytes_per_partition == start.file_scan_config_bytes_per_partition
            &&& (forall|i: int|
                0 <= i < n ==> (#[trigger] entries[i]).0 != "x-datafusion-distributed-config-distributed."@ + "cardinality_task_count_factor"@)
                ==> v.cardinality_task_count_factor == start.cardinality_task_count_factor
            &&& (forall|i: int|
                0 <= i < n ==> (#[trigger] entries[i]).0 != "x-datafusion-distributed-config-distributed."@ + "children_isolator_unions"@)
                ==> v.children_isolator_unions == start.children_isolator_unions
            &&& (forall|i: int|
                0 <= i < n ==> (#[trigger] entries[i]).0 != "x-datafusion-distributed-config-distributed."@ + "collect_metrics"@)
                ==> v.collect_metrics == start.collect_metrics
            &&& (forall|i: int|
                0 <= i < n ==> (#[trigger] entries[i]).0 != "x-datafusion-distributed-config-distributed."@ + "broadcast_joins"@)
                ==> v.broadcast_joins == start.broadcast_joins
            &&& (forall|i: int|
                0 <= i < n ==> (#[trigger] entries[i]).0 != "x-datafusion-distributed-config-distributed."@ + "compression"@)
                ==> v.compression == start.compression
            &&& (forall|i: int|
                0 <= i < n ==> (#[trigger] entries[i]).0 != "x-datafusion-distributed-config-distributed."@ + "shuffle_batch_size"@)
                ==> v.shuffle_batch_size == start.shuffle_batch_size
            &&& (forall|i: int|
                0 <= i < n ==> (#[trigger] entries[i]).0 != "x-datafusion-distributed-config-distributed."@ + "max_tasks_per_stage"@)
                ==> v.max_tasks_per_stage == start.max_tasks_per_stage
            &&& (forall|i: int|
                0 <= i < n ==> (#[trigger] entries[i]).0 != "x-datafusion-distributed-config-distributed."@ + "partial_reduce"@)
                ==> v.partial_reduce == start.partial_reduce
            &&& (forall|i: int|
                0 <= i < n ==> (#[trigger] entries[i]).0 != "x-datafusion-distributed-config-distributed."@ + "worker_connection_buffer_budget_bytes"@)
                ==> v.worker_connection_buffer_budget_bytes == start.worker_connection_buffer_budget_bytes
            &&& (forall|i: int|
                0 <= i < n ==> (#[trigger] entries[i]).0 != "x-datafusion-distributed-config-distributed."@ + "dynamic_task_count"@)
                ==> v.dynamic_task_count == start.dynamic_task_count
            &&& (forall|i: int|
                0 <= i < n ==> (#[trigger] entries[i]).0 != "x-datafusion-distributed-config-distributed."@ + "bytes_per_partition_per_second"@)
                ==> v.bytes_per_partition_per_second == start.bytes_per_partition_per_second
        },
    decreases n,
{
    if n > 0 && read_config(start, entries, factors, n) is Ok {
        let m = (n - 1) as nat;
        unnamed_fields_stay(start, entries, factors, m);
        let before = read_config(start, entries, factors, m)->Ok_0;
        lemma_one_field_at_most(before, entries[m as int], factors[m as int]);
        reveal(agree_but_named);
        assert(entries[n - 1] == entries[m as int]);
    }
}

/// No headers change nothing; one header does what it does by itself; and headers before others
/// are read first, the others into what they left, unless one of them was refused.
pub proof fn headers_are_read_in_turn(
    start: ConfigView,
    first: Seq<HeaderEntry>,
    first_factors: Seq<Result<u64, Seq<char>>>,
    rest: Seq<HeaderEntry>,
    rest_factors: Seq<Result<u64, Seq<char>>>,
)
    requires
        first.len() == first_factors.len(),
        rest.len() == rest_factors.len(),
    ensures
        first.len() == 0 ==> read_config(start, first, first_factors, 0) == Ok::<
            ConfigView,
            Seq<char>,
        >(start),
        first.len() == 1 ==> read_config(start, first, first_factors, 1) == with_entry(
            start,
            first[0],
            first_factors[0],
        ),
        read_config(
            start,
            first + rest,
            first_factors + rest_factors,
            first.len() + rest.len(),
        ) == match read_config(start, first, first_factors, first.len()) {
            Ok(v) => read_config(v, rest, rest_factors, rest.len()),
            Err(m) => Err(m),
        },
    decreases rest.len(),
{
    reveal_with_fuel(read_config, 2);
    let all = first + rest;
    let all_factors = first_factors + rest_factors;
    lemma_same_entries_read(start, first, first_factors, all, all_factors, first.len());
    if let Ok(v) = read_config(start, first, first_factors, first.len()) {
        lemma_rest_read(start, v, first, first_factors, rest, rest_factors, rest.len());
    } else {
        lemma_refused(start, all, all_factors, first.len(), all.len());
    }
}

/// The same entries are read to the same end.
proof fn lemma_same_entries_read(
    start: ConfigView,
    a: Seq<HeaderEntry>,
    a_factors: Seq<Result<u64, Seq<char>>>,
    b: Seq<HeaderEntry>,
    b_factors: Seq<Result<u64, Seq<char>>>,
    n: nat,
)
    requires
        forall|i: int| 0 <= i < n ==> a[i] == b[i] && a_factors[i] == b_factors[i],
    ensures
        read_config(start, a, a_factors, n) == read_config(start, b, b_factors, n),
    decreases n,
{
    if n > 0 {
        lemma_same_entries_read(start, a, a_factors, b, b_factors, (n - 1) as nat);
        assert(a[n - 1] == b[n - 1]);
    }
}

/// What follows is read into what was left.
proof fn lemma_rest_read(
    start: ConfigView,
    v: ConfigView,
    first: Seq<HeaderEntry>,
    first_factors: Seq<Result<u64, Seq<char>>>,
    rest: Seq<HeaderEntry>,
    rest_factors: Seq<Result<u64, Seq<char>>>,
    n: nat,
)
    requires
        first.len() == first_factors.len(),
        rest.len() == rest_factors.len(),
        n <= rest.len(),
        read_config(start, first + rest, first_factors + rest_factors, first.len()) == Ok::<
            ConfigView,
            Seq<char>,
        >(v),
    ensures
        read_config(start, first + rest, first_factors + rest_factors, first.len() + n)
            == read_config(v, rest, rest_factors, n),
    decreases n,
{
    if n > 0 {
        let m = (n - 1) as nat;
        lemma_rest_read(start, v, first, first_factors, rest, rest_factors, m);
        assert((first + rest)[(first.len() + m) as int] == rest[m as int]);
        assert((first_factors + rest_factors)[(first.len() + m) as int] == rest_factors[m as int]);
    }
}

/// A refusal stays.
proof fn lemma_refused(
    start: ConfigView,
    entries: Seq<HeaderEntry>,
    factors: Seq<Result<u64, Seq<char>>>,
    n: nat,
    m: nat,
)
    requires
        n <= m,
        read_config(start, entries, factors, n) is Err,
    ensures
        read_config(start, entries, factors, m) == read_config(start, entries, factors, n),
    decreases m,
{
    if n < m {
        lemma_refused(start, entries, factors, n, (m - 1) as nat);
    }
}

/// What is taken for the answers of a reader of factors are its answers: for each header that
/// carries the factor as text, before the first that is refused, the bits or the message that the
/// reader gave for that very text.
pub proof fn answers_are_those_of_the_reader<R: Fn(&str) -> Result<u64, String>>(
    read: R,
    start: ConfigView,
    entries: Seq<HeaderEntry>,
    factors: Seq<Result<u64, Seq<char>>>,
    i: int,
)
    requires
        are_answers(read, start, entries, factors),
        0 <= i < entries.len(),
        entries[i].0 == "x-datafusion-distributed-config-distributed."@ + "cardinality_task_count_factor"@,
        is_header_text(entries[i].1),
        read_config(start, entries, factors, i as nat) is Ok,
    ensures
        exists|s: &str, factor: Result<u64, String>|
            s@ == header_text(entries[i].1) && #[trigger] read.ensures((s,), factor) && match factor {
                Ok(bits) => factors[i] == Ok::<u64, Seq<char>>(bits),
                Err(why) => factors[i] == Err::<u64, Seq<char>>(why@),
            },
{
    lemma_header_of_field("cardinality_task_count_factor"@);
    assert(answers(read, header_text(entries[i].1), factors[i]));
    let (s, factor) = choose|s: &str, factor: Result<u64, String>|
        s@ == header_text(entries[i].1) && #[trigger] read.ensures((s,), factor) && factor_view(
            factor,
        ) == factors[i];
    assert(read.ensures((s,), factor));
}

} // verus!
