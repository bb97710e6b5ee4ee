//! Propagation of the [`DistributedConfig`] to the workers.
//!
//! Each scalar field of the configuration travels in a header of its own. The one field that
//! holds a floating-point number is written and read by the caller: this module carries its bits
//! and its text.

use crate::config_extension_ext::{joined, FLIGHT_METADATA_CONFIG_PREFIX};
use crate::distributed_config::{ConfigView, DistributedConfig};
use crate::error::{DistributedError, ErrorView};
use crate::headers::{header_entries, header_name_text, header_pairs, header_text};
use crate::headers::{header_value_bytes, invalid_name_message, invalid_value_message};
use crate::headers::{is_header_name, is_header_text, is_header_value, is_plain, is_visible_text};
use crate::headers::{lemma_new_name, lemma_plain_name, lemma_plain_upto, lower};
use crate::headers::{map_full_message, no_text_message, parse_header_name, plain_upto};
use crate::headers::{try_insert_header, visible_text_reads_back, with_header, HeaderEntry};
use crate::session::{get_distributed_config, set_distributed_config};
use crate::session::{same_options, session_config_or_default, session_distributed_config};
use crate::session::{session_propagation_context, session_slots, SessionSlot};
use crate::text::{bool_of, bool_text, decimal, decimal_reads_back, flag_reads_back, flag_text};
use crate::text::{has_prefix, lemma_decimal_digits, number_of, number_text, parse_flag};
use crate::text::{parse_number, same_text, strip_prefix, NumberError};
use datafusion::prelude::SessionConfig;
use http::header::{HeaderMap, HeaderName, HeaderValue};
use std::sync::Arc;
use vstd::prelude::*;
use vstd::string::*;
use vstd::utf8::*;

verus! {

/// What the name of every header that carries a field of the configuration begins with.
pub open spec fn config_namespace() -> Seq<char> {
    FLIGHT_METADATA_CONFIG_PREFIX@ + "distributed."@
}

/// The scalar fields of a configuration and their texts, in the order in which they are written.
pub open spec fn config_settings(v: ConfigView, factor: Seq<char>) -> Seq<(Seq<char>, Seq<char>)> {
    seq![
        (
            "file_scan_config_bytes_per_partition"@,
            decimal(v.file_scan_config_bytes_per_partition as nat),
        ),
        ("cardinality_task_count_factor"@, factor),
        ("children_isolator_unions"@, bool_text(v.children_isolator_unions)),
        ("collect_metrics"@, bool_text(v.collect_metrics)),
        ("broadcast_joins"@, bool_text(v.broadcast_joins)),
        ("compression"@, v.compression),
        ("shuffle_batch_size"@, decimal(v.shuffle_batch_size as nat)),
        ("max_tasks_per_stage"@, decimal(v.max_tasks_per_stage as nat)),
        ("partial_reduce"@, bool_text(v.partial_reduce)),
        (
            "worker_connection_buffer_budget_bytes"@,
            decimal(v.worker_connection_buffer_budget_bytes as nat),
        ),
        ("dynamic_task_count"@, bool_text(v.dynamic_task_count)),
        ("bytes_per_partition_per_second"@, decimal(v.bytes_per_partition_per_second as nat)),
    ]
}

/// The entry of a header map that carries a field with this text.
pub open spec fn config_entry(field: Seq<char>, text: Seq<char>) -> HeaderEntry {
    (config_namespace() + field, encode_utf8(text))
}

/// The entries of a header map that carry a configuration.
pub open spec fn config_entries(v: ConfigView, factor: Seq<char>) -> Seq<HeaderEntry> {
    config_settings(v, factor).map_values(
        |s: (Seq<char>, Seq<char>)| config_entry(s.0, s.1),
    )
}

/// What an invalid value of a field says.
pub open spec fn value_failure(why: Seq<char>) -> Seq<char> {
    "invalid header value: "@ + why
}

/// The names of the fields are short, plain and different from one another.
#[verifier::spinoff_prover]
#[verifier::rlimit(40)]
pub(crate) proof fn lemma_field_names(v: ConfigView, factor: Seq<char>)
    ensures
        forall|i: int|
            0 <= i < 12 ==> (#[trigger] config_settings(v, factor)[i]).0.len() <= 40 && is_plain(
                config_settings(v, factor)[i].0,
            ),
        forall|i: int, j: int|
            0 <= i < j < 12 ==> config_settings(v, factor)[i].0 != config_settings(v, factor)[j].0,
{
    reveal_strlit("file_scan_config_bytes_per_partition");
    reveal_strlit("cardinality_task_count_factor");
    reveal_strlit("children_isolator_unions");
    reveal_strlit("collect_metrics");
    reveal_strlit("broadcast_joins");
    reveal_strlit("compression");
    reveal_strlit("shuffle_batch_size");
    reveal_strlit("max_tasks_per_stage");
    reveal_strlit("partial_reduce");
    reveal_strlit("worker_connection_buffer_budget_bytes");
    reveal_strlit("dynamic_task_count");
    reveal_strlit("bytes_per_partition_per_second");
    let c = config_settings(v, factor);
    assert("collect_metrics"@[0] != "broadcast_joins"@[0]);
    assert("shuffle_batch_size"@[0] != "dynamic_task_count"@[0]);
    assert forall|i: int, j: int| 0 <= i < j < 12 implies c[i].0 != c[j].0 by {
        assert(c[i].0.len() == field_lengths()[i]);
        assert(c[j].0.len() == field_lengths()[j]);
    }
    assert forall|i: int| 0 <= i < 12 implies (#[trigger] c[i]).0.len() <= 40 && is_plain(
        c[i].0,
    ) by {
        let field = c[i].0;
        assert(field.len() == field_lengths()[i]);
        assert(plain_upto(field, field.len())) by {
            reveal_with_fuel(plain_upto, 40);
        }
        lemma_plain_upto(field, field.len());
    }
}

/// How long the names of the fields are.
spec fn field_lengths() -> Seq<int> {
    seq![36, 29, 24, 15, 15, 11, 18, 19, 14, 37, 18, 30]
}

/// The namespace of the fields is plain.
proof fn lemma_namespace_plain()
    ensures
        config_namespace().len() == 44,
        is_plain(config_namespace()),
{
    reveal_strlit("x-datafusion-distributed-config-");
    reveal_strlit("distributed.");
    assert(plain_upto(FLIGHT_METADATA_CONFIG_PREFIX@, 32)) by {
        reveal_with_fuel(plain_upto, 33);
    }
    assert(plain_upto("distributed."@, 12)) by {
        reveal_with_fuel(plain_upto, 13);
    }
    lemma_plain_upto(FLIGHT_METADATA_CONFIG_PREFIX@, 32);
    lemma_plain_upto("distributed."@, 12);
}

/// The header names of the fields are header names in lower case.
proof fn lemma_config_names(v: ConfigView, factor: Seq<char>, i: int)
    requires
        0 <= i < 12,
    ensures
        is_header_name(config_entries(v, factor)[i].0),
        lower(config_entries(v, factor)[i].0) == config_entries(v, factor)[i].0,
{
    let field = config_settings(v, factor)[i].0;
    lemma_field_names(v, factor);
    lemma_namespace_plain();
    lemma_plain_name(config_namespace() + field);
}

/// Puts the field `field` with the text `value` into `headers`.
fn insert(headers: &mut HeaderMap<HeaderValue>, field: &str, value: &str) -> (r: Result<
    (),
    DistributedError,
>)
    requires
        is_header_name(config_namespace() + field@),
        header_entries(*old(headers)).len() < 6554,
    ensures
        r is Ok <==> is_header_value(value@),
        r is Ok ==> header_entries(*final(headers)) == with_header(
            header_entries(*old(headers)),
            lower(config_namespace() + field@),
            encode_utf8(value@),
        ),
        r matches Err(e) ==> e@ == ErrorView::Internal(
            value_failure("failed to parse header value"@),
        ),
{
    let mut name: String = joined(FLIGHT_METADATA_CONFIG_PREFIX, "distributed.");
    name.append(field);
    let name: HeaderName = match parse_header_name(name.as_str()) {
        Ok(n) => n,
        Err(e) => {
            return Err(
                DistributedError::Internal(
                    joined("invalid header name: ", invalid_name_message(&e).as_str()),
                ),
            );
        },
    };
    let value: HeaderValue = match HeaderValue::from_str(value) {
        Ok(v) => v,
        Err(e) => {
            return Err(
                DistributedError::Internal(
                    joined("invalid header value: ", invalid_value_message(&e).as_str()),
                ),
            );
        },
    };
    match try_insert_header(headers, name, value) {
        Ok(_) => Ok(()),
        Err(e) => Err(DistributedError::Internal(map_full_message(&e))),
    }
}

/// The scalar fields of `d` and their texts, with `factor_text` for that of the factor.
fn settings_of(d: &DistributedConfig, factor_text: &str) -> (r: Vec<(&'static str, String)>)
    ensures
        r@.map_values(|s: (&'static str, String)| (s.0@, s.1@)) == config_settings(
            d@,
            factor_text@,
        ),
{
    let mut r: Vec<(&'static str, String)> = Vec::new();
    r.push(
        (
            "file_scan_config_bytes_per_partition",
            number_text(d.file_scan_config_bytes_per_partition),
        ),
    );
    r.push(("cardinality_task_count_factor", factor_text.to_owned()));
    r.push(("children_isolator_unions", flag_text(d.children_isolator_unions).to_owned()));
    r.push(("collect_metrics", flag_text(d.collect_metrics).to_owned()));
    r.push(("broadcast_joins", flag_text(d.broadcast_joins).to_owned()));
    r.push(("compression", d.compression.clone()));
    r.push(("shuffle_batch_size", number_text(d.shuffle_batch_size)));
    r.push(("max_tasks_per_stage", number_text(d.max_tasks_per_stage)));
    r.push(("partial_reduce", flag_text(d.partial_reduce).to_owned()));
    r.push(
        (
            "worker_connection_buffer_budget_bytes",
            number_text(d.worker_connection_buffer_budget_bytes),
        ),
    );
    r.push(("dynamic_task_count", flag_text(d.dynamic_task_count).to_owned()));
    r.push(
        ("bytes_per_partition_per_second", number_text(d.bytes_per_partition_per_second)),
    );
    assert(r@.map_values(|s: (&'static str, String)| (s.0@, s.1@)) =~= config_settings(
        d@,
        factor_text@,
    ));
    r
}

/// `r` is what writing a configuration gives: the header map, unless a text is no header value.
pub open spec fn is_config_outcome(
    v: ConfigView,
    factor: Seq<char>,
    r: Result<HeaderMap<HeaderValue>, DistributedError>,
) -> bool {
    match r {
        Ok(headers) => {
            &&& is_header_value(factor)
            &&& is_header_value(v.compression)
            &&& header_entries(headers) == config_entries(v, factor)
        },
        Err(e) => {
            &&& !is_header_value(factor) || !is_header_value(v.compression)
            &&& e@ == ErrorView::Internal(value_failure("failed to parse header value"@))
        },
    }
}

/// Digits and the texts of booleans are header values.
proof fn lemma_scalar_texts(v: ConfigView, factor: Seq<char>, i: int)
    requires
        0 <= i < 12,
        i != 1,
        i != 5,
    ensures
        is_visible_text(config_settings(v, factor)[i].1),
{
    reveal_strlit("true");
    reveal_strlit("false");
    let s = config_settings(v, factor)[i].1;
    lemma_decimal_digits(v.file_scan_config_bytes_per_partition as nat);
    lemma_decimal_digits(v.shuffle_batch_size as nat);
    lemma_decimal_digits(v.max_tasks_per_stage as nat);
    lemma_decimal_digits(v.worker_connection_buffer_budget_bytes as nat);
    lemma_decimal_digits(v.bytes_per_partition_per_second as nat);
}

/// The headers that carry the scalar fields of `d`, with `factor_text` for the text of the factor.
pub fn distributed_config_headers(d: &DistributedConfig, factor_text: &str) -> (r: Result<
    HeaderMap<HeaderValue>,
    DistributedError,
>)
    ensures
        is_config_outcome(d@, factor_text@, r),
{
    let settings: Vec<(&'static str, String)> = settings_of(d, factor_text);
    let ghost texts = config_settings(d@, factor_text@);
    let ghost entries = config_entries(d@, factor_text@);
    let mut headers: HeaderMap<HeaderValue> = HeaderMap::new();
    assert(entries.take(0) =~= Seq::<HeaderEntry>::empty());
    for i in 0..settings.len()
        invariant
            texts == config_settings(d@, factor_text@),
            texts == settings@.map_values(|s: (&'static str, String)| (s.0@, s.1@)),
            entries == config_entries(d@, factor_text@),
            header_entries(headers) == entries.take(i as int),
            i > 1 ==> is_header_value(factor_text@),
            i > 5 ==> is_header_value(d@.compression),
    {
        let (field, text) = (settings[i].0, settings[i].1.as_str());
        assert(texts[i as int] == (field@, text@));
        proof {
            lemma_config_names(d@, factor_text@, i as int);
            if i != 1 && i != 5 {
                lemma_scalar_texts(d@, factor_text@, i as int);
                visible_text_reads_back(text@);
            }
            lemma_field_names(d@, factor_text@);
            let name = entries[i as int].0;
            let before = entries.take(i as int);
            assert forall|j: int| 0 <= j < before.len() implies (#[trigger] before[j]).0
                != name by {
                assert(before[j].0 == config_namespace() + texts[j].0);
                assert(texts[j].0 != field@);
                if before[j].0 == name {
                    let k = config_namespace().len() as int;
                    assert(before[j].0.skip(k) =~= texts[j].0);
                    assert(name.skip(k) =~= field@);
                }
            }
            lemma_new_name(before, name, encode_utf8(text@));
            assert(entries.take(i + 1) =~= before.push(entries[i as int]));
        }
        match insert(&mut headers, field, text) {
            Ok(_) => {},
            Err(e) => {
                return Err(e);
            },
        }
    }
    assert(entries.take(12) =~= entries);
    Ok(headers)
}

/// Serializes the scalar fields of the session's [`DistributedConfig`] into headers so workers can
/// reconstruct the config. `factor_text` gives the text of a double-precision number from its
/// bits. A session without a [`DistributedConfig`] gives no headers.
pub fn get_distributed_config_propagation_headers<F: Fn(u64) -> String>(
    cfg: &SessionConfig,
    factor_text: F,
) -> (r: Result<HeaderMap<HeaderValue>, DistributedError>)
    requires
        forall|bits: u64| factor_text.requires((bits,)),
    ensures
        match session_distributed_config(*cfg) {
            None => r is Ok && header_entries(r->Ok_0) == Seq::<HeaderEntry>::empty(),
            Some(d) => exists|text: String|
                #[trigger] factor_text.ensures((d@.cardinality_task_count_factor,), text)
                    && is_config_outcome(d@, text@, r),
        },
{
    match get_distributed_config(cfg) {
        Some(d) => {
            let text: String = factor_text(d.cardinality_task_count_factor);
            assert(factor_text.ensures((d@.cardinality_task_count_factor,), text));
            distributed_config_headers(&d, text.as_str())
        },
        None => Ok(HeaderMap::new()),
    }
}

/// What a bad value of the field `field` says.
pub open spec fn field_failure(field: Seq<char>, why: Seq<char>) -> Seq<char> {
    "bad header "@ + field + ": "@ + why
}

/// What is wrong with a text that is no unsigned number.
pub open spec fn number_failure(e: NumberError) -> Seq<char> {
    match e {
        NumberError::Empty => "cannot parse integer from empty string"@,
        NumberError::InvalidDigit => "invalid digit found in string"@,
        NumberError::Overflow => "number too large to fit in target type"@,
    }
}

/// What is wrong with a text that is no boolean.
pub open spec fn flag_failure() -> Seq<char> {
    "provided string was not `true` or `false`"@
}

/// The number that the text `value` of the field `field` stands for.
pub open spec fn number_field(field: Seq<char>, value: Seq<char>) -> Result<usize, Seq<char>> {
    match number_of(value, usize::MAX as nat) {
        Ok(n) => Ok(n as usize),
        Err(e) => Err(field_failure(field, number_failure(e))),
    }
}

/// The boolean that the text `value` of the field `field` stands for.
pub open spec fn flag_field(field: Seq<char>, value: Seq<char>) -> Result<bool, Seq<char>> {
    match bool_of(value) {
        Some(b) => Ok(b),
        None => Err(field_failure(field, flag_failure())),
    }
}

/// The configuration `v` with the field `field` read from the text `value`, or the message of the
/// failure. `factor` is what the text gives where the field is the factor. A field of another name
/// changes nothing.
pub open spec fn with_field(
    v: ConfigView,
    field: Seq<char>,
    value: Seq<char>,
    factor: Result<u64, Seq<char>>,
) -> Result<ConfigView, Seq<char>> {
    if field == "file_scan_config_bytes_per_partition"@ {
        match number_field(field, value) {
            Ok(x) => Ok(ConfigView { file_scan_config_bytes_per_partition: x, ..v }),
            Err(m) => Err(m),
        }
    } else if field == "cardinality_task_count_factor"@ {
        match factor {
            Ok(bits) => Ok(ConfigView { cardinality_task_count_factor: bits, ..v }),
            Err(why) => Err(field_failure(field, why)),
        }
    } else if field == "children_isolator_unions"@ {
        match flag_field(field, value) {
            Ok(x) => Ok(ConfigView { children_isolator_unions: x, ..v }),
            Err(m) => Err(m),
        }
    } else if field == "collect_metrics"@ {
        match flag_field(field, value) {
            Ok(x) => Ok(ConfigView { collect_metrics: x, ..v }),
            Err(m) => Err(m),
        }
    } else if field == "broadcast_joins"@ {
        match flag_field(field, value) {
            Ok(x) => Ok(ConfigView { broadcast_joins: x, ..v }),
            Err(m) => Err(m),
        }
    } else if field == "compression"@ {
        Ok(ConfigView { compression: value, ..v })
    } else if field == "shuffle_batch_size"@ {
        match number_field(field, value) {
            Ok(x) => Ok(ConfigView { shuffle_batch_size: x, ..v }),
            Err(m) => Err(m),
        }
    } else if field == "max_tasks_per_stage"@ {
        match number_field(field, value) {
            Ok(x) => Ok(ConfigView { max_tasks_per_stage: x, ..v }),
            Err(m) => Err(m),
        }
    } else if field == "partial_reduce"@ {
        match flag_field(field, value) {
            Ok(x) => Ok(ConfigView { partial_reduce: x, ..v }),
            Err(m) => Err(m),
        }
    } else if field == "worker_connection_buffer_budget_bytes"@ {
        match number_field(field, value) {
            Ok(x) => Ok(ConfigView { worker_connection_buffer_budget_bytes: x, ..v }),
            Err(m) => Err(m),
        }
    } else if field == "dynamic_task_count"@ {
        match flag_field(field, value) {
            Ok(x) => Ok(ConfigView { dynamic_task_count: x, ..v }),
            Err(m) => Err(m),
        }
    } else if field == "bytes_per_partition_per_second"@ {
        match number_field(field, value) {
            Ok(x) => Ok(ConfigView { bytes_per_partition_per_second: x, ..v }),
            Err(m) => Err(m),
        }
    } else {
        Ok(v)
    }
}

/// A parse result by the text of its failure.
pub open spec fn factor_view(factor: Result<u64, String>) -> Result<u64, Seq<char>> {
    match factor {
        Ok(bits) => Ok(bits),
        Err(why) => Err(why@),
    }
}

/// The error for a bad value of the field `field`.
fn bad_header(field: &str, why: &str) -> (r: DistributedError)
    ensures
        r@ == ErrorView::Internal(field_failure(field@, why@)),
{
    let mut message: String = joined("bad header ", field);
    message.append(": ");
    message.append(why);
    DistributedError::Internal(message)
}

/// Reads a number.
fn read_number(field: &str, value: &str) -> (r: Result<usize, DistributedError>)
    ensures
        match number_field(field@, value@) {
            Ok(n) => r == Ok::<usize, DistributedError>(n),
            Err(m) => r is Err && r->Err_0@ == ErrorView::Internal(m),
        },
{
    match parse_number(value) {
        Ok(n) => Ok(n),
        Err(NumberError::Empty) => Err(
            bad_header(field, "cannot parse integer from empty string"),
        ),
        Err(NumberError::InvalidDigit) => Err(bad_header(field, "invalid digit found in string")),
        Err(NumberError::Overflow) => Err(
            bad_header(field, "number too large to fit in target type"),
        ),
    }
}

/// Reads a boolean.
fn read_flag(field: &str, value: &str) -> (r: Result<bool, DistributedError>)
    ensures
        match flag_field(field@, value@) {
            Ok(b) => r == Ok::<bool, DistributedError>(b),
            Err(m) => r is Err && r->Err_0@ == ErrorView::Internal(m),
        },
{
    match parse_flag(value) {
        Some(b) => Ok(b),
        None => Err(bad_header(field, "provided string was not `true` or `false`")),
    }
}

/// Sets the field `field` of `d` from the text `value`. `factor` is what the text gives where the
/// field is the factor: the bits of a double-precision number, or what is wrong with it.
pub fn apply_field(
    d: &mut DistributedConfig,
    field: &str,
    value: &str,
    factor: Result<u64, String>,
) -> (r: Result<(), DistributedError>)
    ensures
        match with_field(old(d)@, field@, value@, factor_view(factor)) {
            Ok(v) => r is Ok && final(d)@ == v,
            Err(m) => r is Err && r->Err_0@ == ErrorView::Internal(m) && final(d)@ == old(d)@,
        },
{
    if same_text(field, "file_scan_config_bytes_per_partition") {
        d.file_scan_config_bytes_per_partition = read_number(field, value)?;
    } else if same_text(field, "cardinality_task_count_factor") {
        match factor {
            Ok(bits) => {
                d.cardinality_task_count_factor = bits;
            },
            Err(why) => {
                return Err(bad_header(field, why.as_str()));
            },
        }
    } else if same_text(field, "children_isolator_unions") {
        d.children_isolator_unions = read_flag(field, value)?;
    } else if same_text(field, "collect_metrics") {
        d.collect_metrics = read_flag(field, value)?;
    } else if same_text(field, "broadcast_joins") {
        d.broadcast_joins = read_flag(field, value)?;
    } else if same_text(field, "compression") {
        d.compression = value.to_owned();
    } else if same_text(field, "shuffle_batch_size") {
        d.shuffle_batch_size = read_number(field, value)?;
    } else if same_text(field, "max_tasks_per_stage") {
        d.max_tasks_per_stage = read_number(field, value)?;
    } else if same_text(field, "partial_reduce") {
        d.partial_reduce = read_flag(field, value)?;
    } else if same_text(field, "worker_connection_buffer_budget_bytes") {
        d.worker_connection_buffer_budget_bytes = read_number(field, value)?;
    } else if same_text(field, "dynamic_task_count") {
        d.dynamic_task_count = read_flag(field, value)?;
    } else if same_text(field, "bytes_per_partition_per_second") {
        d.bytes_per_partition_per_second = read_number(field, value)?;
    }
    Ok(())
}

/// The field that a header of this name carries, if it carries one.
pub open spec fn config_field(name: Seq<char>) -> Option<Seq<char>> {
    if has_prefix(name, config_namespace()) {
        Some(name.skip(config_namespace().len() as int))
    } else {
        None
    }
}

/// The configuration `v` after one more entry of a header map was read.
pub open spec fn with_entry(
    v: ConfigView,
    entry: HeaderEntry,
    factor: Result<u64, Seq<char>>,
) -> Result<ConfigView, Seq<char>> {
    match config_field(entry.0) {
        None => Ok(v),
        Some(field) => if is_header_text(entry.1) {
            with_field(v, field, header_text(entry.1), factor)
        } else {
            Err(value_failure("failed to convert header to a str"@))
        },
    }
}

/// The configuration `start` after the first `n` entries of a header map were read, or the message
/// of the first of them that is refused. `factors` holds, at the place of each entry that carries
/// the factor, what its text gives.
pub open spec fn read_config(
    start: ConfigView,
    entries: Seq<HeaderEntry>,
    factors: Seq<Result<u64, Seq<char>>>,
    n: nat,
) -> Result<ConfigView, Seq<char>>
    decreases n,
{
    if n == 0 {
        Ok(start)
    } else {
        match read_config(start, entries, factors, (n - 1) as nat) {
            Ok(v) => with_entry(v, entries[n - 1], factors[n - 1]),
            Err(m) => Err(m),
        }
    }
}

/// The entry carries the factor, as text.
pub open spec fn carries_factor(entry: HeaderEntry) -> bool {
    config_field(entry.0) == Some("cardinality_task_count_factor"@) && is_header_text(entry.1)
}

/// `outcome` is an answer of `parse` to `text`.
pub open spec fn answers<F: Fn(&str) -> Result<u64, String>>(
    parse: F,
    text: Seq<char>,
    outcome: Result<u64, Seq<char>>,
) -> bool {
    exists|s: &str, factor: Result<u64, String>|
        s@ == text && #[trigger] parse.ensures((s,), factor) && factor_view(factor) == outcome
}

/// `factors` holds the answers of `parse` to the texts of the factor, for each entry of a header
/// map that is read.
pub open spec fn are_answers<F: Fn(&str) -> Result<u64, String>>(
    parse: F,
    start: ConfigView,
    entries: Seq<HeaderEntry>,
    factors: Seq<Result<u64, Seq<char>>>,
) -> bool {
    &&& factors.len() == entries.len()
    &&& forall|i: int|
        0 <= i < entries.len() && carries_factor(entries[i]) && read_config(
            start,
            entries,
            factors,
            i as nat,
        ) is Ok ==> answers(parse, header_text(entries[i].1), #[trigger] factors[i])
}

/// Only the answers to the entries that are read matter.
proof fn lemma_later_factors(
    start: ConfigView,
    entries: Seq<HeaderEntry>,
    f: Seq<Result<u64, Seq<char>>>,
    g: Seq<Result<u64, Seq<char>>>,
    n: nat,
)
    requires
        forall|i: int| 0 <= i < n ==> f[i] == g[i],
    ensures
        read_config(start, entries, f, n) == read_config(start, entries, g, n),
    decreases n,
{
    if n > 0 {
        lemma_later_factors(start, entries, f, g, (n - 1) as nat);
    }
}

/// A failure stays.
proof fn lemma_failure_stays(
    start: ConfigView,
    entries: Seq<HeaderEntry>,
    factors: Seq<Result<u64, Seq<char>>>,
    n: nat,
    m: nat,
)
    requires
        n <= m,
        read_config(start, entries, factors, n) is Err,
    ensures
        read_config(start, entries, factors, m) == read_config(start, entries, factors, n),
    decreases m,
{
    if n < m {
        lemma_failure_stays(start, entries, factors, n, (m - 1) as nat);
    }
}

/// Deserializes the scalar fields of the [`DistributedConfig`] from headers into the session.
/// Called on the worker side when a task arrives. What the session has is kept where no header
/// says otherwise, and is all kept where a header is refused; a session that has no configuration
/// starts from the default one for this kind of build. `parse_factor` reads a double-precision
/// number: it gives its bits, or says what is wrong with the text.
pub fn set_distributed_config_from_headers<F: Fn(&str) -> Result<u64, String>>(
    cfg: &mut SessionConfig,
    headers: &HeaderMap<HeaderValue>,
    parse_factor: F,
    test_build: bool,
) -> (r: Result<(), DistributedError>)
    requires
        forall|s: &str| parse_factor.requires((s,)),
    ensures
        exists|factors: Seq<Result<u64, Seq<char>>>|
            #[trigger] are_answers(
                parse_factor,
                session_config_or_default(*old(cfg), test_build),
                header_entries(*headers),
                factors,
            ) && match read_config(
                session_config_or_default(*old(cfg), test_build),
                header_entries(*headers),
                factors,
                header_entries(*headers).len(),
            ) {
                Ok(v) => {
                    &&& r is Ok
                    &&& session_distributed_config(*final(cfg)) is Some
                    &&& session_distributed_config(*final(cfg))->0@ == v
                },
                Err(m) => {
                    &&& r is Err
                    &&& r->Err_0@ == ErrorView::Internal(m)
                    &&& *final(cfg) == *old(cfg)
                },
            },
        session_slots(*final(cfg)).remove(SessionSlot::DistributedConfig) == session_slots(*old(cfg)).remove(
            SessionSlot::DistributedConfig,
        ),
        session_propagation_context(*final(cfg)) == session_propagation_context(*old(cfg)),
        same_options(*final(cfg), *old(cfg)),
{
    let ghost start = session_config_or_default(*cfg, test_build);
    let ghost entries = header_entries(*headers);
    let ghost mut factors: Seq<Result<u64, Seq<char>>> = Seq::new(
        entries.len(),
        |i: int| Ok::<u64, Seq<char>>(0),
    );
    let namespace: String = joined(FLIGHT_METADATA_CONFIG_PREFIX, "distributed.");
    let mut d: DistributedConfig = match get_distributed_config(cfg) {
        Some(d) => (*d).clone(),
        None => DistributedConfig::default_for(test_build),
    };
    let pairs: Vec<(&HeaderName, &HeaderValue)> = header_pairs(headers);
    for i in 0..pairs.len()
        invariant
            *cfg == *old(cfg),
            start == session_config_or_default(*cfg, test_build),
            entries == header_entries(*headers),
            forall|s: &str| parse_factor.requires((s,)),
            namespace@ == config_namespace(),
            pairs@.len() == entries.len(),
            forall|j: int|
                0 <= j < pairs@.len() ==> {
                    &&& header_name_text(*(#[trigger] pairs@[j]).0) == entries[j].0
                    &&& header_value_bytes(*pairs@[j].1) == entries[j].1
                },
            factors.len() == entries.len(),
            forall|j: int|
                0 <= j < i && carries_factor(entries[j]) ==> answers(
                    parse_factor,
                    header_text(entries[j].1),
                    #[trigger] factors[j],
                ),
            read_config(start, entries, factors, i as nat) == Ok::<ConfigView, Seq<char>>(d@),
    {
        let (name, value) = pairs[i];
        match strip_prefix(name.as_str(), namespace.as_str()) {
            None => {},
            Some(field) => {
                let text: &str = match value.to_str() {
                    Ok(s) => s,
                    Err(e) => {
                        proof {
                            lemma_failure_stays(
                                start,
                                entries,
                                factors,
                                (i + 1) as nat,
                                entries.len(),
                            );
                            lemma_read_until(parse_factor, start, entries, factors, i as nat);
                        }
                        return Err(
                            DistributedError::Internal(
                                joined("invalid header value: ", no_text_message(&e).as_str()),
                            ),
                        );
                    },
                };
                let factor: Result<u64, String> = if same_text(
                    field,
                    "cardinality_task_count_factor",
                ) {
                    parse_factor(text)
                } else {
                    Ok(0)
                };
                proof {
                    let before = factors;
                    factors = before.update(i as int, factor_view(factor));
                    lemma_later_factors(start, entries, before, factors, i as nat);
                    assert forall|j: int| 0 <= j <= i && carries_factor(entries[j]) implies answers(
                        parse_factor,
                        header_text(entries[j].1),
                        #[trigger] factors[j],
                    ) by {
                        if j < i {
                            assert(factors[j] == before[j]);
                        } else {
                            assert(parse_factor.ensures((text,), factor));
                        }
                    }
                }
                match apply_field(&mut d, field, text, factor) {
                    Ok(_) => {},
                    Err(e) => {
                        proof {
                            lemma_failure_stays(
                                start,
                                entries,
                                factors,
                                (i + 1) as nat,
                                entries.len(),
                            );
                            lemma_read_until(
                                parse_factor,
                                start,
                                entries,
                                factors,
                                (i + 1) as nat,
                            );
                        }
                        return Err(e);
                    },
                }
            },
        }
    }
    assert(are_answers(parse_factor, start, entries, factors));
    set_distributed_config(cfg, Arc::new(d));
    Ok(())
}

/// Answers to the entries up to a failure are answers to all entries that are read.
proof fn lemma_read_until<F: Fn(&str) -> Result<u64, String>>(
    parse: F,
    start: ConfigView,
    entries: Seq<HeaderEntry>,
    factors: Seq<Result<u64, Seq<char>>>,
    n: nat,
)
    requires
        factors.len() == entries.len(),
        n <= entries.len(),
        forall|j: int|
            0 <= j < n && carries_factor(entries[j]) ==> answers(
                parse,
                header_text(entries[j].1),
                #[trigger] factors[j],
            ),
        n < entries.len() ==> (read_config(start, entries, factors, n) is Err || read_config(
            start,
            entries,
            factors,
            n + 1,
        ) is Err && !carries_factor(entries[n as int])),
    ensures
        are_answers(parse, start, entries, factors),
{
    assert forall|i: int|
        0 <= i < entries.len() && carries_factor(entries[i]) && read_config(
            start,
            entries,
            factors,
            i as nat,
        ) is Ok implies answers(parse, header_text(entries[i].1), #[trigger] factors[i]) by {
        if i >= n {
            if read_config(start, entries, factors, n) is Err {
                lemma_failure_stays(start, entries, factors, n, i as nat);
            } else if i > n {
                lemma_failure_stays(start, entries, factors, n + 1, i as nat);
            }
        }
    }
}

/// The configuration `v` with its field number `i` taken from `from`.
spec fn with_field_from(v: ConfigView, from: ConfigView, i: int) -> ConfigView {
    if i == 0 {
        ConfigView { file_scan_config_bytes_per_partition: from.file_scan_config_bytes_per_partition, ..v }
    } else if i == 1 {
        ConfigView { cardinality_task_count_factor: from.cardinality_task_count_factor, ..v }
    } else if i == 2 {
        ConfigView { children_isolator_unions: from.children_isolator_unions, ..v }
    } else if i == 3 {
        ConfigView { collect_metrics: from.collect_metrics, ..v }
    } else if i == 4 {
        ConfigView { broadcast_joins: from.broadcast_joins, ..v }
    } else if i == 5 {
        ConfigView { compression: from.compression, ..v }
    } else if i == 6 {
        ConfigView { shuffle_batch_size: from.shuffle_batch_size, ..v }
    } else if i == 7 {
        ConfigView { max_tasks_per_stage: from.max_tasks_per_stage, ..v }
    } else if i == 8 {
        ConfigView { partial_reduce: from.partial_reduce, ..v }
    } else if i == 9 {
        ConfigView { worker_connection_buffer_budget_bytes: from.worker_connection_buffer_budget_bytes, ..v }
    } else if i == 10 {
        ConfigView { dynamic_task_count: from.dynamic_task_count, ..v }
    } else {
        ConfigView { bytes_per_partition_per_second: from.bytes_per_partition_per_second, ..v }
    }
}

/// Reading the header of one field gives that field.
proof fn lemma_field_reads_back(
    v: ConfigView,
    from: ConfigView,
    text: Seq<char>,
    factor: Result<u64, Seq<char>>,
    i: int,
)
    requires
        0 <= i < 12,
        is_visible_text(text),
        is_visible_text(from.compression),
        i == 1 ==> factor == Ok::<u64, Seq<char>>(from.cardinality_task_count_factor),
    ensures
        with_entry(v, config_entries(from, text)[i], factor) == Ok::<ConfigView, Seq<char>>(
            with_field_from(v, from, i),
        ),
{
    let (field, value) = config_settings(from, text)[i];
    let entry = config_entries(from, text)[i];
    assert(entry == config_entry(field, value));
    assert(entry.0.take(config_namespace().len() as int) =~= config_namespace());
    assert(entry.0.skip(config_namespace().len() as int) =~= field);
    assert(config_field(entry.0) == Some(field));
    if i != 1 && i != 5 {
        lemma_scalar_texts(from, text, i);
    }
    visible_text_reads_back(value);
    decimal_reads_back(from.file_scan_config_bytes_per_partition as nat, usize::MAX as nat);
    decimal_reads_back(from.shuffle_batch_size as nat, usize::MAX as nat);
    decimal_reads_back(from.max_tasks_per_stage as nat, usize::MAX as nat);
    decimal_reads_back(from.worker_connection_buffer_budget_bytes as nat, usize::MAX as nat);
    decimal_reads_back(from.bytes_per_partition_per_second as nat, usize::MAX as nat);
    flag_reads_back(from.children_isolator_unions);
    flag_reads_back(from.collect_metrics);
    flag_reads_back(from.broadcast_joins);
    flag_reads_back(from.partial_reduce);
    flag_reads_back(from.dynamic_task_count);
    lemma_field_names(from, text);
    let c = config_settings(from, text);
    assert forall|j: int| 0 <= j < 12 && j != i implies c[j].0 != field by {
        if j < i {
            assert(c[j].0 != c[i].0);
        } else {
            assert(c[i].0 != c[j].0);
        }
    }
    assert(c[0].0 == "file_scan_config_bytes_per_partition"@);
    assert(c[1].0 == "cardinality_task_count_factor"@);
    assert(c[2].0 == "children_isolator_unions"@);
    assert(c[3].0 == "collect_metrics"@);
    assert(c[4].0 == "broadcast_joins"@);
    assert(c[5].0 == "compression"@);
    assert(c[6].0 == "shuffle_batch_size"@);
    assert(c[7].0 == "max_tasks_per_stage"@);
    assert(c[8].0 == "partial_reduce"@);
    assert(c[9].0 == "worker_connection_buffer_budget_bytes"@);
    assert(c[10].0 == "dynamic_task_count"@);
    assert(c[11].0 == "bytes_per_partition_per_second"@);
}

/// A configuration that is written into headers and read from them arrives: every scalar field of
/// the receiver is that of the sender, and what the receiver holds beside them is its own. This is
/// so where the texts of the compression and of the factor are visible ASCII and the text of the
/// factor is read as the factor.
pub proof fn config_survives_propagation(
    sender: ConfigView,
    receiver: ConfigView,
    factor_text: Seq<char>,
    factors: Seq<Result<u64, Seq<char>>>,
)
    requires
        is_visible_text(sender.compression),
        is_visible_text(factor_text),
        factors.len() == 12,
        factors[1] == Ok::<u64, Seq<char>>(sender.cardinality_task_count_factor),
    ensures
        is_header_value(sender.compression),
        is_header_value(factor_text),
        config_entries(sender, factor_text).len() == 12,
        carries_factor(config_entries(sender, factor_text)[1]),
        header_text(config_entries(sender, factor_text)[1].1) == factor_text,
        read_config(receiver, config_entries(sender, factor_text), factors, 12) == Ok::<
            ConfigView,
            Seq<char>,
        >(
            ConfigView {
                task_estimators: receiver.task_estimators,
                channel_resolver: receiver.channel_resolver,
                worker_resolver: receiver.worker_resolver,
                work_unit_feed_getters: receiver.work_unit_feed_getters,
                ..sender
            },
        ),
{
    let entries = config_entries(sender, factor_text);
    visible_text_reads_back(sender.compression);
    visible_text_reads_back(factor_text);
    let name = entries[1].0;
    assert(name.take(config_namespace().len() as int) =~= config_namespace());
    assert(name.skip(config_namespace().len() as int) =~= "cardinality_task_count_factor"@);
    lemma_fields_read_back(sender, receiver, factor_text, factors, 12);
    reveal_with_fuel(with_fields_from, 13);
}

/// The configuration `v` with its first `n` fields taken from `from`.
spec fn with_fields_from(v: ConfigView, from: ConfigView, n: nat) -> ConfigView
    decreases n,
{
    if n == 0 {
        v
    } else {
        with_field_from(with_fields_from(v, from, (n - 1) as nat), from, n - 1)
    }
}

/// Reading the headers of the first fields gives those fields.
proof fn lemma_fields_read_back(
    sender: ConfigView,
    receiver: ConfigView,
    factor_text: Seq<char>,
    factors: Seq<Result<u64, Seq<char>>>,
    n: nat,
)
    requires
        n <= 12,
        is_visible_text(sender.compression),
        is_visible_text(factor_text),
        n > 1 ==> factors[1] == Ok::<u64, Seq<char>>(sender.cardinality_task_count_factor),
    ensures
        read_config(receiver, config_entries(sender, factor_text), factors, n) == Ok::<
            ConfigView,
            Seq<char>,
        >(with_fields_from(receiver, sender, n)),
    decreases n,
{
    if n > 0 {
        let m = (n - 1) as nat;
        lemma_fields_read_back(sender, receiver, factor_text, factors, m);
        lemma_field_reads_back(
            with_fields_from(receiver, sender, m),
            sender,
            factor_text,
            factors[m as int],
            m as int,
        );
    }
}

/// `write` gives a visible text for the factor `bits`, and `read` gives that factor for the text.
pub open spec fn factor_reads_back<W: Fn(u64) -> String, R: Fn(&str) -> Result<u64, String>>(
    write: W,
    read: R,
    bits: u64,
) -> bool {
    &&& forall|text: String| #[trigger] write.ensures((bits,), text) ==> is_visible_text(text@)
    &&& forall|text: String, s: &str, factor: Result<u64, String>|
        #[trigger] write.ensures((bits,), text) && s@ == text@ && #[trigger] read.ensures(
            (s,),
            factor,
        ) ==> factor == Ok::<u64, String>(bits)
}

/// A configuration that one session writes into headers and another reads from them arrives,
/// whatever the two do to write and to read the factor, as long as the factor is read back: the
/// headers are written, and whatever answers reading them is given, it succeeds and gives every
/// scalar field of the sender.
pub proof fn config_survives_any_reader<
    W: Fn(u64) -> String,
    R: Fn(&str) -> Result<u64, String>,
>(
    write: W,
    read: R,
    sender: ConfigView,
    receiver: ConfigView,
    text: String,
    factors: Seq<Result<u64, Seq<char>>>,
)
    requires
        is_visible_text(sender.compression),
        factor_reads_back(write, read, sender.cardinality_task_count_factor),
        write.ensures((sender.cardinality_task_count_factor,), text),
        are_answers(read, receiver, config_entries(sender, text@), factors),
    ensures
        is_header_value(sender.compression),
        is_header_value(text@),
        read_config(
            receiver,
            config_entries(sender, text@),
            factors,
            config_entries(sender, text@).len(),
        ) == Ok::<ConfigView, Seq<char>>(
            ConfigView {
                task_estimators: receiver.task_estimators,
                channel_resolver: receiver.channel_resolver,
                worker_resolver: receiver.worker_resolver,
                work_unit_feed_getters: receiver.work_unit_feed_getters,
                ..sender
            },
        ),
{
    let entries = config_entries(sender, text@);
    visible_text_reads_back(text@);
    let name = entries[1].0;
    assert(name.take(config_namespace().len() as int) =~= config_namespace());
    assert(name.skip(config_namespace().len() as int) =~= "cardinality_task_count_factor"@);
    assert(carries_factor(entries[1]));
    lemma_fields_read_back(sender, receiver, text@, factors, 1);
    assert(answers(read, text@, factors[1]));
    config_survives_propagation(sender, receiver, text@, factors);
}

/// Reading headers never touches what a configuration holds beside its scalar fields.
pub proof fn reading_keeps_handles(
    start: ConfigView,
    entries: Seq<HeaderEntry>,
    factors: Seq<Result<u64, Seq<char>>>,
    n: nat,
)
    ensures
        read_config(start, entries, factors, n) matches Ok(v) ==> {
            &&& v.task_estimators == start.task_estimators
            &&& v.channel_resolver == start.channel_resolver
            &&& v.worker_resolver == start.worker_resolver
            &&& v.work_unit_feed_getters == start.work_unit_feed_getters
        },
    decreases n,
{
    if n > 0 {
        reading_keeps_handles(start, entries, factors, (n - 1) as nat);
    }
}

/// `a` and `b` are the same, or both what they were.
spec fn same_or_kept<T>(a: T, b: T, from_a: T, from_b: T) -> bool {
    a == b || a == from_a && b == from_b
}

/// Each field of the two configurations is the same, or is in both what it was.
#[verifier::opaque]
spec fn fields_same_or_kept(
    a: ConfigView,
    b: ConfigView,
    from_a: ConfigView,
    from_b: ConfigView,
) -> bool {
    &&& same_or_kept(
        a.file_scan_config_bytes_per_partition,
        b.file_scan_config_bytes_per_partition,
        from_a.file_scan_config_bytes_per_partition,
        from_b.file_scan_config_bytes_per_partition,
    )
    &&& same_or_kept(
        a.cardinality_task_count_factor,
        b.cardinality_task_count_factor,
        from_a.cardinality_task_count_factor,
        from_b.cardinality_task_count_factor,
    )
    &&& same_or_kept(
        a.children_isolator_unions,
        b.children_isolator_unions,
        from_a.children_isolator_unions,
        from_b.children_isolator_unions,
    )
    &&& same_or_kept(
        a.collect_metrics,
        b.collect_metrics,
        from_a.collect_metrics,
        from_b.collect_metrics,
    )
    &&& same_or_kept(
        a.broadcast_joins,
        b.broadcast_joins,
        from_a.broadcast_joins,
        from_b.broadcast_joins,
    )
    &&& same_or_kept(
        a.compression,
        b.compression,
        from_a.compression,
        from_b.compression,
    )
    &&& same_or_kept(
        a.shuffle_batch_size,
        b.shuffle_batch_size,
        from_a.shuffle_batch_size,
        from_b.shuffle_batch_size,
    )
    &&& same_or_kept(
        a.max_tasks_per_stage,
        b.max_tasks_per_stage,
        from_a.max_tasks_per_stage,
        from_b.max_tasks_per_stage,
    )
    &&& same_or_kept(
        a.partial_reduce,
        b.partial_reduce,
        from_a.partial_reduce,
        from_b.partial_reduce,
    )
    &&& same_or_kept(
        a.worker_connection_buffer_budget_bytes,
        b.worker_connection_buffer_budget_bytes,
        from_a.worker_connection_buffer_budget_bytes,
        from_b.worker_connection_buffer_budget_bytes,
    )
    &&& same_or_kept(
        a.dynamic_task_count,
        b.dynamic_task_count,
        from_a.dynamic_task_count,
        from_b.dynamic_task_count,
    )
    &&& same_or_kept(
        a.bytes_per_partition_per_second,
        b.bytes_per_partition_per_second,
        from_a.bytes_per_partition_per_second,
        from_b.bytes_per_partition_per_second,
    )
    &&& same_or_kept(
        a.task_estimators,
        b.task_estimators,
        from_a.task_estimators,
        from_b.task_estimators,
    )
    &&& same_or_kept(
        a.channel_resolver,
        b.channel_resolver,
        from_a.channel_resolver,
        from_b.channel_resolver,
    )
    &&& same_or_kept(
        a.worker_resolver,
        b.worker_resolver,
        from_a.worker_resolver,
        from_b.worker_resolver,
    )
    &&& same_or_kept(
        a.work_unit_feed_getters,
        b.work_unit_feed_getters,
        from_a.work_unit_feed_getters,
        from_b.work_unit_feed_getters,
    )
}

/// One text, read into two configurations, sets the same field to the same value.
#[verifier::spinoff_prover]
#[verifier::rlimit(40)]
proof fn lemma_same_field_set(
    a: ConfigView,
    b: ConfigView,
    field: Seq<char>,
    value: Seq<char>,
    factor: Result<u64, Seq<char>>,
)
    ensures
        with_field(a, field, value, factor) matches Ok(x) ==> (with_field(
            b,
            field,
            value,
            factor,
        ) matches Ok(y) && fields_same_or_kept(x, y, a, b)),
{
    reveal(fields_same_or_kept);
}

/// What two readings in turn set the same or keep, both together do.
proof fn lemma_same_or_kept_in_turn(
    a: ConfigView,
    b: ConfigView,
    mid_a: ConfigView,
    mid_b: ConfigView,
    from_a: ConfigView,
    from_b: ConfigView,
)
    requires
        fields_same_or_kept(a, b, mid_a, mid_b),
        fields_same_or_kept(mid_a, mid_b, from_a, from_b),
    ensures
        fields_same_or_kept(a, b, from_a, from_b),
{
    reveal(fields_same_or_kept);
}

/// The same headers, read into two configurations, set the same fields to the same values.
proof fn lemma_same_fields_set(
    from_a: ConfigView,
    from_b: ConfigView,
    entries: Seq<HeaderEntry>,
    factors: Seq<Result<u64, Seq<char>>>,
    n: nat,
)
    requires
        read_config(from_a, entries, factors, n) is Ok,
    ensures
        read_config(from_b, entries, factors, n) matches Ok(b) && fields_same_or_kept(
            read_config(from_a, entries, factors, n)->Ok_0,
            b,
            from_a,
            from_b,
        ),
    decreases n,
{
    if n == 0 {
        reveal(fields_same_or_kept);
    } else {
        let m = (n - 1) as nat;
        lemma_same_fields_set(from_a, from_b, entries, factors, m);
        let mid_a = read_config(from_a, entries, factors, m)->Ok_0;
        let mid_b = read_config(from_b, entries, factors, m)->Ok_0;
        if let Some(field) = config_field(entries[m as int].0) {
            let value = header_text(entries[m as int].1);
            lemma_same_field_set(mid_a, mid_b, field, value, factors[m as int]);
            lemma_same_or_kept_in_turn(
                read_config(from_a, entries, factors, n)->Ok_0,
                read_config(from_b, entries, factors, n)->Ok_0,
                mid_a,
                mid_b,
                from_a,
                from_b,
            );
        }
    }
}

/// Reading the same headers once more changes nothing: where they were read without failure, they
/// are read so again, and the configuration stays as the first reading left it.
pub proof fn reading_twice_is_reading_once(
    start: ConfigView,
    entries: Seq<HeaderEntry>,
    factors: Seq<Result<u64, Seq<char>>>,
    n: nat,
)
    ensures
        read_config(start, entries, factors, n) matches Ok(v) ==> read_config(
            v,
            entries,
            factors,
            n,
        ) == Ok::<ConfigView, Seq<char>>(v),
{
    if let Ok(v) = read_config(start, entries, factors, n) {
        lemma_same_fields_set(start, v, entries, factors, n);
        reveal(fields_same_or_kept);
        assert(read_config(v, entries, factors, n)->Ok_0 =~= v);
    }
}

/// `field` names no scalar field of the configuration.
pub open spec fn is_unknown_field(field: Seq<char>) -> bool {
    &&& field != "file_scan_config_bytes_per_partition"@
    &&& field != "cardinality_task_count_factor"@
    &&& field != "children_isolator_unions"@
    &&& field != "collect_metrics"@
    &&& field != "broadcast_joins"@
    &&& field != "compression"@
    &&& field != "shuffle_batch_size"@
    &&& field != "max_tasks_per_stage"@
    &&& field != "partial_reduce"@
    &&& field != "worker_connection_buffer_budget_bytes"@
    &&& field != "dynamic_task_count"@
    &&& field != "bytes_per_partition_per_second"@
}

/// Headers that carry no field of the configuration, or one that this version does not know as
/// text, change nothing and are no failure.
pub proof fn unrelated_headers_change_nothing(
    start: ConfigView,
    entries: Seq<HeaderEntry>,
    factors: Seq<Result<u64, Seq<char>>>,
    n: nat,
)
    requires
        n <= entries.len(),
        forall|i: int|
            0 <= i < entries.len() ==> (config_field((#[trigger] entries[i]).0) matches Some(field)
                ==> is_unknown_field(field) && is_header_text(entries[i].1)),
    ensures
        read_config(start, entries, factors, n) == Ok::<ConfigView, Seq<char>>(start),
    decreases n,
{
    if n > 0 {
        unrelated_headers_change_nothing(start, entries, factors, (n - 1) as nat);
        assert(entries[n - 1] == entries[n - 1]);
    }
}

} // verus!
