//! Propagation of configuration to the workers through headers.
//!
//! The coordinator writes what it wants its workers to know into headers, and each worker reads
//! it back from them. Two things travel this way: the option extensions that users register with
//! DataFusion, each under its prefix, and the scalar fields of the distributed configuration.

use crate::error::{DistributedError, ErrorView};
use crate::headers::{header_entries, header_name_text, header_pairs, header_text};
use crate::headers::{header_value_bytes, invalid_name_message, invalid_value_message};
use crate::headers::{is_header_name, is_header_text, is_header_value, lower, map_full_message};
use crate::headers::{no_text_message, parse_header_name, try_insert_header, with_header};
use crate::headers::HeaderEntry;
use crate::session::{get_propagation_context, option_entries, option_prefixes, same_options};
use crate::session::{session_distributed_config, session_option_extensions};
use crate::session::{session_propagated_prefixes, session_propagation_context};
use crate::session::{session_slots, set_propagation_context, ExtensionEntry, OptionExtension};
use crate::session::SessionSlot;
use crate::text::{has_prefix, same_text, strip_prefix, trim_start_matches, trimmed};
use datafusion::prelude::SessionConfig;
use http::header::{HeaderMap, HeaderName, HeaderValue};
use std::sync::Arc;
use vstd::prelude::*;
use vstd::string::*;
use vstd::utf8::*;

verus! {

/// What the name of every header that carries configuration begins with.
pub const FLIGHT_METADATA_CONFIG_PREFIX: &'static str = "x-datafusion-distributed-config-";

/// The prefixes of the option extensions that are propagated to the workers.
pub struct ConfigExtensionPropagationContext {
    pub prefixes: Vec<&'static str>,
}

impl View for ConfigExtensionPropagationContext {
    type V = Seq<Seq<char>>;

    open spec fn view(&self) -> Seq<Seq<char>> {
        self.prefixes@.map_values(|p: &'static str| p@)
    }
}

/// A key and its value.
pub type Setting = (Seq<char>, Seq<char>);

/// The prefix of an option extension, and its keys with the values that they have.
pub type ExtensionView = (Seq<char>, Seq<(Seq<char>, Option<Seq<char>>)>);

/// The name of the header that carries the entry `key` of the option extension under `prefix`.
pub open spec fn extension_header_name(prefix: Seq<char>, key: Seq<char>) -> Seq<char> {
    FLIGHT_METADATA_CONFIG_PREFIX@ + (prefix + "."@ + key)
}

/// The headers, by name and value, that the first `n` entries of an option extension give: one
/// for each entry that has a value.
pub open spec fn entry_settings(
    prefix: Seq<char>,
    entries: Seq<(Seq<char>, Option<Seq<char>>)>,
    n: nat,
) -> Seq<Setting>
    decreases n,
{
    if n == 0 {
        Seq::empty()
    } else {
        let before = entry_settings(prefix, entries, (n - 1) as nat);
        match entries[n - 1].1 {
            Some(value) => before.push(
                (extension_header_name(prefix, entries[n - 1].0), value),
            ),
            None => before,
        }
    }
}

/// The headers, by name and value, that the first `n` of the option extensions give: those of the
/// extensions whose prefix is among `prefixes`.
pub open spec fn propagated_settings(
    extensions: Seq<ExtensionView>,
    prefixes: Seq<Seq<char>>,
    n: nat,
) -> Seq<Setting>
    decreases n,
{
    if n == 0 {
        Seq::empty()
    } else {
        let before = propagated_settings(extensions, prefixes, (n - 1) as nat);
        let (prefix, entries) = extensions[n - 1];
        if prefixes.contains(prefix) {
            before + entry_settings(prefix, entries, entries.len())
        } else {
            before
        }
    }
}

/// What the failure `why` to add a header for an option extension says.
pub open spec fn add_failure(why: Seq<char>) -> Seq<char> {
    "Failed to add config extension: "@ + why
}

/// The entries of a header map into which `settings` were put one after the other, or the message
/// of the first of them that is refused.
pub open spec fn headers_of(settings: Seq<Setting>) -> Result<Seq<HeaderEntry>, Seq<char>>
    decreases settings.len(),
{
    if settings.len() == 0 {
        Ok(Seq::empty())
    } else {
        match headers_of(settings.drop_last()) {
            Err(m) => Err(m),
            Ok(entries) => {
                let (name, value) = settings.last();
                if !is_header_name(name) {
                    Err(add_failure("invalid HTTP header name"@))
                } else if !is_header_value(value) {
                    Err(add_failure("failed to parse header value"@))
                } else {
                    Ok(with_header(entries, lower(name), encode_utf8(value)))
                }
            },
        }
    }
}

/// Some header map that holds a part of `settings` may be too full for the next of them.
pub open spec fn may_fill_map(settings: Seq<Setting>) -> bool {
    exists|k: int|
        0 <= k < settings.len() && (#[trigger] headers_of(settings.take(k)) matches Ok(entries)
            && entries.len() >= 6554)
}

/// `r` is what putting `settings` into a new header map gives: the map, or the message of the
/// first that is refused, or that the map is full, which can be where there are very many.
pub open spec fn is_outcome_of(
    settings: Seq<Setting>,
    r: Result<HeaderMap<HeaderValue>, DistributedError>,
) -> bool {
    match r {
        Ok(map) => headers_of(settings) == Ok::<Seq<HeaderEntry>, Seq<char>>(header_entries(map)),
        Err(e) => {
            ||| headers_of(settings) matches Err(m) && e@ == ErrorView::Internal(m)
            ||| may_fill_map(settings) && e@ == ErrorView::Internal(
                add_failure("max size reached"@),
            )
        },
    }
}

/// A string of the texts of `a` and `b`.
pub(crate) fn joined(a: &str, b: &str) -> (r: String)
    ensures
        r@ == a@ + b@,
{
    let mut r: String = a.to_owned();
    r.append(b);
    r
}

/// Puts the header `name` with the value `value` into `headers`.
fn add_extension_header(
    headers: &mut HeaderMap<HeaderValue>,
    name: &str,
    value: &str,
) -> (r: Result<(), DistributedError>)
    ensures
        match r {
            Ok(_) => is_header_name(name@) && is_header_value(value@) && header_entries(
                *final(headers),
            ) == with_header(header_entries(*old(headers)), lower(name@), encode_utf8(value@)),
            Err(e) => {
                ||| !is_header_name(name@) && e@ == ErrorView::Internal(
                    add_failure("invalid HTTP header name"@),
                )
                ||| is_header_name(name@) && !is_header_value(value@) && e@ == ErrorView::Internal(
                    add_failure("failed to parse header value"@),
                )
                ||| is_header_name(name@) && is_header_value(value@) && header_entries(
                    *old(headers),
                ).len() >= 6554 && e@ == ErrorView::Internal(add_failure("max size reached"@))
            },
        },
{
    let name: HeaderName = match parse_header_name(name) {
        Ok(n) => n,
        Err(e) => {
            return Err(
                DistributedError::Internal(
                    joined("Failed to add config extension: ", invalid_name_message(&e).as_str()),
                ),
            );
        },
    };
    let value: HeaderValue = match HeaderValue::from_str(value) {
        Ok(v) => v,
        Err(e) => {
            return Err(
                DistributedError::Internal(
                    joined("Failed to add config extension: ", invalid_value_message(&e).as_str()),
                ),
            );
        },
    };
    match try_insert_header(headers, name, value) {
        Ok(_) => Ok(()),
        Err(e) => Err(
            DistributedError::Internal(
                joined("Failed to add config extension: ", map_full_message(&e).as_str()),
            ),
        ),
    }
}

/// `prefixes` holds the text `prefix`.
fn contains_prefix(prefixes: &Vec<&'static str>, prefix: &str) -> (r: bool)
    ensures
        r == prefixes@.map_values(|p: &'static str| p@).contains(prefix@),
{
    let ghost texts = prefixes@.map_values(|p: &'static str| p@);
    for i in 0..prefixes.len()
        invariant
            texts == prefixes@.map_values(|p: &'static str| p@),
            forall|j: int| 0 <= j < i ==> texts[j] != prefix@,
    {
        if same_text(prefixes[i], prefix) {
            assert(texts[i as int] == prefix@);
            return true;
        }
    }
    false
}

/// An error that a part of the settings gives stays when more of them follow.
proof fn lemma_refusal_stays(settings: Seq<Setting>, n: int)
    requires
        0 <= n <= settings.len(),
        headers_of(settings.take(n)) is Err,
    ensures
        headers_of(settings) == headers_of(settings.take(n)),
    decreases settings.len(),
{
    if n == settings.len() {
        assert(settings.take(n) =~= settings);
    } else {
        assert(settings.drop_last().take(n) =~= settings.take(n));
        lemma_refusal_stays(settings.drop_last(), n);
    }
}

/// The settings of the first entries come first among those of all entries.
proof fn lemma_entry_settings_grow(
    prefix: Seq<char>,
    entries: Seq<(Seq<char>, Option<Seq<char>>)>,
    n: nat,
    m: nat,
)
    requires
        n <= m,
    ensures
        entry_settings(prefix, entries, n).len() <= entry_settings(prefix, entries, m).len(),
        entry_settings(prefix, entries, m).take(entry_settings(prefix, entries, n).len() as int)
            == entry_settings(prefix, entries, n),
    decreases m,
{
    let a = entry_settings(prefix, entries, n);
    let b = entry_settings(prefix, entries, m);
    if n == m {
        assert(b.take(a.len() as int) =~= a);
    } else {
        lemma_entry_settings_grow(prefix, entries, n, (m - 1) as nat);
        let c = entry_settings(prefix, entries, (m - 1) as nat);
        assert(c.take(a.len() as int) =~= a);
        assert(b.take(a.len() as int) =~= c.take(a.len() as int));
    }
}

/// The settings of the first extensions come first among those of all extensions.
proof fn lemma_propagated_settings_grow(
    extensions: Seq<ExtensionView>,
    prefixes: Seq<Seq<char>>,
    n: nat,
    m: nat,
)
    requires
        n <= m,
    ensures
        propagated_settings(extensions, prefixes, n).len() <= propagated_settings(
            extensions,
            prefixes,
            m,
        ).len(),
        propagated_settings(extensions, prefixes, m).take(
            propagated_settings(extensions, prefixes, n).len() as int,
        ) == propagated_settings(extensions, prefixes, n),
    decreases m,
{
    let a = propagated_settings(extensions, prefixes, n);
    let b = propagated_settings(extensions, prefixes, m);
    if n == m {
        assert(b.take(a.len() as int) =~= a);
    } else {
        lemma_propagated_settings_grow(extensions, prefixes, n, (m - 1) as nat);
        let c = propagated_settings(extensions, prefixes, (m - 1) as nat);
        assert(c.take(a.len() as int) =~= a);
        assert(b.take(a.len() as int) =~= c.take(a.len() as int));
    }
}

/// The headers of those of `extensions` whose prefix is among `prefixes`, one for each entry that
/// has a value.
pub fn extension_headers(
    extensions: &Vec<OptionExtension>,
    prefixes: &Vec<&'static str>,
) -> (r: Result<HeaderMap<HeaderValue>, DistributedError>)
    ensures
        is_outcome_of(
            propagated_settings(
                extensions@.map_values(|e: OptionExtension| e@),
                prefixes@.map_values(|p: &'static str| p@),
                extensions@.len(),
            ),
            r,
        ),
{
    let ghost exts = extensions@.map_values(|e: OptionExtension| e@);
    let ghost texts = prefixes@.map_values(|p: &'static str| p@);
    let ghost all = propagated_settings(exts, texts, exts.len());
    let mut headers: HeaderMap<HeaderValue> = HeaderMap::new();
    for i in 0..extensions.len()
        invariant
            exts == extensions@.map_values(|e: OptionExtension| e@),
            texts == prefixes@.map_values(|p: &'static str| p@),
            all == propagated_settings(exts, texts, exts.len()),
            headers_of(propagated_settings(exts, texts, i as nat)) == Ok::<
                Seq<HeaderEntry>,
                Seq<char>,
            >(header_entries(headers)),
    {
        let extension: &OptionExtension = &extensions[i];
        assert(exts[i as int] == extension@);
        if contains_prefix(prefixes, extension.prefix) {
            let ghost before = propagated_settings(exts, texts, i as nat);
            let ghost entries = extension@.1;
            let ghost own = entry_settings(extension.prefix@, entries, entries.len());
            assert(before + Seq::<Setting>::empty() =~= before);
            for j in 0..extension.entries.len()
                invariant
                    exts == extensions@.map_values(|e: OptionExtension| e@),
                    texts == prefixes@.map_values(|p: &'static str| p@),
                    all == propagated_settings(exts, texts, exts.len()),
                    0 <= i < exts.len(),
                    exts[i as int] == extension@,
                    texts.contains(extension.prefix@),
                    before == propagated_settings(exts, texts, i as nat),
                    entries == extension@.1,
                    entries.len() == extension.entries@.len(),
                    own == entry_settings(extension.prefix@, entries, entries.len()),
                    headers_of(
                        before + entry_settings(extension.prefix@, entries, j as nat),
                    ) == Ok::<Seq<HeaderEntry>, Seq<char>>(header_entries(headers)),
            {
                let entry = &extension.entries[j];
                assert(entries[j as int] == entry@);
                if let Some(value) = &entry.value {
                    let mut name: String = joined(
                        FLIGHT_METADATA_CONFIG_PREFIX,
                        extension.prefix,
                    );
                    name.append(".");
                    name.append(entry.key.as_str());
                    assert(name@ =~= extension_header_name(extension.prefix@, entry.key@));
                    let ghost done = before + entry_settings(extension.prefix@, entries, j as nat);
                    let ghost next = before + entry_settings(
                        extension.prefix@,
                        entries,
                        (j + 1) as nat,
                    );
                    proof {
                        assert(next.drop_last() =~= done);
                        assert(next.last() == (name@, value@));
                        lemma_entry_settings_grow(
                            extension.prefix@,
                            entries,
                            (j + 1) as nat,
                            entries.len(),
                        );
                        lemma_propagated_settings_grow(exts, texts, (i + 1) as nat, exts.len());
                        assert(propagated_settings(exts, texts, (i + 1) as nat) == before + own);
                        let upto = (before + own).len() as int;
                        assert(all.take(upto) =~= before + own);
                        assert(all.take(next.len() as int) =~= next) by {
                            assert(all.take(next.len() as int) =~= all.take(upto).take(
                                next.len() as int,
                            ));
                            assert((before + own).take(next.len() as int) =~= before + own.take(
                                next.len() - before.len(),
                            ));
                        }
                        assert(all.take(done.len() as int) =~= done) by {
                            assert(all.take(done.len() as int) =~= next.take(done.len() as int));
                        }
                    }
                    match add_extension_header(&mut headers, name.as_str(), value.as_str()) {
                        Ok(_) => {},
                        Err(e) => {
                            proof {
                                if headers_of(next) is Err {
                                    lemma_refusal_stays(all, next.len() as int);
                                } else {
                                    assert(headers_of(all.take(done.len() as int)) is Ok);
                                    assert(may_fill_map(all));
                                }
                            }
                            return Err(e);
                        },
                    }
                } else {
                    assert(entry_settings(extension.prefix@, entries, (j + 1) as nat)
                        == entry_settings(extension.prefix@, entries, j as nat));
                }
            }
        }
    }
    Ok(headers)
}

/// Extensions that are not propagated may hold anything.
proof fn lemma_same_propagated(
    a: Seq<ExtensionView>,
    b: Seq<ExtensionView>,
    prefixes: Seq<Seq<char>>,
    n: nat,
)
    requires
        n <= a.len(),
        n <= b.len(),
        forall|i: int|
            0 <= i < n ==> (#[trigger] a[i]).0 == b[i].0 && (prefixes.contains(a[i].0) ==> a[i].1
                == b[i].1),
    ensures
        propagated_settings(a, prefixes, n) == propagated_settings(b, prefixes, n),
    decreases n,
{
    if n > 0 {
        lemma_same_propagated(a, b, prefixes, (n - 1) as nat);
        assert(a[n - 1].0 == b[n - 1].0);
    }
}

/// The headers of the option extensions that the session propagates, one for each entry that has
/// a value.
pub fn get_config_extension_propagation_headers(cfg: &SessionConfig) -> (r: Result<
    HeaderMap<HeaderValue>,
    DistributedError,
>)
    ensures
        session_propagated_prefixes(*cfg).len() == 0 ==> r is Ok && header_entries(r->Ok_0)
            == Seq::<HeaderEntry>::empty(),
        is_outcome_of(
            propagated_settings(
                session_option_extensions(*cfg),
                session_propagated_prefixes(*cfg),
                session_option_extensions(*cfg).len(),
            ),
            r,
        ),
{
    let none: Vec<&'static str> = Vec::new();
    let context: Option<Arc<ConfigExtensionPropagationContext>> = get_propagation_context(cfg);
    let prefixes: &Vec<&'static str> = match &context {
        Some(c) => &c.prefixes,
        None => &none,
    };
    let ghost stored = session_option_extensions(*cfg);
    let ghost texts = prefixes@.map_values(|p: &'static str| p@);
    assert(texts =~= session_propagated_prefixes(*cfg));
    if prefixes.len() == 0 {
        proof {
            lemma_nothing_propagated(stored, texts, stored.len());
        }
        return Ok(HeaderMap::new());
    }
    let registered: Vec<&'static str> = option_prefixes(cfg);
    let mut extensions: Vec<OptionExtension> = Vec::new();
    for i in 0..registered.len()
        invariant
            stored == session_option_extensions(*cfg),
            texts == prefixes@.map_values(|p: &'static str| p@),
            registered@.len() == stored.len(),
            forall|j: int| 0 <= j < stored.len() ==> (#[trigger] registered@[j])@ == stored[j].0,
            extensions.len() == i,
            forall|j: int|
                0 <= j < i ==> (#[trigger] extensions@[j]@).0 == stored[j].0 && (texts.contains(
                    stored[j].0,
                ) ==> extensions@[j]@.1 == stored[j].1),
    {
        let prefix: &'static str = registered[i];
        let entries: Vec<ExtensionEntry> = if contains_prefix(prefixes, prefix) {
            option_entries(cfg, i)
        } else {
            Vec::new()
        };
        extensions.push(OptionExtension { prefix, entries });
    }
    proof {
        let given = extensions@.map_values(|e: OptionExtension| e@);
        assert forall|i: int| 0 <= i < stored.len() implies (#[trigger] given[i]).0 == stored[i].0
            && (texts.contains(given[i].0) ==> given[i].1 == stored[i].1) by {
            assert(given[i] == extensions@[i]@);
        }
        lemma_same_propagated(given, stored, texts, stored.len());
    }
    extension_headers(&extensions, prefixes)
}

/// Without prefixes there is nothing to propagate.
proof fn lemma_nothing_propagated(
    extensions: Seq<ExtensionView>,
    prefixes: Seq<Seq<char>>,
    n: nat,
)
    requires
        prefixes.len() == 0,
    ensures
        propagated_settings(extensions, prefixes, n) == Seq::<Setting>::empty(),
    decreases n,
{
    if n > 0 {
        lemma_nothing_propagated(extensions, prefixes, (n - 1) as nat);
    }
}

/// Adds `prefix` to the prefixes that the session propagates. The option extension under that
/// prefix is the caller's to register with the session.
pub fn set_distributed_option_extension(cfg: &mut SessionConfig, prefix: &'static str)
    ensures
        session_propagation_context(*final(cfg)) is Some,
        session_propagated_prefixes(*final(cfg)) == session_propagated_prefixes(*old(cfg)).push(
            prefix@,
        ),
        session_slots(*final(cfg)).remove(SessionSlot::PropagationContext) == session_slots(*old(cfg)).remove(
            SessionSlot::PropagationContext,
        ),
        session_distributed_config(*final(cfg)) == session_distributed_config(*old(cfg)),
        same_options(*final(cfg), *old(cfg)),
{
    let mut prefixes: Vec<&'static str> = match get_propagation_context(cfg) {
        Some(previous) => previous.prefixes.clone(),
        None => Vec::new(),
    };
    proof {
        assert(session_propagated_prefixes(*cfg) =~= prefixes@.map_values(
            |p: &'static str| p@,
        ));
    }
    prefixes.push(prefix);
    set_propagation_context(cfg, Arc::new(ConfigExtensionPropagationContext { prefixes }));
    assert(session_propagated_prefixes(*cfg) =~= session_propagated_prefixes(*old(cfg)).push(
        prefix@,
    ));
}

/// The key that a header of this name carries for the option extension under `prefix`, if it is
/// one for that extension.
pub open spec fn extension_key(name: Seq<char>, prefix: Seq<char>) -> Option<Seq<char>> {
    let rest = trimmed(name, FLIGHT_METADATA_CONFIG_PREFIX@);
    let namespace = prefix + "."@;
    if has_prefix(rest, namespace) {
        Some(trimmed(rest, namespace))
    } else {
        None
    }
}

/// What the first `n` entries of a header map set in an option extension with the keys `known`:
/// the keys and values in order, and whether a value that is no text ended the list.
pub open spec fn settings_from(
    entries: Seq<HeaderEntry>,
    prefix: Seq<char>,
    known: Seq<Seq<char>>,
    n: nat,
) -> (Seq<Setting>, bool)
    decreases n,
{
    if n == 0 {
        (Seq::empty(), false)
    } else {
        let (settings, ended) = settings_from(entries, prefix, known, (n - 1) as nat);
        match extension_key(entries[n - 1].0, prefix) {
            Some(key) => if ended || !known.contains(key) {
                (settings, ended)
            } else if is_header_text(entries[n - 1].1) {
                (settings.push((key, header_text(entries[n - 1].1))), false)
            } else {
                (settings, true)
            },
            None => (settings, ended),
        }
    }
}

/// What headers set in an option extension.
pub struct ExtensionSettings {
    /// The keys to set and their values, in the order in which they are to be set.
    pub settings: Vec<(String, String)>,
    /// Why the headers were read no further, if they were not read to the end. What stands in
    /// `settings` is to be set all the same.
    pub failure: Option<DistributedError>,
}

impl ExtensionSettings {
    /// The keys to set and their values.
    pub open spec fn pairs(&self) -> Seq<Setting> {
        self.settings@.map_values(|kv: (String, String)| (kv.0@, kv.1@))
    }
}

/// `keys` holds the text `key`.
fn contains_key(keys: &Vec<String>, key: &str) -> (r: bool)
    ensures
        r == keys@.map_values(|k: String| k@).contains(key@),
{
    let ghost texts = keys@.map_values(|k: String| k@);
    for i in 0..keys.len()
        invariant
            texts == keys@.map_values(|k: String| k@),
            forall|j: int| 0 <= j < i ==> texts[j] != key@,
    {
        if same_text(keys[i].as_str(), key) {
            assert(texts[i as int] == key@);
            return true;
        }
    }
    false
}

/// Once the list of settings has ended, it stays.
proof fn lemma_end_stays(
    entries: Seq<HeaderEntry>,
    prefix: Seq<char>,
    known: Seq<Seq<char>>,
    n: nat,
    m: nat,
)
    requires
        n <= m,
        settings_from(entries, prefix, known, n).1,
    ensures
        settings_from(entries, prefix, known, m) == settings_from(entries, prefix, known, n),
    decreases m,
{
    if n < m {
        lemma_end_stays(entries, prefix, known, n, (m - 1) as nat);
    }
}

/// What `headers` set in the option extension under `prefix`, of the keys `known_keys`. Headers
/// of unknown keys are passed over. The first header of a known key whose value is no text ends
/// the list.
pub fn extension_settings(
    headers: &HeaderMap<HeaderValue>,
    prefix: &str,
    known_keys: &Vec<String>,
) -> (r: ExtensionSettings)
    ensures
        ({
            let entries = header_entries(*headers);
            let (settings, ended) = settings_from(
                entries,
                prefix@,
                known_keys@.map_values(|k: String| k@),
                entries.len(),
            );
            &&& r.pairs() == settings
            &&& r.failure is Some <==> ended
            &&& r.failure matches Some(e) ==> e@ == ErrorView::Internal(
                "Cannot parse header value: "@ + "failed to convert header to a str"@,
            )
        }),
{
    let ghost entries = header_entries(*headers);
    let ghost known = known_keys@.map_values(|k: String| k@);
    let namespace: String = joined(prefix, ".");
    let pairs: Vec<(&HeaderName, &HeaderValue)> = header_pairs(headers);
    let mut settings: Vec<(String, String)> = Vec::new();
    proof {
        assert(settings@.map_values(|kv: (String, String)| (kv.0@, kv.1@))
            =~= Seq::<Setting>::empty());
    }
    for i in 0..pairs.len()
        invariant
            entries == header_entries(*headers),
            known == known_keys@.map_values(|k: String| k@),
            namespace@ == prefix@ + "."@,
            pairs@.len() == entries.len(),
            forall|j: int|
                0 <= j < pairs@.len() ==> {
                    &&& header_name_text(*(#[trigger] pairs@[j]).0) == entries[j].0
                    &&& header_value_bytes(*pairs@[j].1) == entries[j].1
                },
            settings_from(entries, prefix@, known, i as nat) == (
                settings@.map_values(|kv: (String, String)| (kv.0@, kv.1@)),
                false,
            ),
    {
        let (name, value) = pairs[i];
        let rest: &str = trim_start_matches(name.as_str(), FLIGHT_METADATA_CONFIG_PREFIX);
        if strip_prefix(rest, namespace.as_str()).is_some() {
            let key: &str = trim_start_matches(rest, namespace.as_str());
            if contains_key(known_keys, key) {
                match value.to_str() {
                    Ok(text) => {
                        let ghost before = settings@;
                        settings.push((key.to_owned(), text.to_owned()));
                        assert(settings@.map_values(|kv: (String, String)| (kv.0@, kv.1@))
                            =~= before.map_values(|kv: (String, String)| (kv.0@, kv.1@)).push(
                            (key@, text@),
                        ));
                    },
                    Err(e) => {
                        proof {
                            lemma_end_stays(entries, prefix@, known, (i + 1) as nat, entries.len());
                        }
                        return ExtensionSettings {
                            settings,
                            failure: Some(
                                DistributedError::Internal(
                                    joined(
                                        "Cannot parse header value: ",
                                        no_text_message(&e).as_str(),
                                    ),
                                ),
                            ),
                        };
                    },
                }
            }
        }
    }
    ExtensionSettings { settings, failure: None }
}

/// Adds `prefix` to the prefixes that the session propagates, and reads from `headers` what they
/// set in the option extension under it, of the keys `known_keys`. The option extension itself,
/// its keys and the setting of its values are the caller's.
pub fn set_distributed_option_extension_from_headers(
    cfg: &mut SessionConfig,
    prefix: &'static str,
    known_keys: &Vec<String>,
    headers: &HeaderMap<HeaderValue>,
) -> (r: ExtensionSettings)
    ensures
        session_propagation_context(*final(cfg)) is Some,
        session_propagated_prefixes(*final(cfg)) == session_propagated_prefixes(*old(cfg)).push(
            prefix@,
        ),
        session_slots(*final(cfg)).remove(SessionSlot::PropagationContext) == session_slots(*old(cfg)).remove(
            SessionSlot::PropagationContext,
        ),
        session_distributed_config(*final(cfg)) == session_distributed_config(*old(cfg)),
        same_options(*final(cfg), *old(cfg)),
        ({
            let entries = header_entries(*headers);
            let (settings, ended) = settings_from(
                entries,
                prefix@,
                known_keys@.map_values(|k: String| k@),
                entries.len(),
            );
            &&& r.pairs() == settings
            &&& r.failure is Some <==> ended
            &&& r.failure matches Some(e) ==> e@ == ErrorView::Internal(
                "Cannot parse header value: "@ + "failed to convert header to a str"@,
            )
        }),
{
    set_distributed_option_extension(cfg, prefix);
    extension_settings(headers, prefix, known_keys)
}

/// The view of a propagation context shows each of its prefixes, and the pairs of settings each
/// key with its value.
pub proof fn views_show_each_text(
    c: ConfigExtensionPropagationContext,
    s: ExtensionSettings,
    i: int,
)
    ensures
        c@.len() == c.prefixes@.len(),
        0 <= i < c.prefixes@.len() ==> c@[i] == c.prefixes@[i]@,
        s.pairs().len() == s.settings@.len(),
        0 <= i < s.settings@.len() ==> s.pairs()[i] == (s.settings@[i].0@, s.settings@[i].1@),
{
}

} // verus!
