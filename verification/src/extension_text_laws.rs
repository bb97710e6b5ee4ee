//! What the headers of option extensions say, and what they set, letter by letter.

use crate::config_extension_ext::{add_failure, entry_settings, extension_header_name};
use crate::config_extension_ext::{extension_key, headers_of, is_outcome_of, may_fill_map};
use crate::config_extension_ext::{propagated_settings, settings_from, ExtensionView, Setting};
use crate::config_extension_ext::FLIGHT_METADATA_CONFIG_PREFIX;
use crate::error::{DistributedError, ErrorView};
use crate::extension_laws::{few_headers_always_fit, header_carries_its_key};
use crate::headers::{first_named, header_entries, header_text, is_header_name, is_header_text};
use crate::headers::{is_header_value, lemma_first_named, lemma_header_replaces, lemma_new_name};
use crate::headers::{lower, with_header, HeaderEntry};
use crate::text::{has_prefix, trimmed, trimming_takes_leading_copies};
use http::header::{HeaderMap, HeaderValue};
use vstd::prelude::*;
use vstd::utf8::*;

verus! {

/// The header for a key of an option extension is named after the prefix and the key, with a dot
/// between them, behind what all headers of configuration begin with. A header of that name carries
/// exactly that key for that prefix.
pub proof fn header_is_named_after_prefix_and_key(prefix: Seq<char>, key: Seq<char>)
    ensures
        FLIGHT_METADATA_CONFIG_PREFIX@ == "x-datafusion-distributed-config-"@,
        extension_header_name(prefix, key) == "x-datafusion-distributed-config-"@ + prefix + "."@
            + key,
        !has_prefix(prefix, "x-datafusion-distributed-config-"@) && !has_prefix(key, prefix + "."@)
            ==> extension_key(
            "x-datafusion-distributed-config-"@ + prefix + "."@ + key,
            prefix,
        ) == Some(key),
{
    let name = "x-datafusion-distributed-config-"@ + prefix + "."@ + key;
    assert(extension_header_name(prefix, key) =~= name);
    if !has_prefix(prefix, "x-datafusion-distributed-config-"@) {
        header_carries_its_key(prefix, key, prefix);
    }
}

/// Which key a header of any name carries for a prefix: what all headers of configuration begin
/// with does not count, however often it stands there; of what is left, the key is what follows the
/// prefix and a dot, however often they stand there. A header that has them not carries none.
pub proof fn key_is_what_follows_the_prefix(name: Seq<char>, prefix: Seq<char>)
    ensures
        extension_key("x-datafusion-distributed-config-"@ + name, prefix) == extension_key(
            name,
            prefix,
        ),
        !has_prefix(name, "x-datafusion-distributed-config-"@) ==> (extension_key(name, prefix)
            == if has_prefix(name, prefix + "."@) {
            Some(trimmed(name, prefix + "."@))
        } else {
            None::<Seq<char>>
        }),
{
    reveal_strlit("x-datafusion-distributed-config-");
    trimming_takes_leading_copies(FLIGHT_METADATA_CONFIG_PREFIX@, name);
}

/// An entry with a value gives one header, of that value, named after the prefix and the key; an
/// entry without one gives none; entries before others give their headers first.
pub proof fn each_entry_gives_its_header(
    prefix: Seq<char>,
    key: Seq<char>,
    value: Seq<char>,
    first: Seq<(Seq<char>, Option<Seq<char>>)>,
    rest: Seq<(Seq<char>, Option<Seq<char>>)>,
)
    ensures
        entry_settings(prefix, seq![(key, Some(value))], 1) == seq![
            ("x-datafusion-distributed-config-"@ + prefix + "."@ + key, value),
        ],
        entry_settings(prefix, seq![(key, None::<Seq<char>>)], 1) == Seq::<Setting>::empty(),
        entry_settings(prefix, Seq::empty(), 0) == Seq::<Setting>::empty(),
        entry_settings(prefix, first + rest, first.len() + rest.len()) == entry_settings(
            prefix,
            first,
            first.len(),
        ) + entry_settings(prefix, rest, rest.len()),
{
    header_is_named_after_prefix_and_key(prefix, key);
    reveal_with_fuel(entry_settings, 2);
    assert(entry_settings(prefix, seq![(key, Some(value))], 1) =~= seq![
        ("x-datafusion-distributed-config-"@ + prefix + "."@ + key, value),
    ]);
    lemma_entries_in_turn(prefix, first, rest, rest.len());
}

/// Entries behind others give their headers behind theirs.
proof fn lemma_entries_in_turn(
    prefix: Seq<char>,
    first: Seq<(Seq<char>, Option<Seq<char>>)>,
    rest: Seq<(Seq<char>, Option<Seq<char>>)>,
    n: nat,
)
    requires
        n <= rest.len(),
    ensures
        entry_settings(prefix, first + rest, first.len() + n) == entry_settings(
            prefix,
            first,
            first.len(),
        ) + entry_settings(prefix, rest, n),
    decreases n,
{
    let all = first + rest;
    if n == 0 {
        lemma_same_entries(prefix, all, first, first.len());
        assert(entry_settings(prefix, first, first.len()) + entry_settings(prefix, rest, 0)
            =~= entry_settings(prefix, first, first.len()));
    } else {
        lemma_entries_in_turn(prefix, first, rest, (n - 1) as nat);
        assert(all[first.len() + n - 1] == rest[n - 1]);
        assert(entry_settings(prefix, all, first.len() + n) =~= entry_settings(
            prefix,
            first,
            first.len(),
        ) + entry_settings(prefix, rest, n));
    }
}

/// The same entries give the same headers.
proof fn lemma_same_entries(
    prefix: Seq<char>,
    a: Seq<(Seq<char>, Option<Seq<char>>)>,
    b: Seq<(Seq<char>, Option<Seq<char>>)>,
    n: nat,
)
    requires
        forall|i: int| 0 <= i < n ==> a[i] == b[i],
    ensures
        entry_settings(prefix, a, n) == entry_settings(prefix, b, n),
    decreases n,
{
    if n > 0 {
        lemma_same_entries(prefix, a, b, (n - 1) as nat);
        assert(a[n - 1] == b[n - 1]);
    }
}

/// An option extension travels where its prefix is among those to be propagated, with all its
/// entries, and not at all where it is not; extensions before others travel first.
pub proof fn extensions_travel_by_their_prefix(
    prefixes: Seq<Seq<char>>,
    prefix: Seq<char>,
    entries: Seq<(Seq<char>, Option<Seq<char>>)>,
    first: Seq<ExtensionView>,
    rest: Seq<ExtensionView>,
)
    ensures
        prefixes.contains(prefix) ==> propagated_settings(seq![(prefix, entries)], prefixes, 1)
            == entry_settings(prefix, entries, entries.len()),
        !prefixes.contains(prefix) ==> propagated_settings(seq![(prefix, entries)], prefixes, 1)
            == Seq::<Setting>::empty(),
        propagated_settings(Seq::empty(), prefixes, 0) == Seq::<Setting>::empty(),
        propagated_settings(first + rest, prefixes, first.len() + rest.len())
            == propagated_settings(first, prefixes, first.len()) + propagated_settings(
            rest,
            prefixes,
            rest.len(),
        ),
{
    reveal_with_fuel(propagated_settings, 2);
    assert(Seq::<Setting>::empty() + entry_settings(prefix, entries, entries.len())
        =~= entry_settings(prefix, entries, entries.len()));
    lemma_extensions_in_turn(prefixes, first, rest, rest.len());
}

/// Extensions behind others give their headers behind theirs.
proof fn lemma_extensions_in_turn(
    prefixes: Seq<Seq<char>>,
    first: Seq<ExtensionView>,
    rest: Seq<ExtensionView>,
    n: nat,
)
    requires
        n <= rest.len(),
    ensures
        propagated_settings(first + rest, prefixes, first.len() + n) == propagated_settings(
            first,
            prefixes,
            first.len(),
        ) + propagated_settings(rest, prefixes, n),
    decreases n,
{
    let all = first + rest;
    if n == 0 {
        lemma_same_extensions(prefixes, all, first, first.len());
        assert(propagated_settings(first, prefixes, first.len()) + propagated_settings(
            rest,
            prefixes,
            0,
        ) =~= propagated_settings(first, prefixes, first.len()));
    } else {
        lemma_extensions_in_turn(prefixes, first, rest, (n - 1) as nat);
        assert(all[first.len() + n - 1] == rest[n - 1]);
        assert(propagated_settings(all, prefixes, first.len() + n) =~= propagated_settings(
            first,
            prefixes,
            first.len(),
        ) + propagated_settings(rest, prefixes, n));
    }
}

/// The same extensions give the same headers.
proof fn lemma_same_extensions(
    prefixes: Seq<Seq<char>>,
    a: Seq<ExtensionView>,
    b: Seq<ExtensionView>,
    n: nat,
)
    requires
        forall|i: int| 0 <= i < n ==> a[i] == b[i],
    ensures
        propagated_settings(a, prefixes, n) == propagated_settings(b, prefixes, n),
    decreases n,
{
    if n > 0 {
        lemma_same_extensions(prefixes, a, b, (n - 1) as nat);
        assert(a[n - 1] == b[n - 1]);
    }
}

/// A header can be made of the setting.
spec fn is_fit(setting: Setting) -> bool {
    is_header_name(setting.0) && is_header_value(setting.1)
}

/// What the entries of a header map are to the settings that were put into it:
/// - the name of each setting, in lower case, is that of an entry;
/// - each entry is the last setting of its name;
/// - no two entries have the same name;
/// - names stand in the order in which they first came.
spec fn hold(settings: Seq<Setting>, entries: Seq<HeaderEntry>) -> bool {
    &&& forall|i: int|
        0 <= i < settings.len() ==> has_name(entries, lower((#[trigger] settings[i]).0))
    &&& forall|j: int| 0 <= j < entries.len() ==> is_last(settings, #[trigger] entries[j])
    &&& forall|j: int, k: int|
        0 <= j < k < entries.len() ==> (#[trigger] entries[j]).0 != (#[trigger] entries[k]).0
    &&& forall|j: int, k: int|
        0 <= j < k < entries.len() ==> came_first(
            settings,
            (#[trigger] entries[j]).0,
            (#[trigger] entries[k]).0,
        )
}

/// An entry has the name.
spec fn has_name(entries: Seq<HeaderEntry>, name: Seq<char>) -> bool {
    exists|j: int| 0 <= j < entries.len() && (#[trigger] entries[j]).0 == name
}

/// The entry is the last setting of its name.
spec fn is_last(settings: Seq<Setting>, entry: HeaderEntry) -> bool {
    exists|i: int|
        0 <= i < settings.len() && lower((#[trigger] settings[i]).0) == entry.0 && encode_utf8(
            settings[i].1,
        ) == entry.1 && none_from(settings, i + 1, entry.0)
}

/// No setting from `i` on has the name.
spec fn none_from(settings: Seq<Setting>, i: int, name: Seq<char>) -> bool {
    forall|k: int| i <= k < settings.len() ==> lower((#[trigger] settings[k]).0) != name
}

/// A setting of the name `a` came before any of the name `b`.
spec fn came_first(settings: Seq<Setting>, a: Seq<char>, b: Seq<char>) -> bool {
    exists|i: int|
        0 <= i < settings.len() && lower((#[trigger] settings[i]).0) == a && forall|k: int|
            0 <= k <= i ==> lower((#[trigger] settings[k]).0) != b
}

/// Putting settings into a header map succeeds exactly where each of them can be a header.
proof fn lemma_fit_settings(settings: Seq<Setting>)
    ensures
        headers_of(settings) is Ok <==> (forall|i: int|
            0 <= i < settings.len() ==> is_fit(#[trigger] settings[i])),
    decreases settings.len(),
{
    if settings.len() > 0 {
        let before = settings.drop_last();
        lemma_fit_settings(before);
        assert forall|i: int| 0 <= i < before.len() implies before[i] == settings[i] by {}
        if headers_of(before) is Ok {
            if is_fit(settings.last()) {
                assert forall|i: int| 0 <= i < settings.len() implies is_fit(
                    #[trigger] settings[i],
                ) by {
                    if i < before.len() {
                        assert(is_fit(before[i]));
                    }
                }
            } else {
                assert(!is_fit(settings[settings.len() - 1]));
            }
        } else {
            let i = choose|i: int| 0 <= i < before.len() && !is_fit(#[trigger] before[i]);
            assert(!is_fit(settings[i]));
        }
    }
}

/// What a header map holds is what was put into it.
proof fn lemma_map_holds(settings: Seq<Setting>)
    requires
        headers_of(settings) is Ok,
    ensures
        hold(settings, headers_of(settings)->Ok_0),
    decreases settings.len(),
{
    if settings.len() > 0 {
        let before = settings.drop_last();
        lemma_map_holds(before);
        let old_entries = headers_of(before)->Ok_0;
        let entries = headers_of(settings)->Ok_0;
        let name = lower(settings.last().0);
        let value = encode_utf8(settings.last().1);
        let last = settings.len() - 1;
        let at = first_named(old_entries, name) as int;
        lemma_first_named(old_entries, name);
        if at == old_entries.len() {
            lemma_new_name(old_entries, name, value);
        } else {
            lemma_header_replaces(old_entries, name, value);
        }
        assert(settings[last] == settings.last());
        assert(entries[at] == (name, value));
        assert forall|j: int| 0 <= j < old_entries.len() && j != at implies #[trigger] entries[j]
            == old_entries[j] by {}
        assert forall|j: int| 0 <= j < old_entries.len() implies (#[trigger] entries[j]).0
            == old_entries[j].0 by {}
        assert forall|i: int| 0 <= i < settings.len() implies has_name(
            entries,
            lower((#[trigger] settings[i]).0),
        ) by {
            if i == last {
                assert(entries[at].0 == name);
            } else {
                assert(before[i] == settings[i]);
                assert(has_name(old_entries, lower(before[i].0)));
                let j = choose|j: int|
                    0 <= j < old_entries.len() && (#[trigger] old_entries[j]).0 == lower(
                        before[i].0,
                    );
                assert(entries[j].0 == old_entries[j].0);
            }
        }
        assert forall|j: int| 0 <= j < entries.len() implies is_last(
            settings,
            #[trigger] entries[j],
        ) by {
            if j == at {
                assert(none_from(settings, last + 1, name));
            } else {
                let e = old_entries[j];
                assert(entries[j] == e);
                assert(is_last(before, e));
                let i = choose|i: int|
                    0 <= i < before.len() && lower((#[trigger] before[i]).0) == e.0 && encode_utf8(
                        before[i].1,
                    ) == e.1 && none_from(before, i + 1, e.0);
                assert(settings[i] == before[i]);
                assert(e.0 != name) by {
                    if at < old_entries.len() {
                        if j < at {
                            assert(old_entries[j].0 != old_entries[at].0);
                        } else {
                            assert(old_entries[at].0 != old_entries[j].0);
                        }
                    }
                }
                assert forall|k: int| i + 1 <= k < settings.len() implies lower(
                    (#[trigger] settings[k]).0,
                ) != e.0 by {
                    if k < last {
                        assert(before[k] == settings[k]);
                    }
                }
                assert(none_from(settings, i + 1, e.0));
            }
        }
        assert forall|j: int, k: int| 0 <= j < k < entries.len() implies (#[trigger] entries[j]).0
            != (#[trigger] entries[k]).0 by {
            if k < old_entries.len() {
                assert(old_entries[j].0 != old_entries[k].0);
            } else {
                assert(old_entries[j].0 != name);
            }
        }
        assert forall|j: int, k: int| 0 <= j < k < entries.len() implies came_first(
            settings,
            (#[trigger] entries[j]).0,
            (#[trigger] entries[k]).0,
        ) by {
            let a = entries[j].0;
            let b = entries[k].0;
            assert(old_entries[j].0 == a);
            if k < old_entries.len() {
                assert(old_entries[k].0 == b);
                assert(came_first(before, a, b));
                let i = choose|i: int|
                    0 <= i < before.len() && lower((#[trigger] before[i]).0) == a && forall|m: int|
                        0 <= m <= i ==> lower((#[trigger] before[m]).0) != b;
                assert(settings[i] == before[i]);
                assert forall|m: int| 0 <= m <= i implies lower((#[trigger] settings[m]).0)
                    != b by {
                    assert(before[m] == settings[m]);
                }
            } else {
                assert(b == name);
                assert(is_last(before, old_entries[j]));
                let i = choose|i: int|
                    0 <= i < before.len() && lower((#[trigger] before[i]).0) == a && encode_utf8(
                        before[i].1,
                    ) == old_entries[j].1 && none_from(before, i + 1, a);
                assert(settings[i] == before[i]);
                assert forall|m: int| 0 <= m <= i implies lower((#[trigger] settings[m]).0)
                    != b by {
                    assert(before[m] == settings[m]);
                    assert(has_name(old_entries, lower(before[m].0)));
                }
            }
        }
    }
}

/// Putting settings into a header map succeeds exactly where each name is a header name and each
/// value a header value.
pub proof fn writing_needs_fit_settings(settings: Seq<Setting>)
    ensures
        headers_of(settings) is Ok <==> (forall|i: int|
            0 <= i < settings.len() ==> is_header_name((#[trigger] settings[i]).0)
                && is_header_value(settings[i].1)),
{
    lemma_fit_settings(settings);
    if headers_of(settings) is Ok {
        assert forall|i: int| 0 <= i < settings.len() implies is_header_name(
            (#[trigger] settings[i]).0,
        ) && is_header_value(settings[i].1) by {
            assert(is_fit(settings[i]));
        }
    } else {
        let i = choose|i: int| 0 <= i < settings.len() && !is_fit(#[trigger] settings[i]);
        assert(!is_header_name(settings[i].0) || !is_header_value(settings[i].1));
    }
}

/// The name of every setting is there, in lower case.
pub proof fn every_name_is_written(settings: Seq<Setting>, i: int)
    requires
        0 <= i < settings.len(),
    ensures
        headers_of(settings) matches Ok(entries) ==> exists|j: int|
            0 <= j < entries.len() && (#[trigger] entries[j]).0 == lower(settings[i].0),
{
    if let Ok(entries) = headers_of(settings) {
        lemma_map_holds(settings);
        assert(has_name(entries, lower(settings[i].0)));
    }
}

/// Every header that is there is the last setting of its name, in lower case.
pub proof fn last_value_of_a_name_is_written(settings: Seq<Setting>, j: int)
    ensures
        headers_of(settings) matches Ok(entries) ==> (0 <= j < entries.len() ==> exists|i: int|
            0 <= i < settings.len() && lower((#[trigger] settings[i]).0) == entries[j].0
                && encode_utf8(settings[i].1) == entries[j].1 && forall|k: int|
                i < k < settings.len() ==> lower((#[trigger] settings[k]).0) != entries[j].0),
{
    if let Ok(entries) = headers_of(settings) {
        if 0 <= j < entries.len() {
            lemma_map_holds(settings);
            assert(is_last(settings, entries[j]));
            let i = choose|i: int|
                0 <= i < settings.len() && lower((#[trigger] settings[i]).0) == entries[j].0
                    && encode_utf8(settings[i].1) == entries[j].1 && none_from(
                    settings,
                    i + 1,
                    entries[j].0,
                );
            assert(lower(settings[i].0) == entries[j].0);
        }
    }
}

/// Every name is there once, and names stand in the order in which they first came.
pub proof fn names_are_written_once_in_order(settings: Seq<Setting>, j: int, k: int)
    ensures
        headers_of(settings) matches Ok(entries) ==> (0 <= j < k < entries.len() ==> {
            &&& entries[j].0 != entries[k].0
            &&& exists|i: int|
                0 <= i < settings.len() && lower((#[trigger] settings[i]).0) == entries[j].0
                    && forall|m: int|
                    0 <= m <= i ==> lower((#[trigger] settings[m]).0) != entries[k].0
        }),
{
    if let Ok(entries) = headers_of(settings) {
        if 0 <= j < k < entries.len() {
            lemma_map_holds(settings);
            assert(entries[j].0 != entries[k].0);
            assert(came_first(settings, entries[j].0, entries[k].0));
        }
    }
}

/// A setting that can be no header is refused with what is wrong with it, its name before its
/// value, whatever comes behind it.
pub proof fn first_unfit_setting_is_refused(settings: Seq<Setting>, i: int)
    requires
        0 <= i < settings.len(),
        forall|k: int|
            0 <= k < i ==> is_header_name((#[trigger] settings[k]).0) && is_header_value(
                settings[k].1,
            ),
    ensures
        !is_header_name(settings[i].0) ==> headers_of(settings) == Err::<
            Seq<HeaderEntry>,
            Seq<char>,
        >("Failed to add config extension: "@ + "invalid HTTP header name"@),
        is_header_name(settings[i].0) && !is_header_value(settings[i].1) ==> headers_of(settings)
            == Err::<Seq<HeaderEntry>, Seq<char>>(
            "Failed to add config extension: "@ + "failed to parse header value"@,
        ),
    decreases settings.len(),
{
    let before = settings.drop_last();
    assert forall|k: int| 0 <= k < before.len() implies before[k] == settings[k] by {}
    if i < before.len() {
        first_unfit_setting_is_refused(before, i);
    } else {
        lemma_fit_settings(before);
        assert forall|k: int| 0 <= k < before.len() implies is_fit(#[trigger] before[k]) by {
            assert(before[k] == settings[k]);
        }
        assert(settings.last() == settings[i]);
    }
}

/// What comes of writing option extensions: a header map exactly as long as every setting can be a
/// header, and then one that holds every setting; an error that says what is wrong with the first
/// that cannot; or, with more than 6554 settings alone, that the map is full.
pub proof fn writing_loses_nothing(
    settings: Seq<Setting>,
    r: Result<HeaderMap<HeaderValue>, DistributedError>,
)
    requires
        is_outcome_of(settings, r),
    ensures
        r matches Ok(map) ==> {
            &&& headers_of(settings) == Ok::<Seq<HeaderEntry>, Seq<char>>(header_entries(map))
            &&& forall|i: int|
                0 <= i < settings.len() ==> is_header_name((#[trigger] settings[i]).0)
                    && is_header_value(settings[i].1)
            &&& forall|i: int|
                0 <= i < settings.len() && (forall|k: int|
                    i < k < settings.len() ==> lower((#[trigger] settings[k]).0) != lower(
                        settings[i].0,
                    )) ==> header_entries(map).contains(
                    (lower((#[trigger] settings[i]).0), encode_utf8(settings[i].1)),
                )
        },
        r matches Err(e) ==> {
            ||| headers_of(settings) matches Err(m) && e@ == ErrorView::Internal(m)
            ||| settings.len() > 6554 && e@ == ErrorView::Internal(
                "Failed to add config extension: "@ + "max size reached"@,
            )
        },
{
    writing_needs_fit_settings(settings);
    match r {
        Ok(map) => {
            let entries = header_entries(map);
            assert forall|i: int|
                0 <= i < settings.len() && (forall|k: int|
                    i < k < settings.len() ==> lower((#[trigger] settings[k]).0) != lower(
                        settings[i].0,
                    )) implies entries.contains(
                (lower((#[trigger] settings[i]).0), encode_utf8(settings[i].1)),
            ) by {
                let name = lower(settings[i].0);
                every_name_is_written(settings, i);
                let j = choose|j: int|
                    0 <= j < entries.len() && (#[trigger] entries[j]).0 == name;
                last_value_of_a_name_is_written(settings, j);
                let m = choose|m: int|
                    0 <= m < settings.len() && lower((#[trigger] settings[m]).0) == entries[j].0
                        && encode_utf8(settings[m].1) == entries[j].1 && forall|k: int|
                        m < k < settings.len() ==> lower((#[trigger] settings[k]).0)
                            != entries[j].0;
                if m < i {
                    assert(lower(settings[i].0) != entries[j].0);
                } else if i < m {
                    assert(lower(settings[m].0) != name);
                }
                assert(m == i);
                assert(entries[j] == (name, encode_utf8(settings[i].1)));
            }
        },
        Err(_) => {
            if settings.len() <= 6554 {
                few_headers_always_fit(settings);
            }
        },
    }
}

/// A header that carries a known key sets that key to its text; one that is no text ends the
/// reading; one that carries no key, or one that is not known, sets nothing. Headers before others
/// set first, and the others nothing where the reading has ended.
pub proof fn each_header_sets_its_key(
    name: Seq<char>,
    bytes: Seq<u8>,
    prefix: Seq<char>,
    known: Seq<Seq<char>>,
    first: Seq<HeaderEntry>,
    rest: Seq<HeaderEntry>,
)
    ensures
        settings_from(seq![(name, bytes)], prefix, known, 1) == match extension_key(name, prefix) {
            Some(key) => if !known.contains(key) {
                (Seq::<Setting>::empty(), false)
            } else if is_header_text(bytes) {
                (seq![(key, header_text(bytes))], false)
            } else {
                (Seq::empty(), true)
            },
            None => (Seq::empty(), false),
        },
        settings_from(Seq::empty(), prefix, known, 0) == (Seq::<Setting>::empty(), false),
        settings_from(first + rest, prefix, known, first.len() + rest.len()) == (if settings_from(
            first,
            prefix,
            known,
            first.len(),
        ).1 {
            settings_from(first, prefix, known, first.len())
        } else {
            (
                settings_from(first, prefix, known, first.len()).0 + settings_from(
                    rest,
                    prefix,
                    known,
                    rest.len(),
                ).0,
                settings_from(rest, prefix, known, rest.len()).1,
            )
        }),
{
    reveal_with_fuel(settings_from, 2);
    let one = settings_from(seq![(name, bytes)], prefix, known, 1);
    if let Some(key) = extension_key(name, prefix) {
        if known.contains(key) && is_header_text(bytes) {
            assert(one.0 =~= seq![(key, header_text(bytes))]);
        }
    }
    lemma_headers_in_turn(first, rest, prefix, known, rest.len());
}

/// The literal header of a known key, under a prefix and a key that do not repeat, sets that key to
/// its text.
pub proof fn literal_header_sets_its_key(
    prefix: Seq<char>,
    key: Seq<char>,
    bytes: Seq<u8>,
    known: Seq<Seq<char>>,
)
    requires
        !has_prefix(prefix, "x-datafusion-distributed-config-"@),
        !has_prefix(key, prefix + "."@),
        known.contains(key),
        is_header_text(bytes),
    ensures
        settings_from(
            seq![("x-datafusion-distributed-config-"@ + prefix + "."@ + key, bytes)],
            prefix,
            known,
            1,
        ) == (seq![(key, header_text(bytes))], false),
{
    header_is_named_after_prefix_and_key(prefix, key);
    each_header_sets_its_key(
        "x-datafusion-distributed-config-"@ + prefix + "."@ + key,
        bytes,
        prefix,
        known,
        Seq::empty(),
        Seq::empty(),
    );
}

/// Headers behind others set behind them.
proof fn lemma_headers_in_turn(
    first: Seq<HeaderEntry>,
    rest: Seq<HeaderEntry>,
    prefix: Seq<char>,
    known: Seq<Seq<char>>,
    n: nat,
)
    requires
        n <= rest.len(),
    ensures
        settings_from(first + rest, prefix, known, first.len() + n) == (if settings_from(
            first,
            prefix,
            known,
            first.len(),
        ).1 {
            settings_from(first, prefix, known, first.len())
        } else {
            (
                settings_from(first, prefix, known, first.len()).0 + settings_from(
                    rest,
                    prefix,
                    known,
                    n,
                ).0,
                settings_from(rest, prefix, known, n).1,
            )
        }),
    decreases n,
{
    let all = first + rest;
    let start = settings_from(first, prefix, known, first.len()).0;
    if n == 0 {
        lemma_same_headers(all, first, prefix, known, first.len());
        assert(start + settings_from(rest, prefix, known, 0).0 =~= start);
    } else {
        lemma_headers_in_turn(first, rest, prefix, known, (n - 1) as nat);
        assert(all[first.len() + n - 1] == rest[n - 1]);
        let before = settings_from(rest, prefix, known, (n - 1) as nat).0;
        let after = settings_from(rest, prefix, known, n).0;
        if after != before {
            assert(start + after =~= (start + before).push(after.last()));
        }
    }
}

/// The same headers set the same.
proof fn lemma_same_headers(
    a: Seq<HeaderEntry>,
    b: Seq<HeaderEntry>,
    prefix: Seq<char>,
    known: Seq<Seq<char>>,
    n: nat,
)
    requires
        forall|i: int| 0 <= i < n ==> a[i] == b[i],
    ensures
        settings_from(a, prefix, known, n) == settings_from(b, prefix, known, n),
    decreases n,
{
    if n > 0 {
        lemma_same_headers(a, b, prefix, known, (n - 1) as nat);
        assert(a[n - 1] == b[n - 1]);
    }
}

} // verus!
