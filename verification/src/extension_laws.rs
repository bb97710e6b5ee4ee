//! What holds of option extensions on their way to the workers.

use crate::config_extension_ext::{entry_settings, extension_header_name, extension_key};
use crate::config_extension_ext::{headers_of, may_fill_map, propagated_settings, settings_from};
use crate::config_extension_ext::{ExtensionView, Setting, FLIGHT_METADATA_CONFIG_PREFIX};
use crate::headers::{first_named, is_header_name, is_header_value, is_plain, is_visible_text};
use crate::headers::{lemma_first_named, lemma_header_count, lemma_header_replaces};
use crate::headers::{lemma_plain_name, lemma_plain_upto, lower, plain_upto};
use crate::headers::{visible_text_reads_back, with_header, HeaderEntry};
use crate::text::{has_prefix, trimmed};
use vstd::prelude::*;
use vstd::utf8::*;

verus! {

/// The keys that have a value among the first `n` entries of an option extension, with that value.
pub open spec fn valued(entries: Seq<(Seq<char>, Option<Seq<char>>)>, n: nat) -> Seq<Setting>
    decreases n,
{
    if n == 0 {
        Seq::empty()
    } else {
        let before = valued(entries, (n - 1) as nat);
        match entries[n - 1].1 {
            Some(value) => before.push((entries[n - 1].0, value)),
            None => before,
        }
    }
}

/// The known key that a header of this name, as it is kept, sets under `prefix`.
pub open spec fn addressed_key(name: Seq<char>, prefix: Seq<char>, known: Seq<Seq<char>>) -> Option<
    Seq<char>,
> {
    match extension_key(lower(name), prefix) {
        Some(key) => if known.contains(key) {
            Some(key)
        } else {
            None
        },
        None => None,
    }
}

/// The known keys under `prefix` that headers set, with their values, in order.
pub open spec fn addressed(
    settings: Seq<Setting>,
    prefix: Seq<char>,
    known: Seq<Seq<char>>,
) -> Seq<Setting>
    decreases settings.len(),
{
    if settings.len() == 0 {
        Seq::empty()
    } else {
        let before = addressed(settings.drop_last(), prefix, known);
        match addressed_key(settings.last().0, prefix, known) {
            Some(key) => before.push((key, settings.last().1)),
            None => before,
        }
    }
}

/// The first entries of a header map alone say what they set.
proof fn lemma_first_entries(
    a: Seq<HeaderEntry>,
    b: Seq<HeaderEntry>,
    prefix: Seq<char>,
    known: Seq<Seq<char>>,
    n: nat,
)
    requires
        n <= a.len(),
        n <= b.len(),
        forall|i: int|
            0 <= i < n ==> (#[trigger] a[i] == b[i] || a[i].0 == b[i].0 && (extension_key(
                a[i].0,
                prefix,
            ) matches Some(key) ==> !known.contains(key))),
    ensures
        settings_from(a, prefix, known, n) == settings_from(b, prefix, known, n),
    decreases n,
{
    if n > 0 {
        lemma_first_entries(a, b, prefix, known, (n - 1) as nat);
        assert(a[n - 1] == a[n - 1]);
    }
}

/// The names of the entries are different from one another.
spec fn are_distinct(entries: Seq<HeaderEntry>) -> bool {
    forall|i: int, j: int|
        0 <= i < j < entries.len() ==> (#[trigger] entries[i]).0 != (#[trigger] entries[j]).0
}

/// The name, as it is kept, is that of one of the settings.
spec fn is_named(settings: Seq<Setting>, name: Seq<char>) -> bool {
    exists|i: int| 0 <= i < settings.len() && lower((#[trigger] settings[i]).0) == name
}

/// What the headers made of `settings` set under `prefix` are the settings addressed to it.
proof fn lemma_addressed_arrive(
    settings: Seq<Setting>,
    prefix: Seq<char>,
    known: Seq<Seq<char>>,
)
    requires
        forall|i: int|
            0 <= i < settings.len() ==> is_header_name((#[trigger] settings[i]).0)
                && is_header_value(settings[i].1) && (addressed_key(
                settings[i].0,
                prefix,
                known,
            ) is Some ==> is_visible_text(settings[i].1)),
        forall|i: int, j: int|
            0 <= i < j < settings.len() && addressed_key(settings[j].0, prefix, known) is Some
                ==> lower((#[trigger] settings[i]).0) != lower((#[trigger] settings[j]).0),
    ensures
        headers_of(settings) matches Ok(entries) && are_distinct(entries) && (forall|i: int|
            0 <= i < entries.len() ==> is_named(settings, (#[trigger] entries[i]).0))
            && settings_from(entries, prefix, known, entries.len()) == (
            addressed(settings, prefix, known),
            false,
        ),
    decreases settings.len(),
{
    if settings.len() > 0 {
        let before = settings.drop_last();
        let last = settings.last();
        let end = settings.len() - 1;
        assert forall|i: int| 0 <= i < before.len() implies before[i] == settings[i] by {}
        lemma_addressed_arrive(before, prefix, known);
        let old_entries = headers_of(before)->Ok_0;
        let name = lower(last.0);
        let value = encode_utf8(last.1);
        let entries = with_header(old_entries, name, value);
        assert(settings[end] == last);
        assert(headers_of(settings) == Ok::<Seq<HeaderEntry>, Seq<char>>(entries));
        lemma_first_named(old_entries, name);
        let at = first_named(old_entries, name) as int;
        assert forall|i: int| 0 <= i < old_entries.len() implies is_named(
            settings,
            (#[trigger] old_entries[i]).0,
        ) by {
            assert(is_named(before, old_entries[i].0));
            let k = choose|k: int|
                0 <= k < before.len() && lower((#[trigger] before[k]).0) == old_entries[i].0;
            assert(settings[k] == before[k]);
        }
        assert(is_named(settings, name)) by {
            assert(lower(settings[end].0) == name);
        }
        if at == old_entries.len() {
            assert(entries == old_entries.push((name, value)));
            lemma_first_entries(entries, old_entries, prefix, known, old_entries.len());
            if addressed_key(last.0, prefix, known) is Some {
                visible_text_reads_back(last.1);
            }
        } else {
            assert(is_named(before, old_entries[at].0));
            let k = choose|k: int|
                0 <= k < before.len() && lower((#[trigger] before[k]).0) == old_entries[at].0;
            assert(lower(settings[k].0) == lower(settings[end].0));
            assert(addressed_key(last.0, prefix, known) is None);
            lemma_header_replaces(old_entries, name, value);
            assert(entries == old_entries.update(at, (name, value)));
            lemma_first_entries(entries, old_entries, prefix, known, old_entries.len());
        }
    }
}

/// The extension `own` arrives from among `extensions`, of which those with a prefix among
/// `prefixes` travel:
/// - a header can be made of each entry that travels;
/// - each entry of the extension `own` is addressed to its own key and can be read as text;
/// - no entry of another extension is addressed to a key of the extension `own`;
/// - no key stands twice in the extension `own`.
pub open spec fn arrives(
    extensions: Seq<ExtensionView>,
    prefixes: Seq<Seq<char>>,
    own: int,
    known: Seq<Seq<char>>,
) -> bool {
    &&& forall|a: int, b: int|
        0 <= a < extensions.len() && prefixes.contains(extensions[a].0) && 0 <= b
            < extensions[a].1.len() ==> (#[trigger] extensions[a].1[b].1 matches Some(value) ==> {
            let name = extension_header_name(extensions[a].0, extensions[a].1[b].0);
            &&& is_header_name(name)
            &&& is_header_value(value)
            &&& a == own ==> addressed_key(name, extensions[own].0, known) == Some(
                extensions[own].1[b].0,
            ) && is_visible_text(value)
            &&& a != own ==> addressed_key(name, extensions[own].0, known) is None
        })
    &&& forall|b: int, c: int|
        0 <= b < c < extensions[own].1.len() && extensions[own].1[b].1 is Some
            && extensions[own].1[c].1 is Some ==> (#[trigger] extensions[own].1[b]).0 != (
        #[trigger] extensions[own].1[c]).0
}

/// The settings are such that what is addressed to `prefix` arrives.
spec fn are_sound(settings: Seq<Setting>, prefix: Seq<char>, known: Seq<Seq<char>>) -> bool {
    &&& forall|i: int|
        0 <= i < settings.len() ==> is_header_name((#[trigger] settings[i]).0) && is_header_value(
            settings[i].1,
        ) && (addressed_key(settings[i].0, prefix, known) is Some ==> is_visible_text(
            settings[i].1,
        ))
    &&& forall|i: int, j: int|
        0 <= i < j < settings.len() ==> (addressed_key(
            (#[trigger] settings[i]).0,
            prefix,
            known,
        ) is None || addressed_key(settings[i].0, prefix, known) != addressed_key(
            (#[trigger] settings[j]).0,
            prefix,
            known,
        ))
}

/// Every key that the settings address under `prefix` is that of one of the first `m` entries.
spec fn address_within(
    settings: Seq<Setting>,
    entries: Seq<(Seq<char>, Option<Seq<char>>)>,
    m: nat,
    prefix: Seq<char>,
    known: Seq<Seq<char>>,
) -> bool {
    forall|i: int|
        0 <= i < settings.len() ==> (addressed_key((#[trigger] settings[i]).0, prefix, known)
            matches Some(key) ==> is_key_upto(entries, m, key))
}

/// The key is that of one of the first `m` entries that have a value.
spec fn is_key_upto(
    entries: Seq<(Seq<char>, Option<Seq<char>>)>,
    m: nat,
    key: Seq<char>,
) -> bool {
    exists|b: int| 0 <= b < m && (#[trigger] entries[b]).0 == key && entries[b].1 is Some
}

/// What the settings of one more extension, its first `m` entries, add.
proof fn lemma_extension_adds(
    extensions: Seq<ExtensionView>,
    prefixes: Seq<Seq<char>>,
    own: int,
    known: Seq<Seq<char>>,
    before: Seq<Setting>,
    a: int,
    m: nat,
)
    requires
        0 <= own < extensions.len(),
        0 <= a < extensions.len(),
        prefixes.contains(extensions[a].0),
        m <= extensions[a].1.len(),
        arrives(extensions, prefixes, own, known),
        are_sound(before, extensions[own].0, known),
        address_within(
            before,
            extensions[own].1,
            if a <= own {
                0
            } else {
                extensions[own].1.len()
            },
            extensions[own].0,
            known,
        ),
    ensures
        ({
            let all = before + entry_settings(extensions[a].0, extensions[a].1, m);
            &&& are_sound(all, extensions[own].0, known)
            &&& address_within(
                all,
                extensions[own].1,
                if a < own {
                    0
                } else if a == own {
                    m
                } else {
                    extensions[own].1.len()
                },
                extensions[own].0,
                known,
            )
            &&& addressed(all, extensions[own].0, known) == addressed(
                before,
                extensions[own].0,
                known,
            ) + (if a == own {
                valued(extensions[a].1, m)
            } else {
                Seq::empty()
            })
        }),
    decreases m,
{
    let prefix = extensions[own].0;
    let entries = extensions[a].1;
    let all = before + entry_settings(extensions[a].0, entries, m);
    let start = addressed(before, prefix, known);
    if m == 0 {
        assert(all =~= before);
        assert(start + Seq::<Setting>::empty() =~= start);
    } else {
        let k = (m - 1) as nat;
        let part = before + entry_settings(extensions[a].0, entries, k);
        lemma_extension_adds(extensions, prefixes, own, known, before, a, k);
        let limit: nat = if a < own {
            0
        } else if a == own {
            m
        } else {
            extensions[own].1.len()
        };
        match entries[m - 1].1 {
            Some(value) => {
                let key = entries[m - 1].0;
                let name = extension_header_name(extensions[a].0, key);
                assert(extensions[a].1[m - 1].1 == Some(value));
                assert(all =~= part.push((name, value)));
                assert(all.drop_last() =~= part);
                assert forall|i: int| 0 <= i < part.len() implies addressed_key(
                    (#[trigger] all[i]).0,
                    prefix,
                    known,
                ) is None || addressed_key(all[i].0, prefix, known) != addressed_key(
                    name,
                    prefix,
                    known,
                ) by {
                    assert(all[i] == part[i]);
                    if a == own && addressed_key(part[i].0, prefix, known) == Some(key) {
                        assert(is_key_upto(entries, k, key));
                        let b = choose|b: int|
                            0 <= b < k && (#[trigger] entries[b]).0 == key && entries[b].1 is Some;
                        assert(extensions[own].1[b].0 != extensions[own].1[m - 1].0);
                    }
                }
                assert(are_sound(all, prefix, known)) by {
                    assert forall|i: int| 0 <= i < all.len() implies is_header_name(
                        (#[trigger] all[i]).0,
                    ) && is_header_value(all[i].1) && (addressed_key(all[i].0, prefix, known)
                        is Some ==> is_visible_text(all[i].1)) by {
                        if i < part.len() {
                            assert(all[i] == part[i]);
                        }
                    }
                    assert forall|i: int, j: int| 0 <= i < j < all.len() implies (addressed_key(
                        (#[trigger] all[i]).0,
                        prefix,
                        known,
                    ) is None || addressed_key(all[i].0, prefix, known) != addressed_key(
                        (#[trigger] all[j]).0,
                        prefix,
                        known,
                    )) by {
                        if j < part.len() {
                            assert(all[i] == part[i]);
                            assert(all[j] == part[j]);
                        }
                    }
                }
                assert forall|i: int| 0 <= i < all.len() implies (addressed_key(
                    (#[trigger] all[i]).0,
                    prefix,
                    known,
                ) matches Some(x) ==> is_key_upto(extensions[own].1, limit, x)) by {
                    if i < part.len() {
                        assert(all[i] == part[i]);
                        if let Some(x) = addressed_key(part[i].0, prefix, known) {
                            if a == own {
                                assert(is_key_upto(entries, k, x));
                                let b = choose|b: int|
                                    0 <= b < k && (#[trigger] entries[b]).0 == x
                                        && entries[b].1 is Some;
                                assert(entries[b].0 == x);
                                assert(is_key_upto(entries, m, x));
                            }
                        }
                    } else if a == own {
                        assert(entries[m - 1].0 == key);
                        assert(is_key_upto(entries, m, key));
                    }
                }
                if a == own {
                    assert(start + valued(entries, m) =~= (start + valued(entries, k)).push(
                        (key, value),
                    ));
                }
            },
            None => {
                assert(all =~= part);
                if a == own {
                    assert forall|i: int| 0 <= i < all.len() implies (addressed_key(
                        (#[trigger] all[i]).0,
                        prefix,
                        known,
                    ) matches Some(x) ==> is_key_upto(entries, m, x)) by {
                        if let Some(x) = addressed_key(part[i].0, prefix, known) {
                            assert(is_key_upto(entries, k, x));
                            let b = choose|b: int|
                                0 <= b < k && (#[trigger] entries[b]).0 == x
                                    && entries[b].1 is Some;
                            assert(entries[b].0 == x);
                        }
                    }
                }
            },
        }
    }
}

/// What the settings of the first `n` extensions address to the extension `own`.
proof fn lemma_extensions_add(
    extensions: Seq<ExtensionView>,
    prefixes: Seq<Seq<char>>,
    own: int,
    known: Seq<Seq<char>>,
    n: nat,
)
    requires
        n <= extensions.len(),
        0 <= own < extensions.len(),
        prefixes.contains(extensions[own].0),
        arrives(extensions, prefixes, own, known),
    ensures
        ({
            let settings = propagated_settings(extensions, prefixes, n);
            &&& are_sound(settings, extensions[own].0, known)
            &&& address_within(
                settings,
                extensions[own].1,
                if n <= own {
                    0
                } else {
                    extensions[own].1.len()
                },
                extensions[own].0,
                known,
            )
            &&& addressed(settings, extensions[own].0, known) == (if n <= own {
                Seq::empty()
            } else {
                valued(extensions[own].1, extensions[own].1.len())
            })
        }),
    decreases n,
{
    if n > 0 {
        let m = (n - 1) as nat;
        lemma_extensions_add(extensions, prefixes, own, known, m);
        let before = propagated_settings(extensions, prefixes, m);
        if prefixes.contains(extensions[n - 1].0) {
            lemma_extension_adds(
                extensions,
                prefixes,
                own,
                known,
                before,
                n - 1,
                extensions[n - 1].1.len(),
            );
            let start = addressed(before, extensions[own].0, known);
            assert(start + Seq::<Setting>::empty() =~= start);
            assert(Seq::<Setting>::empty() + valued(
                extensions[own].1,
                extensions[own].1.len(),
            ) =~= valued(extensions[own].1, extensions[own].1.len()));
        }
    }
}

/// Option extensions that are written into headers and read from them arrive: the headers set
/// exactly the keys of the extension that have a value, to that value and in order, however many
/// other extensions travel with it.
pub proof fn extensions_survive_propagation(
    extensions: Seq<ExtensionView>,
    prefixes: Seq<Seq<char>>,
    own: int,
    known: Seq<Seq<char>>,
)
    requires
        0 <= own < extensions.len(),
        prefixes.contains(extensions[own].0),
        arrives(extensions, prefixes, own, known),
    ensures
        headers_of(propagated_settings(extensions, prefixes, extensions.len())) matches Ok(entries)
            && settings_from(entries, extensions[own].0, known, entries.len()) == (
            valued(extensions[own].1, extensions[own].1.len()),
            false,
        ),
{
    let settings = propagated_settings(extensions, prefixes, extensions.len());
    let prefix = extensions[own].0;
    lemma_extensions_add(extensions, prefixes, own, known, extensions.len());
    assert forall|i: int, j: int|
        0 <= i < j < settings.len() && addressed_key(settings[j].0, prefix, known) is Some implies
        lower((#[trigger] settings[i]).0) != lower((#[trigger] settings[j]).0) by {
        if lower(settings[i].0) == lower(settings[j].0) {
            assert(addressed_key(settings[i].0, prefix, known) == addressed_key(
                settings[j].0,
                prefix,
                known,
            ));
        }
    }
    lemma_addressed_arrive(settings, prefix, known);
}

/// `s` has no dot.
pub open spec fn is_dotless(s: Seq<char>) -> bool {
    forall|i: int| 0 <= i < s.len() ==> #[trigger] s[i] != '.'
}

/// The prefix is one under which an option extension can travel: lower case, made of characters
/// of header names, and not itself beginning as the headers do.
pub open spec fn is_portable_prefix(prefix: Seq<char>) -> bool {
    &&& is_plain(prefix)
    &&& !has_prefix(prefix, FLIGHT_METADATA_CONFIG_PREFIX@)
}

/// With a dot behind each, one of the prefixes begins with the other, so that a header for one of
/// them can be one for the other as well.
pub open spec fn collide(a: Seq<char>, b: Seq<char>) -> bool {
    has_prefix(a + "."@, b + "."@) || has_prefix(b + "."@, a + "."@)
}

/// The entries of an option extension can travel: each key is in lower case, made of characters of
/// header names, does not begin with the prefix and a dot, stands there once, and gives no overlong
/// name; each value is visible ASCII.
pub open spec fn are_portable_entries(
    prefix: Seq<char>,
    entries: Seq<(Seq<char>, Option<Seq<char>>)>,
) -> bool {
    &&& forall|i: int|
        0 <= i < entries.len() ==> {
            let (key, value) = #[trigger] entries[i];
            &&& is_plain(key)
            &&& !has_prefix(key, prefix + "."@)
            &&& extension_header_name(prefix, key).len() <= 65535
            &&& value matches Some(v) ==> is_visible_text(v)
        }
    &&& forall|i: int, j: int|
        0 <= i < j < entries.len() ==> (#[trigger] entries[i]).0 != (#[trigger] entries[j]).0
}

/// The prefix of the headers is plain, and has no dot.
proof fn lemma_flight_prefix()
    ensures
        FLIGHT_METADATA_CONFIG_PREFIX@.len() == 32,
        is_plain(FLIGHT_METADATA_CONFIG_PREFIX@),
        is_dotless(FLIGHT_METADATA_CONFIG_PREFIX@),
{
    reveal_strlit("x-datafusion-distributed-config-");
    let s = FLIGHT_METADATA_CONFIG_PREFIX@;
    assert(plain_upto(s, 32)) by {
        reveal_with_fuel(plain_upto, 33);
    }
    lemma_plain_upto(s, 32);
    assert(dotless_upto(s, 32)) by {
        reveal_with_fuel(dotless_upto, 33);
    }
    lemma_dotless_upto(s, 32);
}

spec fn dotless_upto(s: Seq<char>, n: nat) -> bool
    decreases n,
{
    n == 0 || (s[n - 1] != '.' && dotless_upto(s, (n - 1) as nat))
}

proof fn lemma_dotless_upto(s: Seq<char>, n: nat)
    requires
        dotless_upto(s, n),
    ensures
        forall|i: int| 0 <= i < n ==> #[trigger] s[i] != '.',
    decreases n,
{
    if n > 0 {
        lemma_dotless_upto(s, (n - 1) as nat);
    }
}

/// The header of an entry is a header name in lower case.
proof fn lemma_extension_name(prefix: Seq<char>, key: Seq<char>)
    requires
        is_plain(prefix),
        is_plain(key),
        extension_header_name(prefix, key).len() <= 65535,
    ensures
        is_header_name(extension_header_name(prefix, key)),
        lower(extension_header_name(prefix, key)) == extension_header_name(prefix, key),
{
    reveal_strlit(".");
    lemma_flight_prefix();
    let name = extension_header_name(prefix, key);
    let n = FLIGHT_METADATA_CONFIG_PREFIX@.len() as int;
    assert(is_plain("."@));
    assert(is_plain(prefix + "."@ + key));
    assert(is_plain(name));
    lemma_plain_name(name);
}

/// A header of an option extension carries its key for the prefix of that extension, and none for
/// a prefix that does not collide with it.
pub proof fn header_carries_its_key(prefix: Seq<char>, key: Seq<char>, other: Seq<char>)
    requires
        !has_prefix(prefix, FLIGHT_METADATA_CONFIG_PREFIX@),
    ensures
        !has_prefix(key, prefix + "."@) ==> extension_key(
            extension_header_name(prefix, key),
            prefix,
        ) == Some(key),
        !collide(prefix, other) ==> extension_key(
            extension_header_name(prefix, key),
            other,
        ) is None,
{
    reveal_strlit(".");
    lemma_flight_prefix();
    let flight = FLIGHT_METADATA_CONFIG_PREFIX@;
    let name = extension_header_name(prefix, key);
    let rest = prefix + "."@ + key;
    let namespace = prefix + "."@;
    assert(name.take(flight.len() as int) =~= flight);
    assert(name.skip(flight.len() as int) =~= rest);
    assert(!has_prefix(rest, flight)) by {
        if has_prefix(rest, flight) {
            assert forall|i: int| 0 <= i < flight.len() implies rest[i] == flight[i] by {
                assert(rest.take(flight.len() as int)[i] == flight[i]);
            }
            if prefix.len() < flight.len() {
                assert(rest[prefix.len() as int] == '.');
                assert(flight[prefix.len() as int] != '.');
            } else {
                assert(prefix.take(flight.len() as int) =~= flight);
            }
        }
    }
    reveal_with_fuel(trimmed, 2);
    assert(trimmed(name, flight) == rest);
    assert(rest.take(namespace.len() as int) =~= namespace);
    assert(rest.skip(namespace.len() as int) =~= key);
    let theirs = other + "."@;
    if has_prefix(rest, theirs) {
        if theirs.len() <= namespace.len() {
            assert(namespace.take(theirs.len() as int) =~= rest.take(theirs.len() as int));
        } else {
            assert(theirs.take(namespace.len() as int) =~= rest.take(theirs.len() as int).take(
                namespace.len() as int,
            ));
            assert(rest.take(theirs.len() as int).take(namespace.len() as int)
                =~= rest.take(namespace.len() as int));
        }
    }
}

/// Different prefixes without dots do not collide.
pub proof fn dotless_prefixes_do_not_collide(a: Seq<char>, b: Seq<char>)
    requires
        is_dotless(a),
        is_dotless(b),
        a != b,
    ensures
        !collide(a, b),
{
    lemma_dotless_namespaces(a, b);
    lemma_dotless_namespaces(b, a);
}

/// A prefix without dots and a dot do not begin with another such prefix and a dot.
proof fn lemma_dotless_namespaces(a: Seq<char>, b: Seq<char>)
    requires
        is_dotless(a),
        a != b,
    ensures
        !has_prefix(a + "."@, b + "."@),
{
    reveal_strlit(".");
    let longer = a + "."@;
    let shorter = b + "."@;
    if has_prefix(longer, shorter) {
        assert(longer.take(shorter.len() as int)[b.len() as int] == '.');
        assert(longer[b.len() as int] == '.');
        if b.len() < a.len() {
            assert(longer[b.len() as int] == a[b.len() as int]);
        } else {
            assert(longer =~= shorter);
            assert forall|i: int| 0 <= i < a.len() implies a[i] == b[i] by {
                assert(longer[i] == shorter[i]);
            }
            assert(a =~= b);
        }
    }
}

/// The option extensions whose prefix is among `prefixes` can travel together: each has a portable
/// prefix that collides with none of the others, and portable entries.
pub open spec fn are_portable(extensions: Seq<ExtensionView>, prefixes: Seq<Seq<char>>) -> bool {
    &&& forall|a: int|
        0 <= a < extensions.len() && prefixes.contains((#[trigger] extensions[a]).0) ==> {
            &&& is_portable_prefix(extensions[a].0)
            &&& are_portable_entries(extensions[a].0, extensions[a].1)
        }
    &&& forall|a: int, b: int|
        0 <= a < extensions.len() && 0 <= b < extensions.len() && a != b && prefixes.contains(
            (#[trigger] extensions[a]).0,
        ) && prefixes.contains((#[trigger] extensions[b]).0) ==> !collide(
            extensions[a].0,
            extensions[b].0,
        )
}

/// Portable extensions arrive, each at a reader that knows its keys.
pub proof fn portable_extensions_arrive(
    extensions: Seq<ExtensionView>,
    prefixes: Seq<Seq<char>>,
    own: int,
    known: Seq<Seq<char>>,
)
    requires
        0 <= own < extensions.len(),
        prefixes.contains(extensions[own].0),
        are_portable(extensions, prefixes),
        forall|b: int|
            0 <= b < extensions[own].1.len() ==> known.contains(
                (#[trigger] extensions[own].1[b]).0,
            ),
    ensures
        arrives(extensions, prefixes, own, known),
{
    assert forall|a: int, b: int|
        0 <= a < extensions.len() && prefixes.contains(extensions[a].0) && 0 <= b
            < extensions[a].1.len() implies (#[trigger] extensions[a].1[b].1 matches Some(
        value,
    ) ==> {
        let name = extension_header_name(extensions[a].0, extensions[a].1[b].0);
        &&& is_header_name(name)
        &&& is_header_value(value)
        &&& a == own ==> addressed_key(name, extensions[own].0, known) == Some(
            extensions[own].1[b].0,
        ) && is_visible_text(value)
        &&& a != own ==> addressed_key(name, extensions[own].0, known) is None
    }) by {
        let (key, value) = extensions[a].1[b];
        if value is Some {
            lemma_extension_name(extensions[a].0, key);
            visible_text_reads_back(value->0);
            if a != own {
                assert(!collide(extensions[a].0, extensions[own].0));
            }
            header_carries_its_key(extensions[a].0, key, extensions[own].0);
        }
    }
    assert forall|b: int, c: int|
        0 <= b < c < extensions[own].1.len() && extensions[own].1[b].1 is Some
            && extensions[own].1[c].1 is Some implies (#[trigger] extensions[own].1[b]).0 != (
    #[trigger] extensions[own].1[c]).0 by {
        assert(are_portable_entries(extensions[own].0, extensions[own].1));
    }
}

/// Headers set known keys alone.
pub proof fn only_known_keys_are_set(
    entries: Seq<HeaderEntry>,
    prefix: Seq<char>,
    known: Seq<Seq<char>>,
    n: nat,
)
    ensures
        forall|i: int|
            0 <= i < settings_from(entries, prefix, known, n).0.len() ==> known.contains(
                (#[trigger] settings_from(entries, prefix, known, n).0[i]).0,
            ),
    decreases n,
{
    if n > 0 {
        only_known_keys_are_set(entries, prefix, known, (n - 1) as nat);
        let before = settings_from(entries, prefix, known, (n - 1) as nat).0;
        let all = settings_from(entries, prefix, known, n).0;
        assert forall|i: int| 0 <= i < all.len() implies known.contains(
            (#[trigger] all[i]).0,
        ) by {
            if i < before.len() {
                assert(all[i] == before[i]);
            }
        }
    }
}

/// Headers that carry nothing for the prefix, or keys that are not known, set nothing and are no
/// failure, whatever their values are.
pub proof fn unrelated_headers_set_nothing(
    entries: Seq<HeaderEntry>,
    prefix: Seq<char>,
    known: Seq<Seq<char>>,
    n: nat,
)
    requires
        n <= entries.len(),
        forall|i: int|
            0 <= i < entries.len() ==> (extension_key((#[trigger] entries[i]).0, prefix) matches Some(
                key,
            ) ==> !known.contains(key)),
    ensures
        settings_from(entries, prefix, known, n) == (Seq::<Setting>::empty(), false),
    decreases n,
{
    if n > 0 {
        unrelated_headers_set_nothing(entries, prefix, known, (n - 1) as nat);
        assert(entries[n - 1] == entries[n - 1]);
    }
}

/// A header map has no more entries than settings were put into it.
proof fn lemma_no_more_headers(settings: Seq<Setting>)
    ensures
        headers_of(settings) matches Ok(entries) ==> entries.len() <= settings.len(),
    decreases settings.len(),
{
    if settings.len() > 0 {
        lemma_no_more_headers(settings.drop_last());
        if let Ok(entries) = headers_of(settings.drop_last()) {
            lemma_header_count(
                entries,
                lower(settings.last().0),
                encode_utf8(settings.last().1),
            );
        }
    }
}

/// Up to 6554 headers always fit.
pub proof fn few_headers_always_fit(settings: Seq<Setting>)
    requires
        settings.len() <= 6554,
    ensures
        !may_fill_map(settings),
{
    assert forall|k: int| 0 <= k < settings.len() implies !(#[trigger] headers_of(
        settings.take(k),
    ) matches Ok(entries) && entries.len() >= 6554) by {
        lemma_no_more_headers(settings.take(k));
    }
}

} // verus!
