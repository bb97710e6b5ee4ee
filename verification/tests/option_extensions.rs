//! Option extensions on their way to the workers.

use datafusion::common::DataFusionError;
use datafusion::config::{ConfigEntry, ConfigExtension, ExtensionOptions};
use datafusion::prelude::SessionConfig;
use datafusion_distributed::config_extension_ext::{
    extension_headers, extension_settings, get_config_extension_propagation_headers,
    set_distributed_option_extension, set_distributed_option_extension_from_headers,
    ConfigExtensionPropagationContext,
};
use datafusion_distributed::error::DistributedError;
use datafusion_distributed::session::{ExtensionEntry, OptionExtension};
use http::{HeaderMap, HeaderName, HeaderValue};
use std::any::Any;
use std::str::FromStr;

fn entry(key: &str, value: Option<String>) -> ConfigEntry {
    ConfigEntry { key: key.to_string(), value, description: "" }
}

fn unknown(key: &str) -> DataFusionError {
    DataFusionError::Configuration(format!("unknown key {key}"))
}

fn parsed<T: FromStr>(value: &str) -> Result<T, DataFusionError> {
    value.parse().map_err(|_| DataFusionError::Configuration(format!("bad value {value}")))
}

#[derive(Clone, Debug, Default)]
struct CustomExtension {
    foo: String,
    bar: usize,
    baz: bool,
}

impl ExtensionOptions for CustomExtension {
    fn as_any(&self) -> &dyn Any {
        self
    }

    fn as_any_mut(&mut self) -> &mut dyn Any {
        self
    }

    fn cloned(&self) -> Box<dyn ExtensionOptions> {
        Box::new(self.clone())
    }

    fn set(&mut self, key: &str, value: &str) -> Result<(), DataFusionError> {
        match key {
            "foo" => self.foo = value.to_string(),
            "bar" => self.bar = parsed(value)?,
            "baz" => self.baz = parsed(value)?,
            _ => return Err(unknown(key)),
        }
        Ok(())
    }

    fn entries(&self) -> Vec<ConfigEntry> {
        vec![
            entry("foo", Some(self.foo.clone())),
            entry("bar", Some(self.bar.to_string())),
            entry("baz", Some(self.baz.to_string())),
        ]
    }
}

impl ConfigExtension for CustomExtension {
    const PREFIX: &'static str = "custom";
}

#[derive(Clone, Debug)]
struct AnotherExtension {
    setting1: String,
    setting2: usize,
}

impl Default for AnotherExtension {
    fn default() -> Self {
        AnotherExtension { setting1: "default1".to_string(), setting2: 42 }
    }
}

impl ExtensionOptions for AnotherExtension {
    fn as_any(&self) -> &dyn Any {
        self
    }

    fn as_any_mut(&mut self) -> &mut dyn Any {
        self
    }

    fn cloned(&self) -> Box<dyn ExtensionOptions> {
        Box::new(self.clone())
    }

    fn set(&mut self, key: &str, value: &str) -> Result<(), DataFusionError> {
        match key {
            "setting1" => self.setting1 = value.to_string(),
            "setting2" => self.setting2 = parsed(value)?,
            _ => return Err(unknown(key)),
        }
        Ok(())
    }

    fn entries(&self) -> Vec<ConfigEntry> {
        vec![
            entry("setting1", Some(self.setting1.clone())),
            entry("setting2", Some(self.setting2.to_string())),
        ]
    }
}

impl ConfigExtension for AnotherExtension {
    const PREFIX: &'static str = "another";
}

#[derive(Clone, Debug)]
struct InvalidExtension {
    key_with_spaces: String,
}

impl Default for InvalidExtension {
    fn default() -> Self {
        InvalidExtension { key_with_spaces: "value".to_string() }
    }
}

impl ExtensionOptions for InvalidExtension {
    fn as_any(&self) -> &dyn Any {
        self
    }

    fn as_any_mut(&mut self) -> &mut dyn Any {
        self
    }

    fn cloned(&self) -> Box<dyn ExtensionOptions> {
        Box::new(self.clone())
    }

    fn set(&mut self, key: &str, _value: &str) -> Result<(), DataFusionError> {
        Err(unknown(key))
    }

    fn entries(&self) -> Vec<ConfigEntry> {
        vec![entry("key_with_spaces", Some(self.key_with_spaces.clone()))]
    }
}

impl ConfigExtension for InvalidExtension {
    const PREFIX: &'static str = "invalid key with spaces";
}

#[derive(Clone, Debug)]
struct InvalidValueExtension {
    key: String,
}

impl Default for InvalidValueExtension {
    fn default() -> Self {
        InvalidValueExtension { key: "\u{0000}invalid\u{0001}".to_string() }
    }
}

impl ExtensionOptions for InvalidValueExtension {
    fn as_any(&self) -> &dyn Any {
        self
    }

    fn as_any_mut(&mut self) -> &mut dyn Any {
        self
    }

    fn cloned(&self) -> Box<dyn ExtensionOptions> {
        Box::new(self.clone())
    }

    fn set(&mut self, key: &str, _value: &str) -> Result<(), DataFusionError> {
        Err(unknown(key))
    }

    fn entries(&self) -> Vec<ConfigEntry> {
        vec![entry("key", Some(self.key.clone()))]
    }
}

impl ConfigExtension for InvalidValueExtension {
    const PREFIX: &'static str = "invalid_value";
}

/// Registers the extension and propagates it.
fn set_extension<T: ConfigExtension + Default>(cfg: &mut SessionConfig, t: T) {
    cfg.options_mut().extensions.insert(t);
    set_distributed_option_extension(cfg, T::PREFIX);
}

/// Sets in the extension what the headers say, starting from what the session has.
fn set_extension_from_headers<T: ConfigExtension + Default + Clone>(
    cfg: &mut SessionConfig,
    headers: &HeaderMap,
) -> Result<(), String> {
    let mut extension = match cfg.options().extensions.get::<T>() {
        Some(present) => present.clone(),
        None => T::default(),
    };
    let known: Vec<String> = extension.entries().into_iter().map(|e| e.key).collect();
    let read = set_distributed_option_extension_from_headers(cfg, T::PREFIX, &known, headers);
    for (key, value) in &read.settings {
        extension.set(key, value).map_err(|e| e.to_string())?;
    }
    if let Some(failure) = read.failure {
        return Err(format!("{failure:?}"));
    }
    cfg.options_mut().extensions.insert(extension);
    Ok(())
}

fn get_ext<T: ConfigExtension>(cfg: &SessionConfig) -> &T {
    cfg.options().extensions.get::<T>().unwrap()
}

fn headers_of(cfg: &SessionConfig) -> HeaderMap {
    get_config_extension_propagation_headers(cfg).unwrap()
}

fn get<'a>(headers: &'a HeaderMap, key: &str) -> &'a str {
    headers.get(key).unwrap().to_str().unwrap()
}

fn internal(e: DistributedError) -> String {
    match e {
        DistributedError::Internal(m) => m,
        other => panic!("unexpected {other:?}"),
    }
}

#[test]
fn test_propagation() {
    let mut config = SessionConfig::new();
    let opt = CustomExtension { foo: "".to_string(), bar: 0, baz: false };
    set_extension(&mut config, opt);
    let headers = headers_of(&config);
    let mut new_config = SessionConfig::new();
    set_extension_from_headers::<CustomExtension>(&mut new_config, &headers).unwrap();

    let opt = get_ext::<CustomExtension>(&config);
    let new_opt = get_ext::<CustomExtension>(&new_config);
    assert_eq!(new_opt.foo, opt.foo);
    assert_eq!(new_opt.bar, opt.bar);
    assert_eq!(new_opt.baz, opt.baz);
}

#[test]
fn test_add_extension_with_empty_values() {
    let mut config = SessionConfig::new();
    let opt = CustomExtension::default();
    set_extension(&mut config, opt);

    let flight_metadata = config.get_extension::<ConfigExtensionPropagationContext>();
    assert!(flight_metadata.is_some());

    let headers = headers_of(&config);
    assert!(headers.contains_key("x-datafusion-distributed-config-custom.foo"));
    assert!(headers.contains_key("x-datafusion-distributed-config-custom.bar"));
    assert!(headers.contains_key("x-datafusion-distributed-config-custom.baz"));
    assert_eq!(get(&headers, "x-datafusion-distributed-config-custom.foo"), "");
    assert_eq!(get(&headers, "x-datafusion-distributed-config-custom.bar"), "0");
    assert_eq!(get(&headers, "x-datafusion-distributed-config-custom.baz"), "false");
}

#[test]
fn test_new_extension_overwrites_previous() {
    let mut config = SessionConfig::new();
    let opt1 = CustomExtension { foo: "first".to_string(), ..Default::default() };
    set_extension(&mut config, opt1);
    let opt2 = CustomExtension { bar: 42, ..Default::default() };
    set_extension(&mut config, opt2);

    let headers = headers_of(&config);
    assert_eq!(get(&headers, "x-datafusion-distributed-config-custom.foo"), "");
    assert_eq!(get(&headers, "x-datafusion-distributed-config-custom.bar"), "42");
    assert_eq!(get(&headers, "x-datafusion-distributed-config-custom.baz"), "false");
}

#[test]
fn test_propagate_no_metadata() {
    let mut config = SessionConfig::new();
    set_extension_from_headers::<CustomExtension>(&mut config, &Default::default()).unwrap();

    let extension = get_ext::<CustomExtension>(&config);
    let default = CustomExtension::default();
    assert_eq!(extension.foo, default.foo);
    assert_eq!(extension.bar, default.bar);
    assert_eq!(extension.baz, default.baz);
}

#[test]
fn test_propagate_no_matching_prefix() {
    let mut config = SessionConfig::new();
    let mut header_map = HeaderMap::new();
    header_map.insert(
        HeaderName::from_str("x-datafusion-distributed-config-other.setting").unwrap(),
        HeaderValue::from_str("value").unwrap(),
    );
    set_extension_from_headers::<CustomExtension>(&mut config, &header_map).unwrap();

    let extension = get_ext::<CustomExtension>(&config);
    let default = CustomExtension::default();
    assert_eq!(extension.foo, default.foo);
    assert_eq!(extension.bar, default.bar);
    assert_eq!(extension.baz, default.baz);
}

#[test]
fn test_unknown_header_key_is_ignored() {
    let mut config = SessionConfig::new();
    let mut header_map = HeaderMap::new();
    header_map.insert(
        HeaderName::from_str("x-datafusion-distributed-config-custom.foo").unwrap(),
        HeaderValue::from_str("known").unwrap(),
    );
    header_map.insert(
        HeaderName::from_str("x-datafusion-distributed-config-custom.bar").unwrap(),
        HeaderValue::from_str("99").unwrap(),
    );
    // This does not exist and should not cause an error.
    header_map.insert(
        HeaderName::from_str("x-datafusion-distributed-config-custom.newer_field").unwrap(),
        HeaderValue::from_str("ignored").unwrap(),
    );
    set_extension_from_headers::<CustomExtension>(&mut config, &header_map).unwrap();

    let extension = get_ext::<CustomExtension>(&config);
    assert_eq!(extension.foo, "known");
    assert_eq!(extension.bar, 99);
    assert_eq!(extension.baz, CustomExtension::default().baz);
}

#[test]
fn test_known_header_key_with_invalid_value_errors() {
    let mut config = SessionConfig::new();
    let mut header_map = HeaderMap::new();
    header_map.insert(
        HeaderName::from_str("x-datafusion-distributed-config-custom.foo").unwrap(),
        HeaderValue::from_bytes(b"\xff").unwrap(),
    );
    let result = set_extension_from_headers::<CustomExtension>(&mut config, &header_map);
    assert!(result.is_err());
}

#[test]
fn test_multiple_extensions_different_prefixes() {
    let mut config = SessionConfig::new();
    let custom_opt =
        CustomExtension { foo: "custom_value".to_string(), bar: 123, ..Default::default() };
    let another_opt = AnotherExtension { setting1: "other".to_string(), setting2: 456 };
    set_extension(&mut config, custom_opt);
    set_extension(&mut config, another_opt);

    let headers = headers_of(&config);
    assert!(headers.contains_key("x-datafusion-distributed-config-custom.foo"));
    assert!(headers.contains_key("x-datafusion-distributed-config-custom.bar"));
    assert!(headers.contains_key("x-datafusion-distributed-config-another.setting1"));
    assert!(headers.contains_key("x-datafusion-distributed-config-another.setting2"));
    assert_eq!(get(&headers, "x-datafusion-distributed-config-custom.foo"), "custom_value");
    assert_eq!(get(&headers, "x-datafusion-distributed-config-custom.bar"), "123");
    assert_eq!(get(&headers, "x-datafusion-distributed-config-another.setting1"), "other");
    assert_eq!(get(&headers, "x-datafusion-distributed-config-another.setting2"), "456");

    let mut new_config = SessionConfig::new();
    set_extension_from_headers::<CustomExtension>(&mut new_config, &headers).unwrap();
    set_extension_from_headers::<AnotherExtension>(&mut new_config, &headers).unwrap();

    let propagated_custom = get_ext::<CustomExtension>(&new_config);
    let propagated_another = get_ext::<AnotherExtension>(&new_config);
    assert_eq!(propagated_custom.foo, "custom_value");
    assert_eq!(propagated_custom.bar, 123);
    assert_eq!(propagated_another.setting1, "other");
    assert_eq!(propagated_another.setting2, 456);
}

#[test]
fn test_invalid_header_name() {
    let mut config = SessionConfig::new();
    let extension = InvalidExtension::default();
    set_extension(&mut config, extension);
    let result = get_config_extension_propagation_headers(&config);
    assert!(result.is_err());
    assert_eq!(
        internal(result.unwrap_err()),
        "Failed to add config extension: invalid HTTP header name"
    );
}

#[test]
fn test_invalid_header_value() {
    let mut config = SessionConfig::new();
    let extension = InvalidValueExtension::default();
    set_extension(&mut config, extension);
    let result = get_config_extension_propagation_headers(&config);
    assert!(result.is_err());
    assert_eq!(
        internal(result.unwrap_err()),
        "Failed to add config extension: failed to parse header value"
    );
}

fn option_extension(prefix: &'static str, entries: &[(&str, Option<&str>)]) -> OptionExtension {
    let entries = entries
        .iter()
        .map(|(k, v)| ExtensionEntry { key: k.to_string(), value: v.map(|v| v.to_string()) })
        .collect();
    OptionExtension { prefix, entries }
}

fn keys(names: &[&str]) -> Vec<String> {
    names.iter().map(|n| n.to_string()).collect()
}

fn pairs(settings: &[(String, String)]) -> Vec<(&str, &str)> {
    settings.iter().map(|(k, v)| (k.as_str(), v.as_str())).collect()
}

#[test]
fn nothing_is_propagated_without_prefixes() {
    let mut config = SessionConfig::new();
    config.options_mut().extensions.insert(CustomExtension::default());
    assert!(headers_of(&config).is_empty());
}

#[test]
fn unpropagated_extensions_stay_behind() {
    let mut config = SessionConfig::new();
    config.options_mut().extensions.insert(InvalidExtension::default());
    set_extension(&mut config, AnotherExtension::default());
    let headers = headers_of(&config);
    assert_eq!(headers.len(), 2);
    assert_eq!(get(&headers, "x-datafusion-distributed-config-another.setting1"), "default1");
    assert_eq!(get(&headers, "x-datafusion-distributed-config-another.setting2"), "42");
}

#[test]
fn prefixes_are_kept_in_order() {
    let mut config = SessionConfig::new();
    set_distributed_option_extension(&mut config, "b");
    set_distributed_option_extension(&mut config, "a");
    let none = HeaderMap::new();
    set_distributed_option_extension_from_headers(&mut config, "b", &keys(&[]), &none);
    let context = config.get_extension::<ConfigExtensionPropagationContext>().unwrap();
    assert_eq!(context.prefixes, vec!["b", "a", "b"]);
}

#[test]
fn entries_without_a_value_give_no_header() {
    let extensions = vec![option_extension("p", &[("a", Some("1")), ("b", None)])];
    let headers = extension_headers(&extensions, &vec!["p"]).unwrap();
    assert_eq!(headers.len(), 1);
    assert_eq!(get(&headers, "x-datafusion-distributed-config-p.a"), "1");
}

#[test]
fn headers_stand_in_the_order_of_the_entries() {
    let extensions = vec![
        option_extension("p", &[("z", Some("1")), ("a", Some("2"))]),
        option_extension("o", &[("m", Some("3"))]),
    ];
    let headers = extension_headers(&extensions, &vec!["o", "p"]).unwrap();
    let names: Vec<&str> = headers.keys().map(|n| n.as_str()).collect();
    assert_eq!(
        names,
        vec![
            "x-datafusion-distributed-config-p.z",
            "x-datafusion-distributed-config-p.a",
            "x-datafusion-distributed-config-o.m",
        ]
    );
}

#[test]
fn names_are_kept_in_lower_case() {
    let extensions =
        vec![option_extension("p", &[("Key", Some("1")), ("x", Some("2")), ("KEY", Some("3"))])];
    let headers = extension_headers(&extensions, &vec!["p"]).unwrap();
    let all: Vec<(&str, &[u8])> = headers.iter().map(|(n, v)| (n.as_str(), v.as_bytes())).collect();
    assert_eq!(
        all,
        vec![
            ("x-datafusion-distributed-config-p.key", &b"3"[..]),
            ("x-datafusion-distributed-config-p.x", &b"2"[..]),
        ]
    );
}

#[test]
fn overlong_names_are_refused() {
    let long = "k".repeat(65536 - 34);
    let extensions = vec![option_extension("p", &[(long.as_str(), Some("1"))])];
    let result = extension_headers(&extensions, &vec!["p"]);
    assert_eq!(
        internal(result.unwrap_err()),
        "Failed to add config extension: invalid HTTP header name"
    );
    let fits = "k".repeat(65535 - 34);
    let extensions = vec![option_extension("p", &[(fits.as_str(), Some("1"))])];
    assert!(extension_headers(&extensions, &vec!["p"]).is_ok());
}

#[test]
fn a_full_map_is_an_error() {
    let names: Vec<String> = (0..40000).map(|i| format!("k{i}")).collect();
    let entries: Vec<(&str, Option<&str>)> =
        names.iter().map(|n| (n.as_str(), Some("v"))).collect();
    let extensions = vec![option_extension("p", &entries)];
    let result = extension_headers(&extensions, &vec!["p"]);
    assert_eq!(internal(result.unwrap_err()), "Failed to add config extension: max size reached");
}

#[test]
fn up_to_6554_headers_fit() {
    let names: Vec<String> = (0..6554).map(|i| format!("k{i}")).collect();
    let entries: Vec<(&str, Option<&str>)> =
        names.iter().map(|n| (n.as_str(), Some("v"))).collect();
    let extensions = vec![option_extension("p", &entries)];
    assert_eq!(extension_headers(&extensions, &vec!["p"]).unwrap().len(), 6554);
}

#[test]
fn extensions_survive_each_other() {
    let extensions = vec![
        option_extension("alpha", &[("one", Some("1")), ("two", None), ("three", Some(" 3\t"))]),
        option_extension("beta", &[("one", Some("eins")), ("beta", Some(""))]),
    ];
    let headers = extension_headers(&extensions, &vec!["alpha", "beta"]).unwrap();
    let read = extension_settings(&headers, "alpha", &keys(&["one", "two", "three"]));
    assert!(read.failure.is_none());
    assert_eq!(pairs(&read.settings), vec![("one", "1"), ("three", " 3\t")]);
    let read = extension_settings(&headers, "beta", &keys(&["beta", "one"]));
    assert!(read.failure.is_none());
    assert_eq!(pairs(&read.settings), vec![("one", "eins"), ("beta", "")]);
}

#[test]
fn dotted_prefixes_arrive_unless_they_collide() {
    let extensions = vec![
        option_extension("a.b", &[("one", Some("1"))]),
        option_extension("a.c", &[("one", Some("2"))]),
    ];
    let headers = extension_headers(&extensions, &vec!["a.b", "a.c"]).unwrap();
    let read = extension_settings(&headers, "a.b", &keys(&["one"]));
    assert_eq!(pairs(&read.settings), vec![("one", "1")]);
    let read = extension_settings(&headers, "a.c", &keys(&["one"]));
    assert_eq!(pairs(&read.settings), vec![("one", "2")]);

    let extensions = vec![
        option_extension("a", &[("b.one", Some("1"))]),
        option_extension("a.b", &[("one", Some("2"))]),
    ];
    let headers = extension_headers(&extensions, &vec!["a", "a.b"]).unwrap();
    let read = extension_settings(&headers, "a", &keys(&["b.one"]));
    assert_eq!(pairs(&read.settings), vec![("b.one", "2")]);
}

#[test]
fn capitals_in_a_prefix_do_not_arrive() {
    let extensions = vec![option_extension("Upper", &[("one", Some("1"))])];
    let headers = extension_headers(&extensions, &vec!["Upper"]).unwrap();
    let read = extension_settings(&headers, "Upper", &keys(&["one"]));
    assert!(read.settings.is_empty());
    assert!(read.failure.is_none());
}

#[test]
fn leading_copies_are_all_trimmed() {
    let mut headers = HeaderMap::new();
    headers.insert(
        HeaderName::from_static(
            "x-datafusion-distributed-config-x-datafusion-distributed-config-custom.custom.foo",
        ),
        HeaderValue::from_static("deep"),
    );
    headers.insert(HeaderName::from_static("custom.bar"), HeaderValue::from_static("bare"));
    headers.insert(HeaderName::from_static("customfoo"), HeaderValue::from_static("no"));
    let read = extension_settings(&headers, "custom", &keys(&["foo", "bar"]));
    assert_eq!(pairs(&read.settings), vec![("foo", "deep"), ("bar", "bare")]);
}

#[test]
fn a_value_that_is_no_text_ends_the_list() {
    let mut headers = HeaderMap::new();
    headers.insert(HeaderName::from_static("custom.a"), HeaderValue::from_static("1"));
    headers.insert(HeaderName::from_static("custom.unknown"), HeaderValue::from_bytes(b"\xff").unwrap());
    headers.insert(HeaderName::from_static("custom.b"), HeaderValue::from_bytes(b"\xff").unwrap());
    headers.insert(HeaderName::from_static("custom.c"), HeaderValue::from_static("3"));
    let read = extension_settings(&headers, "custom", &keys(&["a", "b", "c"]));
    assert_eq!(pairs(&read.settings), vec![("a", "1")]);
    assert_eq!(
        internal(read.failure.unwrap()),
        "Cannot parse header value: failed to convert header to a str"
    );
}

#[test]
fn repeated_headers_are_set_in_order() {
    let mut headers = HeaderMap::new();
    headers.append(HeaderName::from_static("custom.a"), HeaderValue::from_static("1"));
    headers.append(HeaderName::from_static("custom.b"), HeaderValue::from_static("2"));
    headers.append(HeaderName::from_static("custom.a"), HeaderValue::from_static("3"));
    let read = extension_settings(&headers, "custom", &keys(&["a", "b"]));
    assert_eq!(pairs(&read.settings), vec![("a", "1"), ("a", "3"), ("b", "2")]);
}
