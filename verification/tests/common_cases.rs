use query_signatures::aggregate::{collect, SignatureMap};
use query_signatures::config::{Config, Strategy};
use query_signatures::error::Error;
use query_signatures::locator::is_graphql;
use query_signatures::params::Params;
use query_signatures::signer::{hex_digest, SigningKey};
use query_signatures::structural::{collect_params, get_params_swc, Collector, PropValue, Property};
use query_signatures::textual::get_params;
use query_signatures::work::{compute_digest, sign_params, SignatureEntry};

const FOO: &str = "import { ConcreteRequest } from 'relay-runtime';\n\nconst node: ConcreteRequest = {\n  \"fragment\": {},\n  \"name\": \"Outside\",\n  \"params\": {\n    \"cacheID\": \"c1\",\n    \"id\": null,\n    \"metadata\": {},\n    \"name\": \"FooQuery\",\n    \"operationKind\": \"query\",\n    \"text\": \"query Foo{x}\"\n  }\n};\n\nexport default node;\n";

const FOO_DIGEST: &str = "7e52517e89d7e93c4dcebf0a80411462707638265676125a7d25b8a504d68f63";

fn prop(key: &str, value: PropValue) -> Property {
    Property { key: Some(key.to_string()), value }
}

fn text(value: &str) -> PropValue {
    PropValue::Text(value.to_string())
}

fn entry(name: &str, digest: &str) -> SignatureEntry {
    SignatureEntry { name: name.to_string(), digest: digest.to_string() }
}

fn foo_props() -> Vec<Property> {
    vec![
        prop("\"fragment\"", PropValue::Object),
        prop("\"name\"", text("Outside")),
        prop("\"params\"", PropValue::Object),
        prop("\"cacheID\"", text("c1")),
        prop("\"id\"", PropValue::Other),
        prop("\"metadata\"", PropValue::Object),
        prop("\"name\"", text("FooQuery")),
        prop("\"operationKind\"", text("query")),
        prop("\"text\"", text("query Foo{x}")),
    ]
}

fn bare(name: &str, text: &str) -> Params {
    Params {
        cache_id: None,
        id: None,
        name: name.to_string(),
        operation_kind: None,
        text: text.to_string(),
    }
}

// The file name filter.

#[test]
fn is_graphql_accepts_the_suffix() {
    assert!(is_graphql("Foo.graphql.ts"));
    assert!(is_graphql(".graphql.ts"));
    assert!(is_graphql("a.b.graphql.ts"));
}

#[test]
fn is_graphql_rejects_other_names() {
    assert!(!is_graphql("Foo.graphql.tsx"));
    assert!(!is_graphql("Foo.graphql.js"));
    assert!(!is_graphql("graphql.ts"));
    assert!(!is_graphql("Foo.GRAPHQL.TS"));
    assert!(!is_graphql("ts"));
    assert!(!is_graphql(""));
}

// The strategy selector and the arguments.

#[test]
fn strategy_from_selector() {
    assert_eq!(Strategy::from("swc".to_string()), Strategy::Swc);
    assert_eq!(Strategy::from("SWC".to_string()), Strategy::Swc);
    assert_eq!(Strategy::from("Swc".to_string()), Strategy::Swc);
    assert_eq!(Strategy::from("sWc".to_string()), Strategy::Manual);
    assert_eq!(Strategy::from("manual".to_string()), Strategy::Manual);
    assert_eq!(Strategy::from(String::new()), Strategy::Manual);
    assert_eq!(Strategy::select("swc"), Strategy::Swc);
    assert_eq!(Strategy::select("text"), Strategy::Manual);
}

fn args(list: &[&str]) -> Vec<String> {
    list.iter().map(|s| s.to_string()).collect()
}

#[test]
fn config_needs_a_directory() {
    assert_eq!(Config::from_args(&args(&["prog"]), None), Err(Error::MissingDirectory));
    assert_eq!(Config::from_args(&args(&[]), Some("k".to_string())), Err(Error::MissingDirectory));
}

#[test]
fn config_needs_a_signing_key() {
    assert_eq!(Config::from_args(&args(&["prog", "dir"]), None), Err(Error::MissingSigningKey));
}

#[test]
fn config_prefers_the_key_of_the_environment() {
    let config = Config::from_args(&args(&["prog", "dir", "arg"]), Some("env".to_string())).unwrap();
    assert_eq!(config.signing_key, "env");
    let config = Config::from_args(&args(&["prog", "dir", "arg"]), None).unwrap();
    assert_eq!(config.signing_key, "arg");
}

#[test]
fn config_defaults() {
    let config = Config::from_args(&args(&["prog", "dir"]), Some("env".to_string())).unwrap();
    assert_eq!(
        config,
        Config {
            dir: "dir".to_string(),
            signing_key: "env".to_string(),
            output_file: "signatures.json".to_string(),
            strategy: Strategy::Swc,
        }
    );
}

#[test]
fn config_reads_all_arguments() {
    let config = Config::from_args(&args(&["prog", "dir", "key", "out.json", "manual"]), None).unwrap();
    assert_eq!(
        config,
        Config {
            dir: "dir".to_string(),
            signing_key: "key".to_string(),
            output_file: "out.json".to_string(),
            strategy: Strategy::Manual,
        }
    );
    let config = Config::from_args(&args(&["prog", "dir", "key", "out.json", "SWC"]), None).unwrap();
    assert_eq!(config.strategy, Strategy::Swc);
}

// The structural extractor.

#[test]
fn collector_walks_through_its_states() {
    let mut c = Collector::new();
    assert_eq!(c, Collector::NotInParams);
    c.visit_key_value_prop(&prop("\"name\"", text("Outside")));
    assert_eq!(c, Collector::NotInParams);
    c.visit_key_value_prop(&prop("\"params\"", PropValue::Object));
    assert_eq!(c, Collector::InParams { name: None, text: None });
    assert!(!c.is_done());
    c.visit_key_value_prop(&prop("\"text\"", text("T")));
    assert_eq!(c, Collector::InParams { name: None, text: Some("T".to_string()) });
    c.visit_key_value_prop(&prop("\"text\"", text("later")));
    assert_eq!(c, Collector::InParams { name: None, text: Some("T".to_string()) });
    c.visit_key_value_prop(&prop("\"name\"", text("N")));
    assert_eq!(c, Collector::Done { name: "N".to_string(), text: "T".to_string() });
    assert!(c.is_done());
    c.visit_key_value_prop(&prop("\"name\"", text("other")));
    assert_eq!(c, Collector::Done { name: "N".to_string(), text: "T".to_string() });
    assert_eq!(c.finish(), Some(bare("N", "T")));
}

#[test]
fn collector_enters_only_at_an_object() {
    let mut c = Collector::new();
    c.visit_key_value_prop(&prop("\"params\"", text("x")));
    assert_eq!(c, Collector::NotInParams);
    c.visit_key_value_prop(&prop("\"params\"", PropValue::Other));
    assert_eq!(c, Collector::NotInParams);
    c.visit_key_value_prop(&prop("'params'", PropValue::Object));
    assert_eq!(c, Collector::NotInParams);
    c.visit_key_value_prop(&Property { key: None, value: PropValue::Object });
    assert_eq!(c, Collector::NotInParams);
    assert_eq!(c.finish(), None);
}

#[test]
fn collector_records_only_string_literals() {
    let mut c = Collector::new();
    c.visit_key_value_prop(&prop("\"params\"", PropValue::Object));
    c.visit_key_value_prop(&prop("\"name\"", PropValue::Other));
    c.visit_key_value_prop(&prop("\"text\"", PropValue::Object));
    c.visit_key_value_prop(&prop("name", text("N")));
    assert_eq!(c, Collector::InParams { name: None, text: None });
    assert_eq!(c.finish(), None);
}

#[test]
fn collect_params_finds_name_and_text() {
    assert_eq!(collect_params(&foo_props()), Some(bare("FooQuery", "query Foo{x}")));
}

#[test]
fn collect_params_without_params_is_no_descriptor() {
    let props = vec![prop("\"name\"", text("N")), prop("\"text\"", text("T"))];
    assert_eq!(collect_params(&props), None);
    assert_eq!(collect_params(&Vec::new()), None);
}

#[test]
fn collect_params_with_one_field_is_no_descriptor() {
    let props = vec![
        prop("\"params\"", PropValue::Object),
        prop("\"name\"", text("N")),
        prop("\"name\"", text("M")),
    ];
    assert_eq!(collect_params(&props), None);
}

#[test]
fn collect_params_takes_the_first_of_each() {
    let props = vec![
        prop("\"params\"", PropValue::Object),
        prop("\"name\"", text("N")),
        prop("\"name\"", text("M")),
        prop("\"text\"", text("T")),
        prop("\"text\"", text("U")),
    ];
    assert_eq!(collect_params(&props), Some(bare("N", "T")));
}

#[test]
fn collect_params_accepts_an_empty_name() {
    let props = vec![
        prop("\"params\"", PropValue::Object),
        prop("\"name\"", text("")),
        prop("\"text\"", text("")),
    ];
    assert_eq!(collect_params(&props), Some(bare("", "")));
}

// The signer.

#[test]
fn digest_of_a_known_text() {
    let key = SigningKey::new("secret").ok().unwrap();
    assert_eq!(hex_digest(&key, "query Foo{x}"), FOO_DIGEST);
    assert_eq!(
        hex_digest(&key, ""),
        "f9e66e179b6747ae54108f82f8ade8b3c25d76fd30afde6c395822c530196169"
    );
    assert_eq!(
        hex_digest(&key, "query Caf\u{e9}{x}"),
        "a26cc24af11eda52edbacfb79f2e993c3b118127416922d2c7c2ede6eec086a7"
    );
}

#[test]
fn tag_of_a_known_text() {
    let key = SigningKey::new("secret").ok().unwrap();
    let tag = key.sign("query Foo{x}");
    assert_eq!(tag.len(), 32);
    assert_eq!(&tag[..4], &[0x7e, 0x52, 0x51, 0x7e]);
    assert_eq!(tag[31], 0x63);
}

#[test]
fn digest_is_deterministic() {
    let a = SigningKey::new("secret").ok().unwrap();
    let b = SigningKey::new("secret").ok().unwrap();
    assert_eq!(hex_digest(&a, "query Foo{x}"), hex_digest(&a, "query Foo{x}"));
    assert_eq!(hex_digest(&a, "query Foo{x}"), hex_digest(&b, "query Foo{x}"));
}

#[test]
fn digest_changes_with_the_key() {
    let secret = SigningKey::new("secret").ok().unwrap();
    let other = SigningKey::new("other").ok().unwrap();
    let empty = SigningKey::new("").ok().unwrap();
    assert_eq!(
        hex_digest(&other, "query Foo{x}"),
        "1ac7cd7af345f2891e70cb7dbb2d08e7729ce0c8614f21ad343c89499fd38ac6"
    );
    assert_eq!(
        hex_digest(&empty, "query Foo{x}"),
        "e86c315c433c2049bc17a5ee1d0c3f8e5540c747c750fba549c5b25b60c6485f"
    );
    assert_ne!(hex_digest(&secret, "query Foo{x}"), hex_digest(&other, "query Foo{x}"));
}

#[test]
fn digest_is_lowercase_hexadecimal() {
    let key = SigningKey::new("secret").ok().unwrap();
    let digest = hex_digest(&key, "query Bar{y}");
    assert_eq!(digest.len(), 64);
    assert!(digest.chars().all(|c| c.is_ascii_digit() || ('a'..='f').contains(&c)));
    assert_eq!(digest, "804dd5cd2ee5e410f534a459f17e582d20c8a7f2ae67d8e9ced694c9870b677d");
}

// One unit of work.

#[test]
fn sign_params_passes_failures_and_absence_on() {
    let key = SigningKey::new("secret").ok().unwrap();
    assert_eq!(sign_params(Ok(None), &key), Ok(None));
    assert_eq!(sign_params(Err(Error::ParamSerialization), &key), Err(Error::ParamSerialization));
    assert_eq!(sign_params(Err(Error::Syntax), &key), Err(Error::Syntax));
}

#[test]
fn sign_params_signs_the_text() {
    let key = SigningKey::new("secret").ok().unwrap();
    assert_eq!(
        sign_params(Ok(Some(bare("FooQuery", "query Foo{x}"))), &key),
        Ok(Some(entry("FooQuery", FOO_DIGEST)))
    );
}

#[test]
fn compute_digest_by_either_strategy() {
    let key = SigningKey::new("secret").ok().unwrap();
    let expected = Ok(Some(entry("FooQuery", FOO_DIGEST)));
    assert_eq!(compute_digest(FOO, &key, Strategy::Manual), expected);
    assert_eq!(compute_digest(FOO, &key, Strategy::Swc), expected);
}

#[test]
fn compute_digest_without_descriptor() {
    let key = SigningKey::new("secret").ok().unwrap();
    assert_eq!(compute_digest("let x = 1;\n", &key, Strategy::Manual), Ok(None));
    assert_eq!(compute_digest("let x = 1;\n", &key, Strategy::Swc), Ok(None));
    assert_eq!(compute_digest("ConcreteRequest", &key, Strategy::Manual), Ok(None));
    assert_eq!(compute_digest("ConcreteRequest", &key, Strategy::Swc), Ok(None));
}

#[test]
fn compute_digest_passes_failures_on() {
    let key = SigningKey::new("secret").ok().unwrap();
    assert_eq!(
        compute_digest("ConcreteRequest\n\"params\": {\n}\n", &key, Strategy::Manual),
        Err(Error::ParamSerialization)
    );
    assert_eq!(compute_digest("const a = {;\n", &key, Strategy::Swc), Err(Error::Syntax));
    assert_eq!(compute_digest("const a = {;\n", &key, Strategy::Manual), Ok(None));
}

#[test]
fn both_extractors_agree_on_a_well_formed_descriptor() {
    let textual = get_params(FOO).unwrap().unwrap();
    let structural = get_params_swc(FOO).unwrap().unwrap();
    let collected = collect_params(&foo_props()).unwrap();
    assert_eq!(structural, collected);
    assert_eq!((textual.name.as_str(), textual.text.as_str()), ("FooQuery", "query Foo{x}"));
    assert_eq!((textual.name, textual.text), (structural.name, structural.text));
}

#[test]
fn neither_extractor_finds_a_descriptor_in_a_plain_file() {
    let props = vec![prop("\"a\"", text("b")), prop("\"name\"", text("N"))];
    let contents = "export const a = { \"a\": \"b\", \"name\": \"N\" };\n";
    assert_eq!(get_params(contents), Ok(None));
    assert_eq!(get_params_swc(contents), Ok(None));
    assert_eq!(collect_params(&props), None);
}

// The signature map.

#[test]
fn map_keeps_its_entries_in_the_order_of_their_names() {
    let mut map = SignatureMap::new();
    for name in ["delta", "alpha", "Zulu", "charlie", "bravo", "alphabet", ""] {
        map.insert(entry(name, "d"));
    }
    let names: Vec<&str> = map.entries().iter().map(|e| e.name.as_str()).collect();
    assert_eq!(names, vec!["", "Zulu", "alpha", "alphabet", "bravo", "charlie", "delta"]);
    assert_eq!(map.len(), 7);
}

#[test]
fn map_orders_names_as_strings_are_ordered() {
    let mut names = vec!["\u{e9}", "z", "e", "\u{1f600}", "\u{ffff}", "Z", "~", "\u{7f}", "ab", "a"];
    let mut map = SignatureMap::new();
    for name in names.iter() {
        map.insert(entry(name, "d"));
    }
    names.sort();
    let listed: Vec<&str> = map.entries().iter().map(|e| e.name.as_str()).collect();
    assert_eq!(listed, names);
}

#[test]
fn map_holds_one_entry_for_a_name() {
    let mut map = SignatureMap::new();
    map.insert(entry("FooQuery", "first"));
    map.insert(entry("BarQuery", "bar"));
    map.insert(entry("FooQuery", "second"));
    assert_eq!(map.len(), 2);
    assert_eq!(map.entries().iter().filter(|e| e.name == "FooQuery").count(), 1);
    assert_eq!(map.get("FooQuery"), Some(&"second".to_string()));
    assert_eq!(map.get("BarQuery"), Some(&"bar".to_string()));
    assert_eq!(map.get("Foo"), None);
}

#[test]
fn map_is_empty_at_first() {
    let map = SignatureMap::new();
    assert_eq!(map.len(), 0);
    assert!(map.entries().is_empty());
    assert_eq!(map.get("a"), None);
    assert_eq!(map.to_json(), Ok("{}".to_string()));
}

#[test]
fn map_is_written_with_tabs_and_sorted_keys() {
    let mut map = SignatureMap::new();
    map.insert(entry("b", "2"));
    map.insert(entry("a", "1"));
    assert_eq!(map.to_json(), Ok("{\n\t\"a\": \"1\",\n\t\"b\": \"2\"\n}".to_string()));
}

#[test]
fn map_escapes_what_json_asks_for() {
    let mut map = SignatureMap::new();
    map.insert(entry("a\"b\\c\n", "1"));
    assert_eq!(map.to_json(), Ok("{\n\t\"a\\\"b\\\\c\\n\": \"1\"\n}".to_string()));
}

#[test]
fn collect_gathers_every_entry() {
    let results = vec![Ok(Some(entry("b", "2"))), Ok(None), Ok(Some(entry("a", "1")))];
    let map = collect(results).ok().unwrap();
    assert_eq!(map.entries(), &vec![entry("a", "1"), entry("b", "2")]);
}

#[test]
fn collect_does_not_depend_on_the_order() {
    let one = vec![Ok(Some(entry("b", "2"))), Ok(None), Ok(Some(entry("a", "1"))), Ok(Some(entry("c", "3")))];
    let other = vec![Ok(Some(entry("c", "3"))), Ok(Some(entry("a", "1"))), Ok(Some(entry("b", "2"))), Ok(None)];
    let one = collect(one).ok().unwrap();
    let other = collect(other).ok().unwrap();
    assert_eq!(one.entries(), other.entries());
    assert_eq!(one.to_json(), other.to_json());
}

#[test]
fn collect_keeps_the_later_of_two_entries_for_a_name() {
    let results = vec![Ok(Some(entry("a", "1"))), Ok(Some(entry("a", "2")))];
    let map = collect(results).ok().unwrap();
    assert_eq!(map.entries(), &vec![entry("a", "2")]);
    let results = vec![Ok(Some(entry("a", "2"))), Ok(Some(entry("a", "1")))];
    let map = collect(results).ok().unwrap();
    assert_eq!(map.entries(), &vec![entry("a", "1")]);
}

#[test]
fn collect_gives_up_at_the_first_failure() {
    let results = vec![
        Ok(Some(entry("a", "1"))),
        Err(Error::ParamSerialization),
        Ok(Some(entry("b", "2"))),
        Err(Error::IoError),
    ];
    assert_eq!(collect(results).err(), Some(Error::ParamSerialization));
    assert!(collect(Vec::new()).ok().unwrap().entries().is_empty());
}

#[test]
fn one_file_end_to_end() {
    let contents = "import { ConcreteRequest } from 'relay-runtime';\nconst node: ConcreteRequest = {\n  \"params\": {\n    \"name\": \"FooQuery\",\n    \"text\": \"query Foo{x}\",\n    \"id\": null,\n    \"metadata\": {},\n    \"cacheID\": \"c1\",\n    \"operationKind\": \"query\"\n  }\n};\nexport default node;\n";
    assert!(is_graphql("Foo.graphql.ts"));
    let key = SigningKey::new("secret").ok().unwrap();
    for strategy in [Strategy::Swc, Strategy::Manual] {
        let result = compute_digest(contents, &key, strategy);
        let map = collect(vec![result]).ok().unwrap();
        assert_eq!(map.len(), 1);
        assert_eq!(map.get("FooQuery"), Some(&FOO_DIGEST.to_string()));
    }
    let result = compute_digest(contents, &key, Strategy::Swc);
    let map = collect(vec![result]).ok().unwrap();
    assert_eq!(
        map.to_json(),
        Ok(format!("{{\n\t\"FooQuery\": \"{}\"\n}}", FOO_DIGEST))
    );
}
