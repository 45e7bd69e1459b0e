use metrics_catalogue::ast::{AttrItem, Attributes, Field, StructAttributes, Struct, TypePath};
use metrics_catalogue::metric_tree::MetricTree;
use metrics_catalogue::registry::{Catalogue, CellPath};
use metrics_catalogue::scoped_catalogue::ScopedCatalogue;

fn type_path(ty: &str) -> TypePath {
    match ty.find('<') {
        Some(i) => TypePath {
            path: ty[..i].trim().to_string(),
            args: Some(ty[i..].to_string()),
        },
        None => TypePath { path: ty.to_string(), args: None },
    }
}

fn field(name: &str, ty: &str) -> Field {
    Field {
        ident: name.to_string(),
        ty: type_path(ty),
        attributes: Attributes::Struct(StructAttributes { hidden: false, name_override: None }),
    }
}

fn skipped(name: &str, ty: &str) -> Field {
    Field {
        ident: name.to_string(),
        ty: type_path(ty),
        attributes: Attributes::Struct(StructAttributes { hidden: true, name_override: None }),
    }
}

fn renamed(name: &str, ty: &str, published: &str) -> Field {
    Field {
        ident: name.to_string(),
        ty: type_path(ty),
        attributes: Attributes::Struct(StructAttributes {
            hidden: false,
            name_override: Some(published.to_string()),
        }),
    }
}

fn decl(name: &str, items: Vec<AttrItem>, fields: Vec<Field>) -> Struct {
    let attributes = match Attributes::from_items(&items) {
        Ok(a) => a,
        Err(_) => panic!("attributes of {} refused", name),
    };
    Struct { ident: name.to_string(), fields, attributes }
}

fn root_items() -> Vec<AttrItem> {
    vec![AttrItem::Word("root".to_string())]
}

fn unprefixed_root_items() -> Vec<AttrItem> {
    vec![AttrItem::Word("root".to_string()), AttrItem::Text(String::new())]
}

fn build(decls: Vec<Struct>) -> Catalogue {
    let mut tree = MetricTree::new();
    for d in decls {
        assert!(tree.parse_struct(d).is_ok());
    }
    assert!(tree.is_complete());
    match tree.generate() {
        Ok(c) => c,
        Err(_) => panic!("generation refused"),
    }
}

fn key(ns: &ScopedCatalogue, module: &[&str], name: &str) -> String {
    let module: Vec<String> = module.iter().map(|m| m.to_string()).collect();
    ns.get(&module, name).expect("no such constant")
}

fn locate(c: &Catalogue, fields: &[&str], instance: &str) -> CellPath {
    let fields: Vec<String> = fields.iter().map(|m| m.to_string()).collect();
    c.locate(&fields, instance).expect("no such field")
}

/// The declarations of the catalogue of the library's own unit tests.
fn unit_decls() -> Vec<Struct> {
    vec![
        decl(
            "Test",
            unprefixed_root_items(),
            vec![
                field("my_b", "Counter"),
                field("my_g", "Gauge"),
                renamed("my_a", "Counter", "my_counter_a"),
                skipped("my_non_g", "Counter"),
                skipped("my_hidden_sub", "SubTest"),
                field("my_test", "SubTest"),
            ],
        ),
        decl(
            "SubTest",
            vec![],
            vec![
                field("my_t_a", "Gauge"),
                field("my_t_b", "Counter"),
                field("my_sub_sub", "SubSubTest"),
            ],
        ),
        decl(
            "SubSubTest",
            vec![],
            vec![field("my_s_t_a", "Gauge"), field("my_s_t_b", "Counter")],
        ),
    ]
}

/// The declarations of the integration tests without histograms.
fn integration_decls() -> Vec<Struct> {
    vec![
        decl(
            "Test",
            unprefixed_root_items(),
            vec![
                field("my_b", "Counter"),
                field("my_g", "Gauge"),
                field("my_discrete_g", "DiscreteGauge"),
                renamed("my_a", "Counter", "my_counter_a"),
                skipped("_my_non_g", "Counter"),
                skipped("_my_hidden_sub", "SubTest"),
                field("my_test", "SubTest"),
                field("my_second_test", "SubTest"),
            ],
        ),
        decl(
            "SubTest",
            vec![],
            vec![
                field("my_t_a", "Gauge"),
                field("my_t_b", "Counter"),
                field("my_sub_sub", "SubSubTest"),
            ],
        ),
        decl(
            "SubSubTest",
            vec![],
            vec![field("my_s_t_a", "Gauge"), field("my_s_t_b", "Counter")],
        ),
    ]
}

/// The declarations of the metrics tests, with histograms and full paths.
fn metrics_decls() -> Vec<Struct> {
    vec![
        decl(
            "Test",
            root_items(),
            vec![
                field("my_b", "Counter"),
                field("my_g", "Gauge"),
                field("my_h_60", "Histogram < 60 >"),
                field("my_discrete_g", "DiscreteGauge"),
                renamed("my_a", "Counter", "my_counter_a"),
                skipped("_my_non_g", "Counter"),
                skipped("_my_hidden_sub", "SubTest"),
                field("my_test", "SubTest"),
                field("my_second_test", "SubTest"),
                field("my_full_counter", "metrics_catalogue::Counter"),
                field("my_h_30", "metrics_catalogue::Histogram < 30 >"),
            ],
        ),
        decl(
            "SubTest",
            vec![],
            vec![
                field("my_t_a", "Gauge"),
                field("my_t_b", "Counter"),
                field("my_t_h", "Histogram < 5 >"),
                field("my_sub_sub", "SubSubTest"),
            ],
        ),
        decl(
            "SubSubTest",
            vec![],
            vec![field("my_s_t_a", "Gauge"), field("my_s_t_b", "Counter")],
        ),
    ]
}

#[test]
fn lib_key_generation() {
    let ns = build(unit_decls()).namespace();
    let known_names = [
        (key(&ns, &[], "MY_B"), "my_b"),
        (key(&ns, &[], "MY_G"), "my_g"),
        (key(&ns, &[], "MY_COUNTER_A"), "my_counter_a"),
        (key(&ns, &["my_test"], "MY_T_A"), "my_test.my_t_a"),
        (key(&ns, &["my_test"], "MY_T_B"), "my_test.my_t_b"),
        (key(&ns, &["my_test", "my_sub_sub"], "MY_S_T_A"), "my_test.my_sub_sub.my_s_t_a"),
        (key(&ns, &["my_test", "my_sub_sub"], "MY_S_T_B"), "my_test.my_sub_sub.my_s_t_b"),
    ];
    known_names.iter().for_each(|(k, v)| assert_eq!(k, v));
}

#[test]
fn lib_counters() {
    let mut t = build(unit_decls());
    let ns = t.namespace();
    let registered_counters = [
        (key(&ns, &[], "MY_B"), locate(&t, &[], "my_b")),
        (key(&ns, &[], "MY_COUNTER_A"), locate(&t, &[], "my_a")),
        (key(&ns, &["my_test"], "MY_T_B"), locate(&t, &["my_test"], "my_t_b")),
        (
            key(&ns, &["my_test", "my_sub_sub"], "MY_S_T_B"),
            locate(&t, &["my_test", "my_sub_sub"], "my_s_t_b"),
        ),
    ];
    for (key, field) in registered_counters {
        let pre = t.read(&field).unwrap();
        t.increment_counter(&key, 1);
        assert_eq!(t.read(&field).unwrap(), pre + 1, "key {} did not update the counter", key);
    }
}

#[test]
fn lib_hidden_counters() {
    let mut t = build(unit_decls());
    let hidden_counters = [
        ("my_non_g", locate(&t, &[], "my_non_g")),
        ("my_hidden_sub.my_b", locate(&t, &["my_hidden_sub"], "my_t_b")),
        (
            "my_hidden_sub.my_sub_sub.my_s_t_b",
            locate(&t, &["my_hidden_sub", "my_sub_sub"], "my_s_t_b"),
        ),
    ];
    for (key, field) in hidden_counters {
        let pre = t.read(&field).unwrap();
        t.increment_counter(key, 1);
        assert_eq!(t.read(&field).unwrap(), pre, "key {} updated the counter", key);
    }
}

#[test]
fn integration_tests_key_generation() {
    let ns = build(integration_decls()).namespace();
    let known_names = [
        (key(&ns, &[], "MY_B"), "my_b"),
        (key(&ns, &[], "MY_G"), "my_g"),
        (key(&ns, &[], "MY_COUNTER_A"), "my_counter_a"),
        (key(&ns, &["my_test"], "MY_T_A"), "my_test.my_t_a"),
        (key(&ns, &["my_test"], "MY_T_B"), "my_test.my_t_b"),
        (key(&ns, &["my_test", "my_sub_sub"], "MY_S_T_A"), "my_test.my_sub_sub.my_s_t_a"),
        (key(&ns, &["my_test", "my_sub_sub"], "MY_S_T_B"), "my_test.my_sub_sub.my_s_t_b"),
        (key(&ns, &["my_second_test"], "MY_T_A"), "my_second_test.my_t_a"),
        (key(&ns, &["my_second_test"], "MY_T_B"), "my_second_test.my_t_b"),
        (
            key(&ns, &["my_second_test", "my_sub_sub"], "MY_S_T_A"),
            "my_second_test.my_sub_sub.my_s_t_a",
        ),
        (
            key(&ns, &["my_second_test", "my_sub_sub"], "MY_S_T_B"),
            "my_second_test.my_sub_sub.my_s_t_b",
        ),
    ];
    known_names.iter().for_each(|(k, v)| assert_eq!(k, v));
}

#[test]
fn integration_tests_counters() {
    let mut t = build(integration_decls());
    let ns = t.namespace();
    let registered_counters = [
        (key(&ns, &[], "MY_B"), locate(&t, &[], "my_b")),
        (key(&ns, &[], "MY_COUNTER_A"), locate(&t, &[], "my_a")),
        (key(&ns, &["my_test"], "MY_T_B"), locate(&t, &["my_test"], "my_t_b")),
        (
            key(&ns, &["my_test", "my_sub_sub"], "MY_S_T_B"),
            locate(&t, &["my_test", "my_sub_sub"], "my_s_t_b"),
        ),
        (key(&ns, &["my_second_test"], "MY_T_B"), locate(&t, &["my_second_test"], "my_t_b")),
        (
            key(&ns, &["my_second_test", "my_sub_sub"], "MY_S_T_B"),
            locate(&t, &["my_second_test", "my_sub_sub"], "my_s_t_b"),
        ),
    ];
    for (key, field) in registered_counters {
        let pre = t.read(&field).unwrap();
        t.increment_counter(&key, 1);
        assert_eq!(t.read(&field).unwrap(), pre + 1, "key {} did not update the counter", key);
    }
}

#[test]
fn integration_tests_hidden_counters() {
    let mut t = build(integration_decls());
    let hidden_counters = [
        ("my_non_g", locate(&t, &[], "_my_non_g")),
        ("my_hidden_sub.my_b", locate(&t, &["_my_hidden_sub"], "my_t_b")),
        (
            "my_hidden_sub.my_sub_sub.my_s_t_b",
            locate(&t, &["_my_hidden_sub", "my_sub_sub"], "my_s_t_b"),
        ),
    ];
    for (key, field) in hidden_counters {
        let pre = t.read(&field).unwrap();
        t.increment_counter(key, 1);
        assert_eq!(t.read(&field).unwrap(), pre, "key {} updated the counter", key);
    }
}

#[test]
fn metrics_key_generation() {
    let ns = build(metrics_decls()).namespace();
    let known_names = [
        (key(&ns, &[], "MY_B"), "test.my_b"),
        (key(&ns, &[], "MY_G"), "test.my_g"),
        (key(&ns, &[], "MY_H_60"), "test.my_h_60"),
        (key(&ns, &[], "MY_COUNTER_A"), "test.my_counter_a"),
        (key(&ns, &["my_test"], "MY_T_A"), "test.my_test.my_t_a"),
        (key(&ns, &["my_test"], "MY_T_B"), "test.my_test.my_t_b"),
        (key(&ns, &["my_test"], "MY_T_H"), "test.my_test.my_t_h"),
        (key(&ns, &["my_test", "my_sub_sub"], "MY_S_T_A"), "test.my_test.my_sub_sub.my_s_t_a"),
        (key(&ns, &["my_test", "my_sub_sub"], "MY_S_T_B"), "test.my_test.my_sub_sub.my_s_t_b"),
        (key(&ns, &["my_second_test"], "MY_T_A"), "test.my_second_test.my_t_a"),
        (key(&ns, &["my_second_test"], "MY_T_B"), "test.my_second_test.my_t_b"),
        (key(&ns, &["my_second_test"], "MY_T_H"), "test.my_second_test.my_t_h"),
        (
            key(&ns, &["my_second_test", "my_sub_sub"], "MY_S_T_A"),
            "test.my_second_test.my_sub_sub.my_s_t_a",
        ),
        (
            key(&ns, &["my_second_test", "my_sub_sub"], "MY_S_T_B"),
            "test.my_second_test.my_sub_sub.my_s_t_b",
        ),
        (key(&ns, &[], "MY_FULL_COUNTER"), "test.my_full_counter"),
        (key(&ns, &[], "MY_H_30"), "test.my_h_30"),
    ];
    known_names.iter().for_each(|(k, v)| assert_eq!(k, v));
}

#[test]
fn metrics_counters() {
    let mut t = build(metrics_decls());
    let ns = t.namespace();
    let registered_counters = [
        (key(&ns, &[], "MY_B"), locate(&t, &[], "my_b")),
        (key(&ns, &[], "MY_COUNTER_A"), locate(&t, &[], "my_a")),
        (key(&ns, &["my_test"], "MY_T_B"), locate(&t, &["my_test"], "my_t_b")),
        (
            key(&ns, &["my_test", "my_sub_sub"], "MY_S_T_B"),
            locate(&t, &["my_test", "my_sub_sub"], "my_s_t_b"),
        ),
        (key(&ns, &["my_second_test"], "MY_T_B"), locate(&t, &["my_second_test"], "my_t_b")),
        (
            key(&ns, &["my_second_test", "my_sub_sub"], "MY_S_T_B"),
            locate(&t, &["my_second_test", "my_sub_sub"], "my_s_t_b"),
        ),
    ];
    for (key, field) in registered_counters {
        let pre = t.read(&field).unwrap();
        t.increment_counter(&key, 1);
        assert_eq!(t.read(&field).unwrap(), pre + 1, "key {} did not update the counter", key);
    }
}

#[test]
fn metrics_hidden_counters() {
    let mut t = build(metrics_decls());
    let hidden_counters = [
        ("test.my_non_g", locate(&t, &[], "_my_non_g")),
        ("test.my_hidden_sub.my_b", locate(&t, &["_my_hidden_sub"], "my_t_b")),
        (
            "test.my_hidden_sub.my_sub_sub.my_s_t_b",
            locate(&t, &["_my_hidden_sub", "my_sub_sub"], "my_s_t_b"),
        ),
    ];
    for (key, field) in hidden_counters {
        let pre = t.read(&field).unwrap();
        t.increment_counter(key, 1);
        assert_eq!(t.read(&field).unwrap(), pre, "key {} updated the counter", key);
    }
}

#[test]
fn histograms() {
    let now: u64 = 1_700_000_000;
    let mut t = build(metrics_decls());
    let ns = t.namespace();
    let registered_histograms = [
        (key(&ns, &[], "MY_H_60"), locate(&t, &[], "my_h_60")),
        (key(&ns, &[], "MY_H_30"), locate(&t, &[], "my_h_30")),
        (key(&ns, &["my_test"], "MY_T_H"), locate(&t, &["my_test"], "my_t_h")),
        (key(&ns, &["my_second_test"], "MY_T_H"), locate(&t, &["my_second_test"], "my_t_h")),
    ];
    for (key, field) in registered_histograms {
        assert!(
            t.histogram_samples(&field, now).unwrap().is_empty(),
            "Histogram was not empty initially"
        );
        t.record_histogram(&key, 1.0f64.to_bits(), now);
        let samples: Vec<f64> = t
            .histogram_samples(&field, now)
            .unwrap()
            .into_iter()
            .map(f64::from_bits)
            .collect();
        assert_eq!(samples, vec![1.0f64], "key {} did not update the histogram", key);
    }
}

#[test]
fn empty_override() {
    let mut t = build(vec![
        decl(
            "EmptyRoot",
            vec![AttrItem::Word("root".to_string()), AttrItem::Text(String::new())],
            vec![field("bar", "Bar")],
        ),
        decl("Bar", vec![], vec![field("counter", "Counter")]),
    ]);
    let ns = t.namespace();
    assert_eq!(ns.mod_name, "empty_root");
    assert_eq!(key(&ns, &["bar"], "COUNTER"), "bar.counter");

    let registered_counters = [(key(&ns, &["bar"], "COUNTER"), locate(&t, &["bar"], "counter"))];
    for (key, field) in registered_counters {
        let pre = t.read(&field).unwrap();
        t.increment_counter(&key, 1);
        assert_eq!(t.read(&field).unwrap(), pre + 1, "key {} did not update the counter", key);
    }
}

#[test]
fn root_override() {
    let mut t = build(vec![
        decl(
            "CustomRoot",
            vec![AttrItem::Word("root".to_string()), AttrItem::Text("my_test".to_string())],
            vec![field("bar", "Bar")],
        ),
        decl("Bar", vec![], vec![field("counter", "Counter")]),
    ]);
    let ns = t.namespace();
    assert_eq!(ns.mod_name, "my_test");
    assert_eq!(key(&ns, &["bar"], "COUNTER"), "my_test.bar.counter");
    let registered_counters = [(key(&ns, &["bar"], "COUNTER"), locate(&t, &["bar"], "counter"))];
    for (key, field) in registered_counters {
        let pre = t.read(&field).unwrap();
        t.increment_counter(&key, 1);
        assert_eq!(t.read(&field).unwrap(), pre + 1, "key {} did not update the counter", key);
    }
}

#[test]
fn custom_separator() {
    let t = build(vec![
        decl(
            "CustomSeparatorFoo",
            vec![
                AttrItem::Word("root".to_string()),
                AttrItem::Assign("separator".to_string(), Some("-".to_string())),
            ],
            vec![field("bar", "CustomSeparatorBar")],
        ),
        decl("CustomSeparatorBar", vec![], vec![field("counter", "Counter")]),
    ]);
    let ns = t.namespace();
    assert_eq!(ns.mod_name, "custom_separator_foo");
    assert_eq!(key(&ns, &["bar"], "COUNTER"), "custom_separator_foo-bar-counter");
}
