use metrics_catalogue::ast::{
    AttrItem, Attributes, Field, RootAttributes, SchemaError, Struct, StructAttributes, TypePath,
};
use metrics_catalogue::metric_scope::{classify_field, MetricType, ScopeField};
use metrics_catalogue::metric_tree::MetricTree;
use metrics_catalogue::metrics::{Counter, DiscreteGauge, Gauge, Histogram};
use metrics_catalogue::prometheus::{
    render_counter, render_discrete_gauge, write_decimal, write_metric_line, write_type_line, Label,
};
use metrics_catalogue::registry::{Catalogue, CellOp, CellPath, MetricFamily};
use metrics_catalogue::text::{parse_retention, path_last_segment, snake_case, to_ascii_upper};

fn type_path(ty: &str) -> TypePath {
    match ty.find('<') {
        Some(i) => TypePath { path: ty[..i].trim().to_string(), args: Some(ty[i..].to_string()) },
        None => TypePath { path: ty.to_string(), args: None },
    }
}

fn field(name: &str, ty: &str) -> Field {
    Field {
        ident: name.to_string(),
        ty: type_path(ty),
        attributes: Attributes::Struct(StructAttributes { hidden: false, name_override: None }),
    }
}

fn skipped(name: &str, ty: &str) -> Field {
    Field {
        ident: name.to_string(),
        ty: type_path(ty),
        attributes: Attributes::Struct(StructAttributes { hidden: true, name_override: None }),
    }
}

fn plain(name: &str, fields: Vec<Field>) -> Struct {
    Struct {
        ident: name.to_string(),
        fields,
        attributes: Attributes::Struct(StructAttributes { hidden: false, name_override: None }),
    }
}

fn root(name: &str, separator: Option<&str>, fields: Vec<Field>) -> Struct {
    Struct {
        ident: name.to_string(),
        fields,
        attributes: Attributes::Root(RootAttributes {
            separator: separator.map(|s| s.to_string()),
            name_override: None,
        }),
    }
}

fn build(decls: Vec<Struct>) -> Catalogue {
    let mut tree = MetricTree::new();
    for d in decls {
        tree.parse_struct(d).unwrap();
    }
    assert!(tree.is_complete());
    tree.generate().unwrap()
}

fn locate(c: &Catalogue, fields: &[&str], instance: &str) -> CellPath {
    let fields: Vec<String> = fields.iter().map(|m| m.to_string()).collect();
    c.locate(&fields, instance).expect("no such field")
}

fn same_place(a: &CellPath, b: &CellPath) -> bool {
    a.subs == b.subs && a.metric == b.metric
}

fn example() -> Catalogue {
    build(vec![
        root("Test", None, vec![field("my_b", "Counter"), field("my_test", "SubTest")]),
        plain("SubTest", vec![field("my_t_a", "Gauge")]),
    ])
}

#[test]
fn example_scenario_keys_and_increment() {
    let mut t = example();
    let ns = t.namespace();
    let values: Vec<String> = ns.keys.iter().map(|k| k.value.clone()).collect();
    assert_eq!(values, vec!["test.my_b".to_string(), "test.my_test.my_t_a".to_string()]);
    t.increment_counter("test.my_b", 1);
    let p = locate(&t, &[], "my_b");
    assert_eq!(t.read(&p), Some(1));
}

#[test]
fn every_constant_resolves_to_its_metric() {
    let t = build(vec![
        root(
            "Test",
            None,
            vec![
                field("a", "Counter"),
                field("g", "Gauge"),
                field("d", "DiscreteGauge"),
                field("h", "Histogram<10>"),
                field("s", "Sub"),
            ],
        ),
        plain("Sub", vec![field("a", "Counter"), field("h", "Histogram<3>")]),
    ]);
    let ns = t.namespace();
    assert_eq!(ns.keys.len(), 6);
    let cases = [
        ("test.a", MetricFamily::Counters, locate(&t, &[], "a")),
        ("test.g", MetricFamily::Gauges, locate(&t, &[], "g")),
        ("test.d", MetricFamily::Gauges, locate(&t, &[], "d")),
        ("test.h", MetricFamily::Histograms, locate(&t, &[], "h")),
        ("test.s.a", MetricFamily::Counters, locate(&t, &["s"], "a")),
        ("test.s.h", MetricFamily::Histograms, locate(&t, &["s"], "h")),
    ];
    for (key, family, place) in cases {
        assert!(ns.keys.iter().any(|k| k.value == key), "no constant {}", key);
        let found = t.find(key, family).expect("key not found");
        assert!(same_place(&found, &place), "key {} found elsewhere", key);
    }
    assert!(t.find_counter("test.g").is_none());
    assert!(t.find_gauge("test.a").is_none());
    assert!(t.find_histogram("test.s.a").is_none());
    assert!(t.find_counter("other.a").is_none());
    assert!(t.find_counter("test.s").is_none());
}

#[test]
fn hidden_metrics_have_no_constant_and_stay_unchanged() {
    let mut t = build(vec![
        root(
            "Test",
            None,
            vec![field("shown", "Counter"), skipped("secret", "Counter"), skipped("inner", "Sub")],
        ),
        plain("Sub", vec![field("c", "Counter")]),
    ]);
    let ns = t.namespace();
    let values: Vec<String> = ns.keys.iter().map(|k| k.value.clone()).collect();
    assert_eq!(values, vec!["test.shown".to_string()]);
    assert!(t.find_counter("test.secret").is_none());
    assert!(t.find_counter("test.inner.c").is_none());
    let secret = locate(&t, &[], "secret");
    let inner = locate(&t, &["inner"], "c");
    t.increment_counter("test.secret", 5);
    t.increment_counter("test.inner.c", 5);
    assert_eq!(t.read(&secret), Some(0));
    assert_eq!(t.read(&inner), Some(0));
}

#[test]
fn read_twice_gives_the_same_value() {
    let mut c = Counter::new();
    c.increment(41);
    assert_eq!(c.read(), c.read());
    let mut g = Gauge::new();
    g.store(2.5f64.to_bits());
    assert_eq!(g.read(), g.read());
    assert_eq!(f64::from_bits(g.read()), 2.5);
}

#[test]
fn increment_adds_exactly_n() {
    let mut t = example();
    let p = locate(&t, &[], "my_b");
    t.increment_counter("test.my_b", 7);
    assert_eq!(t.read(&p), Some(7));
    t.increment_counter("test.my_b", u64::MAX - 8);
    assert_eq!(t.read(&p), Some(u64::MAX - 1));
    t.increment_counter("test.my_b", 1);
    assert_eq!(t.read(&p), Some(u64::MAX));
    t.increment_counter("test.my_b", 1);
    assert_eq!(t.read(&p), Some(0));
}

#[test]
fn discrete_gauge_wraps_both_ways() {
    let mut d = DiscreteGauge::new();
    d.decrease(1);
    assert_eq!(d.read(), u64::MAX);
    d.increase(3);
    assert_eq!(d.read(), 2);
    d.set(10);
    assert_eq!(d.read(), 10);
}

#[test]
fn histogram_window_rolls_over() {
    let mut h = Histogram::new(60);
    h.insert(1, 100);
    h.insert(2, 160);
    assert_eq!(h.read(160), vec![2]);

    let mut k = Histogram::new(60);
    k.insert(1, 100);
    k.insert(2, 159);
    let mut got = k.read(159);
    got.sort();
    assert_eq!(got, vec![1, 2]);
    assert!(k.read(100_000).is_empty());
}

#[test]
fn histogram_with_zero_retention_keeps_nothing_on_read() {
    let mut h = Histogram::new(0);
    h.insert(5, 10);
    assert!(h.read(10).is_empty());
}

#[test]
fn duplicate_root_names_the_first_in_either_order() {
    let mut t = MetricTree::new();
    t.parse_struct(root("Alpha", None, vec![])).unwrap();
    assert_eq!(
        t.parse_struct(root("Beta", None, vec![])),
        Err(SchemaError::DuplicateRoot("Alpha".to_string()))
    );
    let mut u = MetricTree::new();
    u.parse_struct(root("Beta", None, vec![])).unwrap();
    assert_eq!(
        u.parse_struct(root("Alpha", None, vec![])),
        Err(SchemaError::DuplicateRoot("Beta".to_string()))
    );
}

#[test]
fn custom_separator_applies_to_every_level() {
    let mut t = build(vec![
        root("Foo", Some("-"), vec![field("bar", "Bar")]),
        plain("Bar", vec![field("counter", "Counter"), field("baz", "Baz")]),
        plain("Baz", vec![field("deep", "Counter")]),
    ]);
    let ns = t.namespace();
    let values: Vec<String> = ns.keys.iter().map(|k| k.value.clone()).collect();
    assert_eq!(values, vec!["foo-bar-counter".to_string(), "foo-bar-baz-deep".to_string()]);
    let deep = locate(&t, &["bar", "baz"], "deep");
    t.increment_counter("foo-bar-baz-deep", 3);
    assert_eq!(t.read(&deep), Some(3));
    assert!(t.find_counter("foo.bar.baz.deep").is_none());
}

#[test]
fn declarations_in_any_order() {
    let mut tree = MetricTree::new();
    tree.parse_struct(plain("Leaf", vec![field("c", "Counter")])).unwrap();
    assert!(!tree.is_complete());
    tree.parse_struct(root("Top", None, vec![field("mid", "Mid")])).unwrap();
    assert!(!tree.is_complete());
    assert_eq!(tree.generate().err(), Some(SchemaError::Incomplete));
    tree.parse_struct(plain("Mid", vec![field("leaf", "Leaf")])).unwrap();
    assert!(tree.is_complete());
    let c = tree.generate().unwrap();
    assert!(c.find_counter("top.mid.leaf.c").is_some());
}

#[test]
fn a_later_declaration_replaces_an_earlier_one() {
    let mut tree = MetricTree::new();
    tree.parse_struct(root("Top", None, vec![field("s", "Sub")])).unwrap();
    tree.parse_struct(plain("Sub", vec![field("old", "Counter")])).unwrap();
    tree.parse_struct(plain("Sub", vec![field("new", "Counter")])).unwrap();
    let c = tree.generate().unwrap();
    assert!(c.find_counter("top.s.new").is_some());
    assert!(c.find_counter("top.s.old").is_none());
}

#[test]
fn a_scope_that_holds_itself_is_refused() {
    let mut tree = MetricTree::new();
    tree.parse_struct(root("Top", None, vec![field("a", "Loop")])).unwrap();
    tree.parse_struct(plain("Loop", vec![field("again", "Loop")])).unwrap();
    assert!(tree.is_complete());
    assert_eq!(tree.generate().err(), Some(SchemaError::Cyclic));
}

#[test]
fn attribute_lists_are_read_in_order() {
    let sep_first = vec![
        AttrItem::Assign("separator".to_string(), Some("-".to_string())),
        AttrItem::Word("root".to_string()),
    ];
    assert_eq!(Attributes::from_items(&sep_first).err(), Some(SchemaError::SeparatorOnNonRoot));
    let not_string =
        vec![AttrItem::Word("root".to_string()), AttrItem::Assign("separator".to_string(), None)];
    assert_eq!(Attributes::from_items(&not_string).err(), Some(SchemaError::SeparatorNotString));
    let named = vec![AttrItem::Text("x".to_string()), AttrItem::Word("skip".to_string())];
    match Attributes::from_items(&named).unwrap() {
        Attributes::Struct(s) => {
            assert!(s.hidden);
            assert_eq!(s.name_override, Some("x".to_string()));
        }
        Attributes::Root(_) => panic!("not a root"),
    }
    let root_named = vec![AttrItem::Word("root".to_string()), AttrItem::Text("top".to_string())];
    match Attributes::from_items(&root_named).unwrap() {
        Attributes::Root(r) => {
            assert_eq!(r.name_override, Some("top".to_string()));
            assert_eq!(r.separator, None);
        }
        Attributes::Struct(_) => panic!("a root"),
    }
}

#[test]
fn fields_that_cannot_be_classified_are_refused() {
    let unnamed = Field {
        ident: "f".to_string(),
        ty: type_path("Counter"),
        attributes: Attributes::Root(RootAttributes { separator: None, name_override: None }),
    };
    assert_eq!(classify_field(&unnamed).err(), Some(SchemaError::NoMetricName("f".to_string())));
    assert_eq!(
        classify_field(&field("m", "std::sync::Mutex<u8>")).err(),
        Some(SchemaError::InvalidFieldType("m".to_string()))
    );
    assert_eq!(
        classify_field(&field("h", "Histogram")).err(),
        Some(SchemaError::InvalidRetention("h".to_string()))
    );
    assert_eq!(
        classify_field(&field("h", "Histogram<abc>")).err(),
        Some(SchemaError::InvalidRetention("h".to_string()))
    );
    match classify_field(&skipped("m", "std::sync::Mutex<u8>")).unwrap() {
        ScopeField::Other(name, ty) => {
            assert_eq!(name, "m");
            assert_eq!(ty, "std::sync::Mutex::<u8>");
        }
        _ => panic!("an opaque field"),
    }
    let mut tree = MetricTree::new();
    let bad = root("Top", None, vec![field("ok", "Counter"), field("m", "a::B")]);
    assert_eq!(tree.parse_struct(bad), Err(SchemaError::InvalidFieldType("m".to_string())));
    assert!(!tree.is_complete());
}

#[test]
fn metric_kinds_are_read_from_type_paths() {
    assert_eq!(MetricType::try_from(&type_path("a::b::Counter")), Some(MetricType::Counter));
    assert_eq!(MetricType::try_from(&type_path("DiscreteGauge")), Some(MetricType::DiscreteGauge));
    assert_eq!(MetricType::try_from(&type_path("Histogram < 60 >")), Some(MetricType::Histogram(60)));
    assert_eq!(MetricType::try_from(&type_path("Counters")), None);
    assert_eq!(MetricType::Histogram(5).name(), "Histogram");
    assert_eq!(parse_retention("< 60 >"), Some(60));
    assert_eq!(parse_retention("<18446744073709551615>"), Some(u64::MAX));
    assert_eq!(parse_retention("<18446744073709551616>"), None);
    assert_eq!(parse_retention("<>"), None);
    assert_eq!(parse_retention("<6x>"), None);
    assert_eq!(path_last_segment("a::b::Counter"), "Counter");
    assert_eq!(path_last_segment("Gauge"), "Gauge");
}

#[test]
fn names_are_cased_by_the_outside_crates() {
    assert_eq!(snake_case("CustomSeparatorFoo"), "custom_separator_foo");
    assert_eq!(to_ascii_upper("my_t_a9é"), "MY_T_A9é");
}

#[test]
fn gauges_are_updated_by_place() {
    let mut t = build(vec![root("Top", None, vec![field("g", "Gauge"), field("d", "DiscreteGauge")])]);
    let g = t.find_gauge("top.g").unwrap();
    let d = t.find_gauge("top.d").unwrap();
    assert_eq!(t.metric_type(&g), Some(MetricType::Gauge));
    assert_eq!(t.metric_type(&d), Some(MetricType::DiscreteGauge));
    assert!(t.update_at(&g, CellOp::Store(1.5f64.to_bits())));
    assert!(t.update_at(&d, CellOp::Increase(4)));
    assert!(t.update_at(&d, CellOp::Decrease(1)));
    assert_eq!(t.read(&g).map(f64::from_bits), Some(1.5));
    assert_eq!(t.read(&d), Some(3));
    let nowhere = CellPath { subs: vec![9], metric: 0 };
    assert!(!t.update_at(&nowhere, CellOp::Assign(1)));
    assert_eq!(t.read(&nowhere), None);
}

#[test]
fn exposition_lines() {
    let mut s = String::new();
    write_type_line(&mut s, "test.my_b", "counter");
    assert_eq!(s, "# TYPE test.my_b counter\n");
    let mut s = String::new();
    let labels = vec![
        Label::KeyValue("quantile".to_string(), "0.5".to_string()),
        Label::Key("raw".to_string()),
    ];
    write_metric_line(&mut s, "h", Some("sum"), &labels, "12");
    assert_eq!(s, "h_sum{quantile=\"0.5\",raw} 12\n");
    let mut s = String::new();
    write_metric_line(&mut s, "h", None, &vec![], "0");
    assert_eq!(s, "h 0\n");
    let mut s = String::new();
    write_decimal(&mut s, 0);
    write_decimal(&mut s, 1_234_567_890);
    assert_eq!(s, "01234567890");
    let mut c = Counter::new();
    c.increment(42);
    let mut s = String::new();
    render_counter(&c, "my_b", &mut s);
    assert_eq!(s, "# TYPE my_b counter\nmy_b 42\n\n");
    let mut d = DiscreteGauge::new();
    d.set(7);
    let mut s = String::new();
    render_discrete_gauge(&d, "my_d", &mut s);
    assert_eq!(s, "# TYPE my_d gauge\nmy_d 7\n\n");
}
