use axbind::MainError;
use axbind::configs::ConfigError;
use axbind::doc::Context;
use axbind::doc::DocTable;
use axbind::doc::DocValue;
use axbind::registry::AddOutcome;
use axbind::registry::SchemeRegistry;
use axbind::resolver::get_bindings;
use axbind::tagfile::SchemeSpec;

fn text(s: &str) -> DocValue {
    DocValue::Text(s.to_string())
}

fn list(items: Vec<DocValue>) -> DocValue {
    DocValue::List(items)
}

fn table(entries: Vec<(&str, DocValue)>) -> DocTable {
    DocTable { entries: entries.into_iter().map(|(k, v)| (k.to_string(), v)).collect() }
}

fn tval(entries: Vec<(&str, DocValue)>) -> DocValue {
    DocValue::Table(table(entries))
}

fn spec(scheme: &str, remaps: Vec<&str>, functions: Vec<&str>) -> SchemeSpec {
    SchemeSpec {
        scheme: scheme.to_string(),
        remaps: remaps.into_iter().map(|s| s.to_string()).collect(),
        functions: functions.into_iter().map(|s| s.to_string()).collect(),
    }
}

#[test]
fn add_document_outcomes() {
    let mut reg = SchemeRegistry::new();
    let with_id = table(vec![
        ("axbind_scheme", text("good")),
        ("bindings", tval(vec![("k", text("v"))])),
    ]);
    assert!(matches!(reg.add_document(with_id, "one".to_string()), AddOutcome::Added));
    let without_id = table(vec![("bindings", tval(vec![]))]);
    assert!(matches!(reg.add_document(without_id, "two".to_string()), AddOutcome::NoIdentity));
    let bad_id = table(vec![("axbind_scheme", list(vec![]))]);
    assert!(matches!(reg.add_document(bad_id, "three".to_string()), AddOutcome::BadIdentity));
    assert_eq!(reg.scheme_count(), 1);
}

#[test]
fn simple_scheme_resolves() {
    let mut reg = SchemeRegistry::new();
    let doc = table(vec![
        ("axbind_scheme", text("plain")),
        ("bindings", tval(vec![("name", text("alice")), ("city", text("berlin"))])),
    ]);
    reg.add_document(doc, "plain.toml".to_string());
    let ctx = Context::from_root("test".to_string());
    let m = get_bindings(&mut reg, &spec("plain", vec![], vec![]), &ctx).unwrap();
    assert_eq!(m.len(), 2);
    assert_eq!(m.get(&"name".to_string()).unwrap(), "alice");
    assert_eq!(m.get(&"city".to_string()).unwrap(), "berlin");
}

#[test]
fn recursive_inclusion_pulls_nested_bindings() {
    let mut reg = SchemeRegistry::new();
    let a = table(vec![
        ("axbind_scheme", text("A")),
        ("bindings", tval(vec![("@INCLUDE", list(vec![text("B.sub")]))])),
    ]);
    let b = table(vec![
        ("axbind_scheme", text("B")),
        ("bindings", tval(vec![("sub", tval(vec![("x", text("y"))]))])),
    ]);
    reg.add_document(a, "a.toml".to_string());
    reg.add_document(b, "b.toml".to_string());
    let ctx = Context::from_root("test".to_string());
    let m = get_bindings(&mut reg, &spec("A", vec![], vec![]), &ctx).unwrap();
    assert_eq!(m.len(), 1);
    assert_eq!(m.get(&"x".to_string()).unwrap(), "y");
}

#[test]
fn whole_scheme_inclusion_and_local_override() {
    let mut reg = SchemeRegistry::new();
    let base = table(vec![
        ("axbind_scheme", text("base")),
        ("bindings", tval(vec![("a", text("1")), ("b", text("2"))])),
    ]);
    // The include comes first, so the local entry shadows the included one.
    let derived = table(vec![
        ("axbind_scheme", text("derived")),
        (
            "bindings",
            tval(vec![("@INCLUDE", list(vec![text("base")])), ("b", text("override"))]),
        ),
    ]);
    reg.add_document(base, "base.toml".to_string());
    reg.add_document(derived, "derived.toml".to_string());
    let ctx = Context::from_root("test".to_string());
    let m = get_bindings(&mut reg, &spec("derived", vec![], vec![]), &ctx).unwrap();
    assert_eq!(m.get(&"a".to_string()).unwrap(), "1");
    assert_eq!(m.get(&"b".to_string()).unwrap(), "override");
}

#[test]
fn unknown_scheme_is_a_reference_error() {
    let mut reg = SchemeRegistry::new();
    let ctx = Context::from_root("group.toml".to_string());
    let r = get_bindings(&mut reg, &spec("ghost", vec![], vec![]), &ctx);
    match r {
        Err(MainError::ConfigError(ConfigError::SchemeExpected(c, n))) => {
            assert_eq!(n, "ghost");
            assert_eq!(c.root, "group.toml");
            assert_eq!(c.keys.last().map(|s| s.as_str()), Some("scheme"));
        },
        _ => panic!("expected a scheme reference error"),
    }
}

#[test]
fn unknown_remap_layer_is_a_reference_error() {
    let mut reg = SchemeRegistry::new();
    let doc = table(vec![
        ("axbind_scheme", text("s")),
        ("bindings", tval(vec![("k", text("v"))])),
    ]);
    reg.add_document(doc, "s.toml".to_string());
    let ctx = Context::from_root("test".to_string());
    let r = get_bindings(&mut reg, &spec("s", vec!["missing"], vec![]), &ctx);
    match r {
        Err(MainError::ConfigError(ConfigError::TableRefExpect(c, e))) => {
            assert_eq!(c.keys.last().map(|s| s.as_str()), Some("missing"));
            assert!(matches!(e.kind, axbind::doc::GetErrKind::NoKey));
        },
        _ => panic!("expected a remap reference error"),
    }
}

#[test]
fn remap_then_lookup() {
    let mut reg = SchemeRegistry::new();
    let doc = table(vec![
        ("axbind_scheme", text("s")),
        ("bindings", tval(vec![("K", text("v1")), ("L", text("other"))])),
        ("remaps", tval(vec![("r1", tval(vec![("v1", text("v2"))]))])),
    ]);
    reg.add_document(doc, "s.toml".to_string());
    let ctx = Context::from_root("test".to_string());
    let m = get_bindings(&mut reg, &spec("s", vec!["r1"], vec![]), &ctx).unwrap();
    assert_eq!(m.get(&"K".to_string()).unwrap(), "v2");
    assert_eq!(m.get(&"L".to_string()).unwrap(), "other");
}

#[test]
fn remaps_precede_functions() {
    // binding K = v1, remap layer v1 -> v2, function = uppercase.
    let mut reg = SchemeRegistry::new();
    let doc = table(vec![
        ("axbind_scheme", text("s")),
        ("bindings", tval(vec![("K", text("v1"))])),
        ("remaps", tval(vec![("r1", tval(vec![("v1", text("v2"))]))])),
        (
            "functions",
            tval(vec![("up", tval(vec![("shell", text("sh")), ("command", text("xupper %"))]))]),
        ),
    ]);
    reg.add_document(doc, "s.toml".to_string());
    let ctx = Context::from_root("test".to_string());

    // Remap plus function: the remap is applied first, then the transform
    // runs on the remapped value.
    let mut with_remap = get_bindings(&mut reg, &spec("s", vec!["r1"], vec!["up"]), &ctx).unwrap();
    for i in 0..with_remap.len() {
        let transformed = with_remap.value_at(i).to_uppercase();
        with_remap.set_value_at(i, transformed);
    }
    assert_eq!(with_remap.get(&"K".to_string()).unwrap(), "V2");

    // Function only: the transform sees the unremapped value.
    let mut no_remap = get_bindings(&mut reg, &spec("s", vec![], vec!["up"]), &ctx).unwrap();
    for i in 0..no_remap.len() {
        let transformed = no_remap.value_at(i).to_uppercase();
        no_remap.set_value_at(i, transformed);
    }
    assert_eq!(no_remap.get(&"K".to_string()).unwrap(), "V1");
}

#[test]
fn function_definitions_are_parsed() {
    let mut reg = SchemeRegistry::new();
    let doc = table(vec![
        ("axbind_scheme", text("s")),
        ("bindings", tval(vec![("k", text("v"))])),
        (
            "functions",
            tval(vec![("up", tval(vec![("shell", text("/bin/sh")), ("command", text("xtr %"))]))]),
        ),
    ]);
    reg.add_document(doc, "s.toml".to_string());
    let scheme = reg.get(&"s".to_string()).unwrap().unwrap();
    let f = scheme.function_def(&"up".to_string()).unwrap();
    assert_eq!(f.shell, "/bin/sh");
    assert_eq!(f.rcommand, "xtr %");
    assert!(scheme.function_def(&"down".to_string()).is_none());
}

#[test]
fn direct_inclusion_cycle_fails_fast() {
    let mut reg = SchemeRegistry::new();
    let a = table(vec![
        ("axbind_scheme", text("A")),
        ("bindings", tval(vec![("@INCLUDE", list(vec![text("A")]))])),
    ]);
    reg.add_document(a, "a.toml".to_string());
    let r = reg.get(&"A".to_string());
    assert!(matches!(r, Err(ConfigError::Cycle(_, _))));
}

#[test]
fn mutual_inclusion_cycle_fails_fast() {
    let mut reg = SchemeRegistry::new();
    let a = table(vec![
        ("axbind_scheme", text("A")),
        ("bindings", tval(vec![("@INCLUDE", list(vec![text("B")]))])),
    ]);
    let b = table(vec![
        ("axbind_scheme", text("B")),
        ("bindings", tval(vec![("@INCLUDE", list(vec![text("A")]))])),
    ]);
    reg.add_document(a, "a.toml".to_string());
    reg.add_document(b, "b.toml".to_string());
    let r = reg.get(&"A".to_string());
    assert!(matches!(r, Err(ConfigError::Cycle(_, _))));
}

#[test]
fn diamond_inclusion_is_not_a_cycle() {
    let mut reg = SchemeRegistry::new();
    let top = table(vec![
        ("axbind_scheme", text("top")),
        ("bindings", tval(vec![("@INCLUDE", list(vec![text("left.p"), text("right.p")]))])),
    ]);
    let left = table(vec![
        ("axbind_scheme", text("left")),
        ("bindings", tval(vec![("p", tval(vec![("@INCLUDE", list(vec![text("base")]))]))])),
    ]);
    let right = table(vec![
        ("axbind_scheme", text("right")),
        ("bindings", tval(vec![("p", tval(vec![("@INCLUDE", list(vec![text("base")]))]))])),
    ]);
    let base = table(vec![
        ("axbind_scheme", text("base")),
        ("bindings", tval(vec![("x", text("y"))])),
    ]);
    reg.add_document(top, "t".to_string());
    reg.add_document(left, "l".to_string());
    reg.add_document(right, "r".to_string());
    reg.add_document(base, "b".to_string());
    let ctx = Context::from_root("test".to_string());
    let m = get_bindings(&mut reg, &spec("top", vec![], vec![]), &ctx).unwrap();
    assert_eq!(m.get(&"x".to_string()).unwrap(), "y");
}

#[test]
fn unknown_included_scheme_is_a_reference_error() {
    let mut reg = SchemeRegistry::new();
    let a = table(vec![
        ("axbind_scheme", text("A")),
        ("bindings", tval(vec![("@INCLUDE", list(vec![text("nowhere")]))])),
    ]);
    reg.add_document(a, "a.toml".to_string());
    let r = reg.get(&"A".to_string());
    match r {
        Err(ConfigError::SchemeExpected(_, n)) => assert_eq!(n, "nowhere"),
        _ => panic!("expected a reference error for the included scheme"),
    }
}

#[test]
fn non_text_binding_value_is_a_type_error() {
    let mut reg = SchemeRegistry::new();
    let doc = table(vec![
        ("axbind_scheme", text("s")),
        ("bindings", tval(vec![("k", list(vec![]))])),
    ]);
    reg.add_document(doc, "s.toml".to_string());
    let r = reg.get(&"s".to_string());
    match r {
        Err(ConfigError::TableGet(e)) => {
            assert!(matches!(e.kind, axbind::doc::GetErrKind::WrongType));
            assert_eq!(e.context.keys.last().map(|s| s.as_str()), Some("k"));
        },
        _ => panic!("expected a type error"),
    }
}

#[test]
fn missing_bindings_table_is_an_error() {
    let mut reg = SchemeRegistry::new();
    let doc = table(vec![("axbind_scheme", text("s"))]);
    reg.add_document(doc, "s.toml".to_string());
    let r = reg.get(&"s".to_string());
    match r {
        Err(ConfigError::TableGet(e)) => {
            assert!(matches!(e.kind, axbind::doc::GetErrKind::NoKey));
            assert_eq!(e.context.root, "s.toml");
            assert_eq!(e.context.keys, vec!["bindings".to_string()]);
        },
        _ => panic!("expected a missing-table error"),
    }
}

#[test]
fn mistyped_bindings_table_is_an_error() {
    let mut reg = SchemeRegistry::new();
    let doc = table(vec![("axbind_scheme", text("s")), ("bindings", text("nope"))]);
    reg.add_document(doc, "s.toml".to_string());
    let r = reg.get(&"s".to_string());
    match r {
        Err(ConfigError::TableGet(e)) => {
            assert!(matches!(e.kind, axbind::doc::GetErrKind::WrongType));
            assert_eq!(e.context.keys, vec!["bindings".to_string()]);
        },
        _ => panic!("expected a wrong-type error"),
    }
}

#[test]
fn unknown_name_is_none_not_an_error() {
    let mut reg = SchemeRegistry::new();
    let r = reg.get(&"absent".to_string()).unwrap();
    assert!(r.is_none());
}

#[test]
fn later_document_shadows_earlier_one() {
    let mut reg = SchemeRegistry::new();
    let first = table(vec![
        ("axbind_scheme", text("dup")),
        ("bindings", tval(vec![("k", text("first"))])),
    ]);
    let second = table(vec![
        ("axbind_scheme", text("dup")),
        ("bindings", tval(vec![("k", text("second"))])),
    ]);
    reg.add_document(first, "one".to_string());
    reg.add_document(second, "two".to_string());
    let scheme = reg.get(&"dup".to_string()).unwrap().unwrap();
    assert_eq!(scheme.bindings.get(&"k".to_string()).unwrap(), "second");
}

#[test]
fn repeat_lookup_is_a_cache_hit() {
    let mut reg = SchemeRegistry::new();
    let doc = table(vec![
        ("axbind_scheme", text("s")),
        ("bindings", tval(vec![("k", text("v"))])),
    ]);
    reg.add_document(doc, "s.toml".to_string());
    {
        let first = reg.get(&"s".to_string()).unwrap().unwrap();
        assert_eq!(first.bindings.get(&"k".to_string()).unwrap(), "v");
    }
    let second = reg.get(&"s".to_string()).unwrap().unwrap();
    assert_eq!(second.bindings.get(&"k".to_string()).unwrap(), "v");
}

#[test]
fn remap_layers_apply_in_caller_order() {
    let mut reg = SchemeRegistry::new();
    let doc = table(vec![
        ("axbind_scheme", text("s")),
        ("bindings", tval(vec![("K", text("v1"))])),
        (
            "remaps",
            tval(vec![
                ("step1", tval(vec![("v1", text("v2"))])),
                ("step2", tval(vec![("v2", text("v3"))])),
            ]),
        ),
    ]);
    reg.add_document(doc, "s.toml".to_string());
    let ctx = Context::from_root("test".to_string());
    let forward = get_bindings(&mut reg, &spec("s", vec!["step1", "step2"], vec![]), &ctx).unwrap();
    assert_eq!(forward.get(&"K".to_string()).unwrap(), "v3");
    let backward = get_bindings(&mut reg, &spec("s", vec!["step2", "step1"], vec![]), &ctx).unwrap();
    assert_eq!(backward.get(&"K".to_string()).unwrap(), "v2");
}

#[test]
fn nested_groups_are_not_merged_as_bindings() {
    let mut reg = SchemeRegistry::new();
    let a = table(vec![
        ("axbind_scheme", text("A")),
        ("bindings", tval(vec![("@INCLUDE", list(vec![text("B.sub")]))])),
    ]);
    let b = table(vec![
        ("axbind_scheme", text("B")),
        (
            "bindings",
            tval(vec![(
                "sub",
                tval(vec![("x", text("y")), ("deeper", tval(vec![("hidden", text("z"))]))]),
            )]),
        ),
    ]);
    reg.add_document(a, "a".to_string());
    reg.add_document(b, "b".to_string());
    let ctx = Context::from_root("test".to_string());
    let m = get_bindings(&mut reg, &spec("A", vec![], vec![]), &ctx).unwrap();
    assert_eq!(m.get(&"x".to_string()).unwrap(), "y");
    assert!(m.get(&"deeper".to_string()).is_none());
    assert!(m.get(&"hidden".to_string()).is_none());
}

#[test]
fn unknown_function_name_aborts_resolution() {
    let mut reg = SchemeRegistry::new();
    let doc = table(vec![
        ("axbind_scheme", text("s")),
        ("bindings", tval(vec![("k", text("v"))])),
    ]);
    reg.add_document(doc, "s.toml".to_string());
    let ctx = Context::from_root("group.toml".to_string());
    let r = get_bindings(&mut reg, &spec("s", vec![], vec!["nope"]), &ctx);
    match r {
        Err(MainError::ConfigError(ConfigError::TableRefExpect(c, e))) => {
            assert_eq!(c.root, "group.toml");
            assert_eq!(c.keys, vec!["functions".to_string(), "nope".to_string()]);
            assert!(matches!(e.kind, axbind::doc::GetErrKind::NoKey));
            assert_eq!(e.context.keys, vec!["functions".to_string(), "nope".to_string()]);
        },
        _ => panic!("expected a function reference error"),
    }
}
