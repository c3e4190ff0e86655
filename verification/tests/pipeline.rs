use axbind::configs::MasterConfig;
use axbind::doc::Context;
use axbind::doc::DocTable;
use axbind::doc::DocValue;
use axbind::process::apply_group;
use axbind::process::file_jobs;
use axbind::registry::SchemeRegistry;
use axbind::resolver::get_bindings;
use axbind::tagfile::TagGroup;
use axbind::tagfile::TagRoot;

fn text(s: &str) -> DocValue {
    DocValue::Text(s.to_string())
}

fn list(items: Vec<DocValue>) -> DocValue {
    DocValue::List(items)
}

fn table(entries: Vec<(&str, DocValue)>) -> DocTable {
    DocTable { entries: entries.into_iter().map(|(k, v)| (k.to_string(), v)).collect() }
}

fn tval(entries: Vec<(&str, DocValue)>) -> DocValue {
    DocValue::Table(table(entries))
}

/// One whole pass: master configuration, a scheme with a remap layer,
/// a tag-group descriptor, template-source derivation, and substitution
/// over the files' contents, with one file unreadable.
#[test]
fn whole_pass_over_one_group() {
    let master_table = table(vec![
        ("scheme_dir", text("schemes")),
        (
            "metaoptions",
            tval(vec![("internal_escape_char", text("@")), ("wildcard_char", text("%"))]),
        ),
        (
            "options",
            tval(vec![
                ("key_format", text("%")),
                ("escape_char", text("!")),
                ("axbind_file_format", text(".%.axbind")),
                ("sync_write", DocValue::Bool(false)),
            ]),
        ),
    ]);
    let master = MasterConfig::from_table(
        &master_table,
        &Context::from_root("config.toml".to_string()),
    )
    .unwrap();

    let mut registry = SchemeRegistry::new();
    registry.add_document(
        table(vec![
            ("axbind_scheme", text("names")),
            ("bindings", tval(vec![("USER", text("alice")), ("HOST", text("old-host"))])),
            ("remaps", tval(vec![("newbox", tval(vec![("old-host", text("new-host"))]))])),
        ]),
        "schemes/names.toml".to_string(),
    );

    let main_table = table(vec![
        ("files", list(vec![text("motd"), text("hosts"), text("notes")])),
        (
            "scheme",
            tval(vec![("name", text("names")), ("remaps", list(vec![text("newbox")]))]),
        ),
    ]);
    let tag_root = TagRoot::generate_from_dir(main_table, "site/.axbind/main.toml".to_string())
        .unwrap();
    assert!(tag_root.groups.is_none());

    let ctx = Context::from_root(tag_root.path.clone());
    let group = TagGroup::from_table(&tag_root.main, &ctx).unwrap();
    let options = master.options.clone().overriden_by(group.options.clone());

    let bindings = get_bindings(&mut registry, &group.scheme_spec, &ctx).unwrap();
    assert_eq!(bindings.get(&"HOST".to_string()).unwrap(), "new-host");

    let jobs = file_jobs(&group.files, &options, &master.meta_options).unwrap();
    assert_eq!(jobs[0].source_name, ".motd.axbind");
    assert_eq!(jobs[2].target_name, "notes");

    let contents = vec![
        Some("welcome USER to HOST".to_string()),
        None,
        Some("HOSTHOST".to_string()),
    ];
    let outputs = apply_group(&contents, &bindings).unwrap();
    assert_eq!(outputs[0].as_deref(), Some("welcome alice to new-host"));
    assert!(outputs[1].is_none());
    assert_eq!(outputs[2].as_deref(), Some("new-hostnew-host"));
}
