use axbind::configs::BindFunction;
use axbind::configs::ConfigError;
use axbind::configs::MasterConfig;
use axbind::configs::MetaOptions;
use axbind::configs::Options;
use axbind::configs::extract_char;
use axbind::configs::extract_char_optional;
use axbind::doc::Context;
use axbind::doc::DocTable;
use axbind::doc::DocValue;
use axbind::process::file_jobs;
use axbind::tagfile::GenerateErr;
use axbind::tagfile::TagGroup;
use axbind::tagfile::TagRoot;

fn text(s: &str) -> DocValue {
    DocValue::Text(s.to_string())
}

fn list(items: Vec<DocValue>) -> DocValue {
    DocValue::List(items)
}

fn table(entries: Vec<(&str, DocValue)>) -> DocTable {
    DocTable { entries: entries.into_iter().map(|(k, v)| (k.to_string(), v)).collect() }
}

fn tval(entries: Vec<(&str, DocValue)>) -> DocValue {
    DocValue::Table(table(entries))
}

fn ctx() -> Context {
    Context::from_root("test".to_string())
}

#[test]
fn files_and_groups_together_are_a_structural_error() {
    let main = table(vec![
        ("files", list(vec![text("a.txt")])),
        ("groups", list(vec![text("g1.toml")])),
    ]);
    let r = TagRoot::generate_from_dir(main, "dir/main.toml".to_string());
    match r {
        Err(GenerateErr::FilesAndGroupExist(p)) => assert_eq!(p, "dir/main.toml"),
        _ => panic!("expected the mutual-exclusion error"),
    }
}

#[test]
fn direct_tag_root_keeps_its_table() {
    let main = table(vec![
        ("files", list(vec![text("a.txt")])),
        ("scheme", tval(vec![("name", text("s"))])),
    ]);
    let tr = TagRoot::generate_from_dir(main, "dir/main.toml".to_string()).unwrap();
    assert!(tr.groups.is_none());
    assert_eq!(tr.path, "dir/main.toml");
}

#[test]
fn group_list_tag_root_reports_paths() {
    let main = table(vec![("groups", list(vec![text("one.toml"), text("two.toml")]))]);
    let tr = TagRoot::generate_from_dir(main, "dir/main.toml".to_string()).unwrap();
    let groups = tr.groups.unwrap();
    assert_eq!(groups, vec!["one.toml".to_string(), "two.toml".to_string()]);
}

#[test]
fn malformed_groups_list_is_a_type_error() {
    let main = table(vec![("groups", list(vec![text("ok.toml"), list(vec![])]))]);
    let r = TagRoot::generate_from_dir(main, "dir/main.toml".to_string());
    assert!(matches!(r, Err(GenerateErr::TableGet(_))));
}

#[test]
fn tag_group_parses_whole_descriptor() {
    let t = table(vec![
        ("files", list(vec![text("a.txt"), text("b.txt")])),
        (
            "scheme",
            tval(vec![
                ("name", text("colors")),
                ("remaps", list(vec![text("dark")])),
                ("functions", list(vec![text("upper")])),
            ]),
        ),
        ("options", tval(vec![("escape_char", text("@"))])),
    ]);
    let g = TagGroup::from_table(&t, &ctx()).unwrap();
    assert_eq!(g.files, vec!["a.txt".to_string(), "b.txt".to_string()]);
    assert_eq!(g.scheme_spec.scheme, "colors");
    assert_eq!(g.scheme_spec.remaps, vec!["dark".to_string()]);
    assert_eq!(g.scheme_spec.functions, vec!["upper".to_string()]);
    assert_eq!(g.options.escape_char, Some('@'));
    assert!(g.options.key_format.is_none());
    assert!(g.options.axbind_file_format.is_none());
}

#[test]
fn tag_group_defaults_are_empty() {
    let t = table(vec![
        ("files", list(vec![text("a.txt")])),
        ("scheme", tval(vec![("name", text("s"))])),
    ]);
    let g = TagGroup::from_table(&t, &ctx()).unwrap();
    assert!(g.scheme_spec.remaps.is_empty());
    assert!(g.scheme_spec.functions.is_empty());
    assert!(g.options.escape_char.is_none());
}

#[test]
fn tag_group_without_scheme_name_fails() {
    let t = table(vec![
        ("files", list(vec![text("a.txt")])),
        ("scheme", tval(vec![])),
    ]);
    assert!(TagGroup::from_table(&t, &ctx()).is_err());
}

#[test]
fn options_layering_present_wins() {
    let base = Options {
        key_format: Some("base".to_string()),
        escape_char: Some('@'),
        axbind_file_format: Some("x%.ax".to_string()),
        sync_write: Some(false),
    };
    let over = Options {
        key_format: None,
        escape_char: Some('!'),
        axbind_file_format: None,
        sync_write: Some(true),
    };
    let merged = base.overriden_by(over);
    assert_eq!(merged.key_format.as_deref(), Some("base"));
    assert_eq!(merged.escape_char, Some('!'));
    assert_eq!(merged.axbind_file_format.as_deref(), Some("x%.ax"));
    assert_eq!(merged.sync_write, Some(true));
}

#[test]
fn absent_never_beats_present() {
    let base = Options {
        key_format: Some("kept".to_string()),
        escape_char: Some('@'),
        axbind_file_format: Some("kept".to_string()),
        sync_write: Some(true),
    };
    let merged = base.overriden_by(Options::default());
    assert_eq!(merged.key_format.as_deref(), Some("kept"));
    assert_eq!(merged.escape_char, Some('@'));
    assert_eq!(merged.axbind_file_format.as_deref(), Some("kept"));
    assert_eq!(merged.sync_write, Some(true));
}

#[test]
fn master_config_requires_everything() {
    let t = table(vec![
        ("scheme_dir", text("schemes")),
        (
            "metaoptions",
            tval(vec![("internal_escape_char", text("@")), ("wildcard_char", text("%"))]),
        ),
        (
            "options",
            tval(vec![
                ("key_format", text("%")),
                ("escape_char", text("!")),
                ("axbind_file_format", text("x%.axbind")),
                ("sync_write", DocValue::Bool(false)),
            ]),
        ),
    ]);
    let m = MasterConfig::from_table(&t, &ctx()).unwrap();
    assert_eq!(m.scheme_dir, "schemes");
    assert_eq!(m.meta_options.internal_escape_char, Some('@'));
    assert_eq!(m.meta_options.wildcard_char, Some('%'));
    assert_eq!(m.options.escape_char, Some('!'));
    assert_eq!(m.options.sync_write, Some(false));
}

#[test]
fn master_config_requires_the_sync_flag_too() {
    // The global defaults are the base of the override chain: every
    // field is required, the sync flag included.
    let t = table(vec![
        ("scheme_dir", text("schemes")),
        (
            "metaoptions",
            tval(vec![("internal_escape_char", text("@")), ("wildcard_char", text("%"))]),
        ),
        (
            "options",
            tval(vec![
                ("key_format", text("%")),
                ("escape_char", text("!")),
                ("axbind_file_format", text("x%.axbind")),
            ]),
        ),
    ]);
    assert!(MasterConfig::from_table(&t, &ctx()).is_err());
}

#[test]
fn master_config_missing_field_is_an_error() {
    let t = table(vec![("scheme_dir", text("schemes"))]);
    assert!(MasterConfig::from_table(&t, &ctx()).is_err());
}

#[test]
fn char_fields_must_be_one_character() {
    let t = table(vec![("c", text("ab")), ("ok", text("x")), ("n", list(vec![]))]);
    let c = ctx();
    assert!(matches!(
        extract_char(&t, &c, &"c".to_string()),
        Err(ConfigError::NotOneChar(_))
    ));
    assert_eq!(extract_char(&t, &c, &"ok".to_string()).unwrap(), 'x');
    assert!(matches!(
        extract_char(&t, &c, &"missing".to_string()),
        Err(ConfigError::TableGet(_))
    ));
    assert!(matches!(
        extract_char(&t, &c, &"n".to_string()),
        Err(ConfigError::TableGet(_))
    ));
    assert_eq!(extract_char_optional(&t, &c, &"missing".to_string()).unwrap(), None);
    assert_eq!(extract_char_optional(&t, &c, &"ok".to_string()).unwrap(), Some('x'));
}

#[test]
fn meta_options_forced_requires_both() {
    let t = table(vec![("internal_escape_char", text("@"))]);
    assert!(MetaOptions::from_table_forced(&t, &ctx()).is_err());
}

#[test]
fn render_command_substitutes_the_key() {
    let f = BindFunction { shell: "/bin/sh".to_string(), rcommand: "xecho % | tr a-z A-Z".to_string() };
    let meta = MetaOptions { internal_escape_char: Some('@'), wildcard_char: Some('%') };
    assert!(f.template_ok(&meta));
    let cmd = f.render_command(&meta, "value");
    assert_eq!(cmd, "xecho value | tr a-z A-Z");
}

#[test]
fn render_command_honours_the_escape() {
    let f = BindFunction { shell: "/bin/sh".to_string(), rcommand: "date +@%Y %".to_string() };
    let meta = MetaOptions { internal_escape_char: Some('@'), wildcard_char: Some('%') };
    assert!(f.template_ok(&meta));
    let cmd = f.render_command(&meta, "now");
    assert_eq!(cmd, "date +%Y now");
}

#[test]
fn file_jobs_derive_template_sources() {
    let files = vec!["notes.txt".to_string(), "todo.md".to_string()];
    let options = Options {
        key_format: Some("%".to_string()),
        escape_char: Some('@'),
        axbind_file_format: Some(".%.axbind".to_string()),
        sync_write: Some(false),
    };
    let meta = MetaOptions { internal_escape_char: Some('@'), wildcard_char: Some('%') };
    let jobs = file_jobs(&files, &options, &meta).unwrap();
    assert_eq!(jobs.len(), 2);
    assert_eq!(jobs[0].target_name, "notes.txt");
    assert_eq!(jobs[0].source_name, ".notes.txt.axbind");
    assert_eq!(jobs[1].target_name, "todo.md");
    assert_eq!(jobs[1].source_name, ".todo.md.axbind");
}

#[test]
fn broken_naming_format_is_reported_for_the_group() {
    let files = vec!["a".to_string()];
    let options = Options {
        key_format: Some("%".to_string()),
        escape_char: Some('@'),
        axbind_file_format: Some("bad@".to_string()),
        sync_write: Some(false),
    };
    let meta = MetaOptions { internal_escape_char: Some('@'), wildcard_char: Some('%') };
    let r = file_jobs(&files, &options, &meta);
    assert!(matches!(r, Err(ConfigError::BadTemplate(_))));
}

#[test]
fn sync_flag_is_read_from_options() {
    let t = table(vec![("sync_write", DocValue::Bool(true))]);
    let o = Options::from_table(&t, &ctx()).unwrap();
    assert_eq!(o.sync_write, Some(true));
    assert!(o.escape_char.is_none());
}

#[test]
fn non_boolean_sync_flag_is_a_type_error() {
    let t = table(vec![("sync_write", text("yes"))]);
    assert!(Options::from_table(&t, &ctx()).is_err());
}
