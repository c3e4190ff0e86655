use axbind::axbind_replace;
use axbind::bindings::BindingMap;
use axbind::engine::EngineError;
use axbind::engine::Matcher;
use axbind::engine::escaped_manip;
use axbind::engine::template_ok;
use axbind::process::apply_group;

fn map_of(pairs: &[(&str, &str)]) -> BindingMap {
    let mut m = BindingMap::new();
    for (k, v) in pairs {
        m.insert(k.to_string(), v.to_string());
    }
    m
}

#[test]
fn basic_replace() {
    let m = map_of(&[("NAME", "alice")]);
    let out = axbind_replace("Hello NAME", &m).unwrap();
    assert_eq!(out, "Hello alice");
}

#[test]
fn replace_is_idempotent_on_its_output() {
    let m = map_of(&[("NAME", "alice")]);
    let once = axbind_replace("Hello NAME", &m).unwrap();
    let twice = axbind_replace(&once, &m).unwrap();
    assert_eq!(once, "Hello alice");
    assert_eq!(twice, "Hello alice");
}

#[test]
fn longest_match_wins() {
    let m = map_of(&[("FOO", "1"), ("FOOBAR", "2")]);
    let out = axbind_replace("xFOOBARy", &m).unwrap();
    assert_eq!(out, "x2y");
}

#[test]
fn longest_match_wins_regardless_of_insertion_order() {
    let m = map_of(&[("FOOBAR", "2"), ("FOO", "1")]);
    let out = axbind_replace("xFOOBARy", &m).unwrap();
    assert_eq!(out, "x2y");
}

#[test]
fn leftmost_match_wins() {
    let m = map_of(&[("AB", "x"), ("BC", "y")]);
    let out = axbind_replace("ABC", &m).unwrap();
    assert_eq!(out, "xC");
}

#[test]
fn non_overlapping_scan_resumes_after_match() {
    let m = map_of(&[("aa", "b")]);
    let out = axbind_replace("aaaa", &m).unwrap();
    assert_eq!(out, "bb");
}

#[test]
fn unmatched_text_passes_through() {
    let m = map_of(&[("KEY", "value")]);
    let out = axbind_replace("no placeholders here", &m).unwrap();
    assert_eq!(out, "no placeholders here");
}

#[test]
fn empty_key_set_is_an_error() {
    let m = BindingMap::new();
    let r = axbind_replace("anything", &m);
    assert!(matches!(r, Err(EngineError::EmptyKeySet)));
}

#[test]
fn empty_key_is_an_error() {
    let m = map_of(&[("", "v"), ("A", "b")]);
    let r = axbind_replace("text", &m);
    assert!(matches!(r, Err(EngineError::EmptyKey)));
}

#[test]
fn duplicate_matcher_keys_are_an_error() {
    let keys = vec!["A".to_string(), "A".to_string()];
    let vals = vec!["1".to_string(), "2".to_string()];
    let r = Matcher::new(keys, vals);
    assert!(matches!(r, Err(EngineError::DuplicateKey)));
}

#[test]
fn binding_map_insert_overwrites() {
    let m = map_of(&[("K", "old"), ("K", "new")]);
    assert_eq!(m.len(), 1);
    let out = axbind_replace("K", &m).unwrap();
    assert_eq!(out, "new");
}

#[test]
fn escaped_substitute_replaces_wildcard() {
    let out = escaped_manip("x%.axbind", '@', '%', "notes.txt");
    assert_eq!(out, "xnotes.txt.axbind");
}

#[test]
fn leading_wildcard_substitutes() {
    // A wildcard opening the template substitutes like any other: only
    // an escape shields a character.
    let out = escaped_manip("%.axbind", '@', '%', "notes.txt");
    assert_eq!(out, "notes.txt.axbind");
}

#[test]
fn escaped_substitute_escapes_next_character() {
    // The escape disappears and the character after it stays literal.
    let out = escaped_manip("a%b@%c", '@', '%', "V");
    assert_eq!(out, "aVb%c");
}

#[test]
fn every_unshielded_wildcard_substitutes() {
    let out = escaped_manip("%%", '@', '%', "V");
    assert_eq!(out, "VV");
}

#[test]
fn template_validity() {
    assert!(template_ok("a@b", '@'));
    assert!(template_ok("plain", '@'));
    assert!(!template_ok("", '@'));
    assert!(!template_ok("@x", '@'));
    assert!(!template_ok("x@", '@'));
    assert!(!template_ok("a@@b", '@'));
}

#[test]
fn unreadable_file_does_not_stop_the_group() {
    let m = map_of(&[("KEY", "val")]);
    let contents = vec![
        Some("a KEY b".to_string()),
        None,
        Some("KEY".to_string()),
    ];
    let outs = apply_group(&contents, &m).unwrap();
    assert_eq!(outs.len(), 3);
    assert_eq!(outs[0].as_deref(), Some("a val b"));
    assert!(outs[1].is_none());
    assert_eq!(outs[2].as_deref(), Some("val"));
}

#[test]
fn remap_rewrites_matching_values_only() {
    let mut m = map_of(&[("A", "red"), ("B", "blue")]);
    let layer = map_of(&[("red", "green")]);
    m.apply_remap(&layer);
    assert_eq!(m.get(&"A".to_string()).unwrap(), "green");
    assert_eq!(m.get(&"B".to_string()).unwrap(), "blue");
}
