use env_profile::aggregate::aggregate;
use env_profile::decode::decode;
use env_profile::env_map::EnvMap;
use env_profile::errors::EnvError;
use env_profile::paths::path_exists_combined_path;
use env_profile::resolve::resolve_reference;
use env_profile::resolve::substitute;
use env_profile::writer::add_variable;
use env_profile::writer::is_duplicate;
use env_profile::writer::AddOutcome;

fn map_of(pairs: &[(&str, &[&str])]) -> EnvMap {
    let mut m = EnvMap::new();
    for (k, vs) in pairs {
        let values: Vec<String> = vs.iter().map(|s| s.to_string()).collect();
        m.insert(k.to_string(), values);
    }
    m
}

fn values_of(m: &EnvMap, key: &str) -> Option<Vec<String>> {
    m.get(&key.to_string()).cloned()
}

fn strings(vs: &[&str]) -> Vec<String> {
    vs.iter().map(|s| s.to_string()).collect()
}

#[test]
fn no_export_lines_leave_seed_unchanged() {
    let seed = map_of(&[("HOME", &["h"])]);
    let m = aggregate("# hello\nPATH=/x\nalias ll='ls -l'\n", &seed).unwrap();
    assert_eq!(m.entry_count(), 1);
    assert_eq!(values_of(&m, "HOME"), Some(strings(&["h"])));
}

#[test]
fn short_and_non_matching_lines_are_skipped() {
    let seed = EnvMap::new();
    let m = aggregate("export\nexportX=1\nexports FOO=1", &seed).unwrap();
    assert_eq!(m.entry_count(), 0);
}

#[test]
fn single_value_line_overrides_seed() {
    let seed = map_of(&[("K", &["old"])]);
    let m = aggregate("export K=V", &seed).unwrap();
    assert_eq!(values_of(&m, "K"), Some(strings(&["V"])));
}

#[test]
fn self_reference_appends_after_existing() {
    let seed = map_of(&[("K", &["Y"])]);
    let m = aggregate("export K=\"X:$K\"", &seed).unwrap();
    assert_eq!(values_of(&m, "K"), Some(strings(&["Y", "X"])));
}

#[test]
fn reference_resolution_terminates_at_slash() {
    let seed = EnvMap::new();
    let m = aggregate("export B=hi\nexport A=$B/x", &seed).unwrap();
    assert_eq!(values_of(&m, "B"), Some(strings(&["hi"])));
    assert_eq!(values_of(&m, "A"), Some(strings(&["hi/x"])));
}

#[test]
fn forward_reference_fails() {
    let seed = EnvMap::new();
    match aggregate("export A=$B/x\nexport B=hi", &seed) {
        Err(e) => assert_eq!(e, EnvError::UnknownReference),
        Ok(_) => panic!("a forward reference must fail the aggregation"),
    }
}

#[test]
fn line_without_equals_is_malformed() {
    let seed = EnvMap::new();
    match aggregate("export KV", &seed) {
        Err(e) => assert_eq!(e, EnvError::MalformedLine),
        Ok(_) => panic!("a line without = must fail the aggregation"),
    }
}

#[test]
fn dangling_reference_is_malformed() {
    let seed = EnvMap::new();
    match aggregate("export K=$", &seed) {
        Err(e) => assert_eq!(e, EnvError::MalformedLine),
        Ok(_) => panic!("a $ with nothing after it must fail the aggregation"),
    }
    match aggregate("export K=a:b$/c", &seed) {
        Err(e) => assert_eq!(e, EnvError::MalformedLine),
        Ok(_) => panic!("a $ directly before / must fail the aggregation"),
    }
}

#[test]
fn multi_value_line_overrides() {
    let seed = map_of(&[("K", &["z"])]);
    let m = aggregate("export K=a:b", &seed).unwrap();
    assert_eq!(values_of(&m, "K"), Some(strings(&["a", "b"])));
}

#[test]
fn append_to_missing_key_inserts_values() {
    let seed = EnvMap::new();
    let m = aggregate("export K=a:$K", &seed).unwrap();
    assert_eq!(values_of(&m, "K"), Some(strings(&["a"])));
}

#[test]
fn all_self_tokens_leave_map_alone() {
    let seed = EnvMap::new();
    let m = aggregate("export K=$K:$K", &seed).unwrap();
    assert_eq!(values_of(&m, "K"), None);
    let seeded = map_of(&[("K", &["y"])]);
    let m2 = aggregate("export K=$K:$K", &seeded).unwrap();
    assert_eq!(values_of(&m2, "K"), Some(strings(&["y"])));
}

#[test]
fn quotes_are_stripped_from_values() {
    let seed = EnvMap::new();
    let m = aggregate("export K='a':\"b\"", &seed).unwrap();
    assert_eq!(values_of(&m, "K"), Some(strings(&["a", "b"])));
}

#[test]
fn later_lines_see_earlier_bindings() {
    let seed = EnvMap::new();
    let m = aggregate("export A=1\nexport B=$A", &seed).unwrap();
    assert_eq!(values_of(&m, "B"), Some(strings(&["1"])));
}

#[test]
fn empty_value_rejected_before_anything_else() {
    let seed = EnvMap::new();
    match add_variable("FOO", "", "export broken", &seed) {
        Err(e) => assert_eq!(e, EnvError::InvalidInput),
        Ok(_) => panic!("an empty value must be rejected"),
    }
}

#[test]
fn null_value_rejected_before_anything_else() {
    let seed = EnvMap::new();
    match add_variable("FOO", "a\0b", "export broken", &seed) {
        Err(e) => assert_eq!(e, EnvError::InvalidInput),
        Ok(_) => panic!("a value with a null character must be rejected"),
    }
}

#[test]
fn round_trip_add_then_duplicate() {
    let seed = EnvMap::new();
    let line = match add_variable("FOO", "bar", "", &seed) {
        Ok(AddOutcome::Added(line)) => line,
        other => panic!("expected Added, got {:?}", other),
    };
    assert_eq!(line, "\nexport FOO=\"bar\":$FOO");
    let file_text = line;
    match add_variable("FOO", "bar", &file_text, &seed) {
        Ok(AddOutcome::AlreadyPresent) => {}
        other => panic!("expected AlreadyPresent, got {:?}", other),
    }
}

#[test]
fn seeded_duplicate_reported_without_line() {
    let seed = map_of(&[("K", &["V"])]);
    match add_variable("K", "V", "", &seed) {
        Ok(AddOutcome::AlreadyPresent) => {}
        other => panic!("expected AlreadyPresent, got {:?}", other),
    }
}

#[test]
fn aggregation_failure_propagates_from_add() {
    let seed = EnvMap::new();
    match add_variable("K", "v", "export A=$B", &seed) {
        Err(e) => assert_eq!(e, EnvError::UnknownReference),
        Ok(_) => panic!("a broken profile must fail the add"),
    }
}

#[test]
fn is_duplicate_is_an_exact_member_test() {
    let m = map_of(&[("K", &["V", "W"])]);
    assert!(is_duplicate(&m, "K", "V"));
    assert!(is_duplicate(&m, "K", "W"));
    assert!(!is_duplicate(&m, "K", "X"));
    assert!(!is_duplicate(&m, "K", "v"));
    assert!(!is_duplicate(&m, "J", "V"));
}

#[test]
fn added_value_is_written_verbatim() {
    let seed = EnvMap::new();
    let line = match add_variable("K", "a:b", "", &seed) {
        Ok(AddOutcome::Added(line)) => line,
        other => panic!("expected Added, got {:?}", other),
    };
    assert_eq!(line, "\nexport K=\"a:b\":$K");
    // The reader colon-splits what the writer emitted as one token, so the
    // same submission is not recognized as a duplicate on the next pass:
    // the documented read/write asymmetry.
    match add_variable("K", "a:b", &line, &seed) {
        Ok(AddOutcome::Added(again)) => assert_eq!(again, "\nexport K=\"a:b\":$K"),
        other => panic!("expected Added again, got {:?}", other),
    }
}

#[test]
fn resolve_reference_extracts_the_key() {
    assert_eq!(resolve_reference("$B/x"), Some("B".to_string()));
    assert_eq!(resolve_reference("abc"), None);
    assert_eq!(resolve_reference("a$b"), Some("b".to_string()));
    assert_eq!(resolve_reference("$"), None);
    assert_eq!(resolve_reference("$/x"), None);
}

#[test]
fn substitute_replaces_only_the_reference() {
    let m = map_of(&[("B", &["hi", "later"])]);
    assert_eq!(substitute("$B/x", &m), Ok("hi/x".to_string()));
    assert_eq!(substitute("pre$B/x", &m), Ok("prehi/x".to_string()));
    assert_eq!(substitute("plain", &m), Ok("plain".to_string()));
    assert_eq!(substitute("$Z", &m), Err(EnvError::UnknownReference));
}

#[test]
fn decode_single_value_line() {
    let m = EnvMap::new();
    let (key, vals, append) = decode("export K=V", &m).unwrap();
    assert_eq!(key, "K");
    assert_eq!(vals, strings(&["V"]));
    assert!(!append);
}

#[test]
fn decode_drops_self_token_and_flags_append() {
    let m = map_of(&[("K", &["Y"])]);
    let (key, vals, append) = decode("export K=\"X:$K\"", &m).unwrap();
    assert_eq!(key, "K");
    assert_eq!(vals, strings(&["X"]));
    assert!(append);
}

#[test]
fn path_split_behind_existence_check() {
    assert_eq!(
        path_exists_combined_path("a/b/c.txt"),
        ("/a/b".to_string(), "c.txt".to_string())
    );
    assert_eq!(
        path_exists_combined_path("/etc/x"),
        ("//etc".to_string(), "x".to_string())
    );
    assert_eq!(
        path_exists_combined_path("file"),
        ("".to_string(), "file".to_string())
    );
    assert_eq!(
        path_exists_combined_path("a/"),
        ("/a".to_string(), "".to_string())
    );
}

#[test]
fn error_messages_are_stable() {
    assert_eq!(
        EnvError::InvalidInput.message(),
        "Invalid input, contains null character or is empty."
    );
    assert_eq!(
        EnvError::Write.message(),
        "Could not write to the shell profile file. Please write manually."
    );
}

#[test]
fn env_map_insert_overwrites_and_get_reports_absence() {
    let mut m = EnvMap::new();
    assert_eq!(values_of(&m, "A"), None);
    m.insert("A".to_string(), strings(&["1"]));
    m.insert("A".to_string(), strings(&["2", "3"]));
    assert_eq!(values_of(&m, "A"), Some(strings(&["2", "3"])));
    assert_eq!(m.entry_count(), 1);
}

#[test]
fn env_map_iteration_lists_bindings() {
    let m = map_of(&[("A", &["1"]), ("B", &["2"])]);
    let mut seen: Vec<(String, Vec<String>)> = Vec::new();
    for i in 0..m.entry_count() {
        let (k, vs) = m.entry_at(i);
        seen.push((k.clone(), vs.clone()));
    }
    seen.sort();
    assert_eq!(
        seen,
        vec![
            ("A".to_string(), strings(&["1"])),
            ("B".to_string(), strings(&["2"]))
        ]
    );
}
