use sush::database::DataBase;

fn fresh_db() -> DataBase {
    DataBase::new()
}

#[test]
fn new_database_has_defaults() {
    let mut db = fresh_db();
    assert_eq!(db.get_layer_num(), 1);
    assert_eq!(db.exit_status, 0);
    assert_eq!(db.get_param("OPTIND").unwrap(), "1");
    assert_eq!(db.get_param("BASH_SUBSHELL").unwrap(), "0");
}

#[test]
fn set_and_get_param() {
    let mut db = fresh_db();
    db.set_param("X", "hello").unwrap();
    assert_eq!(db.get_param("X").unwrap(), "hello");
    db.set_param("X", "world").unwrap();
    assert_eq!(db.get_param("X").unwrap(), "world");
}

#[test]
fn invalid_identifier_is_refused() {
    let mut db = fresh_db();
    assert!(db.set_param("a-b", "x").is_err());
    assert!(db.get_param("a-b").is_err());
}

#[test]
fn layer_scoping_pop_restores_outer_value() {
    // Setting inside a pushed layer dies with the pop; the outer value
    // comes back.
    let mut db = fresh_db();
    db.set_param("V", "outer").unwrap();
    db.push_local();
    let inner_layer = db.get_layer_num() - 1;
    db.set_layer_param("V", "inner", inner_layer).unwrap();
    assert_eq!(db.get_param("V").unwrap(), "inner");
    db.pop_local();
    assert_eq!(db.get_param("V").unwrap(), "outer");
}

#[test]
fn layer_scoping_fresh_name_vanishes() {
    let mut db = fresh_db();
    db.push_local();
    let inner_layer = db.get_layer_num() - 1;
    db.set_layer_param("LOCALONLY", "x", inner_layer).unwrap();
    db.pop_local();
    assert_eq!(db.get_param("LOCALONLY").unwrap(), "");
}

#[test]
fn readonly_set_fails_and_value_survives() {
    let mut db = fresh_db();
    db.set_param("R", "locked").unwrap();
    db.set_flag("R", 'r');
    let r = db.set_param("R", "changed");
    assert!(r.is_err());
    assert_eq!(db.exit_status, 1);
    assert_eq!(db.get_param("R").unwrap(), "locked");
}

#[test]
fn readonly_blocks_array_and_assoc_writes() {
    let mut db = fresh_db();
    db.set_param("R", "locked").unwrap();
    db.set_flag("R", 'r');
    assert!(db.set_array_elem("R", &"x".to_string(), 0).is_err());
    assert!(db.set_assoc_elem("R", &"k".to_string(), &"v".to_string()).is_err());
    assert_eq!(db.get_param("R").unwrap(), "locked");
}

#[test]
fn readonly_dies_with_its_layer() {
    let mut db = fresh_db();
    db.push_local();
    let inner_layer = db.get_layer_num() - 1;
    db.set_layer_param("T", "inner", inner_layer).unwrap();
    db.set_flag("T", 'r');
    assert!(db.set_param("T", "nope").is_err());
    db.pop_local();
    // The readonly binding lived in the popped layer.
    db.set_param("T", "fine").unwrap();
    assert_eq!(db.get_param("T").unwrap(), "fine");
}

#[test]
fn array_elements_and_listing() {
    let mut db = fresh_db();
    db.set_array("A", vec!["a".to_string(), "b".to_string()]).unwrap();
    assert_eq!(db.get_array("A", "0"), "a");
    assert_eq!(db.get_array("A", "1"), "b");
    assert_eq!(db.get_array("A", "2"), "");
    assert_eq!(db.get_array("A", "@"), "a b");
    assert_eq!(db.len("A"), 2);
    assert!(db.is_array("A"));
    assert!(!db.is_assoc("A"));
}

#[test]
fn array_element_write_grows_the_array() {
    let mut db = fresh_db();
    db.set_array_elem("G", &"x".to_string(), 2).unwrap();
    assert_eq!(db.len("G"), 3);
    assert_eq!(db.get_array("G", "0"), "");
    assert_eq!(db.get_array("G", "2"), "x");
}

#[test]
fn assoc_elements() {
    let mut db = fresh_db();
    db.set_assoc("M").unwrap();
    db.set_assoc_elem("M", &"k".to_string(), &"v".to_string()).unwrap();
    db.set_assoc_elem("M", &"k2".to_string(), &"w".to_string()).unwrap();
    assert_eq!(db.get_array("M", "k"), "v");
    assert_eq!(db.get_array("M", "k2"), "w");
    assert_eq!(db.len("M"), 2);
    assert!(db.is_assoc("M"));
}

#[test]
fn type_mismatch_is_refused() {
    let mut db = fresh_db();
    db.set_param("S", "scalar").unwrap();
    assert!(db.set_assoc_elem("S", &"k".to_string(), &"v".to_string()).is_err());
    assert!(db.set_array_elem("S", &"v".to_string(), 0).is_err());
}

#[test]
fn unset_removes_every_binding() {
    let mut db = fresh_db();
    db.set_param("U", "one").unwrap();
    db.push_local();
    let inner_layer = db.get_layer_num() - 1;
    db.set_layer_param("U", "two", inner_layer).unwrap();
    db.unset("U");
    assert_eq!(db.get_param("U").unwrap(), "");
    db.pop_local();
    assert_eq!(db.get_param("U").unwrap(), "");
}

#[test]
fn special_parameters() {
    let mut db = fresh_db();
    db.exit_status = 42;
    assert_eq!(db.get_param("?").unwrap(), "42");
    db.flags.push_str("x");
    assert_eq!(db.get_param("-").unwrap(), "Bx");
    db.last_arg = "zzz".to_string();
    assert_eq!(db.get_param("_").unwrap(), "zzz");
}

#[test]
fn position_parameters() {
    let mut db = fresh_db();
    db.position_parameters = vec![vec![
        "sush".to_string(),
        "one".to_string(),
        "two".to_string(),
    ]];
    assert_eq!(db.get_param("#").unwrap(), "2");
    assert_eq!(db.get_param("1").unwrap(), "one");
    assert_eq!(db.get_param("2").unwrap(), "two");
    assert_eq!(db.get_param("3").unwrap(), "");
    assert_eq!(db.get_param("@").unwrap(), "one two");
    assert_eq!(db.get_param("*").unwrap(), "one two");
}

#[test]
fn environment_fallback_is_cached() {
    let mut db = fresh_db();
    db.init_env_var("IMPORTED", "from-env");
    assert!(!db.has_value("IMPORTED"));
    assert_eq!(db.get_param("IMPORTED").unwrap(), "from-env");
    // Cached as a global binding now.
    assert!(db.has_value("IMPORTED"));
    // A later environment change no longer matters for reads.
    db.init_env_var("IMPORTED", "changed");
    assert_eq!(db.get_param("IMPORTED").unwrap(), "from-env");
}

#[test]
fn exported_writes_mirror_into_environment() {
    let mut db = fresh_db();
    db.init_env_var("PATHISH", "old");
    db.set_param("PATHISH", "new").unwrap();
    let pairs = db.env_pairs();
    let found = pairs.iter().find(|p| p.0 == "PATHISH").unwrap();
    assert_eq!(found.1, "new");
}

#[test]
fn dynamic_random_is_in_range() {
    let mut db = fresh_db();
    let v1: i64 = db.get_param("RANDOM").unwrap().parse().unwrap();
    let v2: i64 = db.get_param("RANDOM").unwrap().parse().unwrap();
    assert!((0..32768).contains(&v1));
    assert!((0..32768).contains(&v2));
}

#[test]
fn seconds_start_near_zero() {
    let mut db = fresh_db();
    let v: i64 = db.get_param("SECONDS").unwrap().parse().unwrap();
    assert!((0..5).contains(&v));
}

#[test]
fn flip_exit_status_toggles() {
    let mut db = fresh_db();
    db.exit_status = 0;
    db.flip_exit_status();
    assert_eq!(db.exit_status, 1);
    db.flip_exit_status();
    assert_eq!(db.exit_status, 0);
    db.exit_status = 37;
    db.flip_exit_status();
    assert_eq!(db.exit_status, 0);
}

#[test]
fn alias_cycle_guard_expands_once() {
    // alias ls='ls -a'; invoking ls expands exactly once and stops.
    let mut db = fresh_db();
    db.flags.push_str("i");
    db.set_alias("ls", "ls -a");
    let mut word = "ls".to_string();
    assert!(db.replace_alias(&mut word));
    assert_eq!(word, "ls -a");
}

#[test]
fn alias_two_cycle_terminates() {
    let mut db = fresh_db();
    db.flags.push_str("i");
    db.set_alias("a", "b one");
    db.set_alias("b", "a two");
    let mut word = "a".to_string();
    assert!(db.replace_alias(&mut word));
    // One substitution per distinct first token, then the guard stops.
    assert_eq!(word, "a two one");
}

#[test]
fn alias_needs_interactive_flag() {
    let mut db = fresh_db();
    db.set_alias("ls", "ls -a");
    let mut word = "ls".to_string();
    assert!(!db.replace_alias(&mut word));
    assert_eq!(word, "ls");
}

#[test]
fn alias_memo_records_substitutions() {
    let mut db = fresh_db();
    db.flags.push_str("i");
    db.set_alias("g", "git");
    let mut word = "g status".to_string();
    assert!(db.replace_alias(&mut word));
    assert_eq!(word, "git status");
    assert_eq!(db.alias_memo.len(), 1);
    assert_eq!(db.alias_memo[0].0, "g status");
    assert_eq!(db.alias_memo[0].1, "git status");
}

#[test]
fn unset_alias_and_clear() {
    let mut db = fresh_db();
    db.set_alias("x", "y");
    assert!(db.unset_alias("x"));
    assert!(!db.unset_alias("x"));
    db.set_alias("x", "y");
    db.clear_aliases();
    assert!(db.get_alias("x").is_none());
}

#[test]
fn functions_table() {
    let mut db = fresh_db();
    db.set_function("greet", "greet() { echo hi; }");
    assert_eq!(db.get_function("greet").unwrap(), "greet() { echo hi; }");
    db.unset_function("greet");
    assert!(db.get_function("greet").is_none());
}

#[test]
fn get_keys_is_sorted_and_unique() {
    let mut db = fresh_db();
    db.set_param("zz", "1").unwrap();
    db.set_param("aa", "2").unwrap();
    db.set_function("mm", "mm() { :; }");
    db.push_local();
    let inner_layer = db.get_layer_num() - 1;
    db.set_layer_param("aa", "shadow", inner_layer).unwrap();
    let keys = db.get_keys();
    let aa = keys.iter().position(|k| k == "aa").unwrap();
    let mm = keys.iter().position(|k| k == "mm").unwrap();
    let zz = keys.iter().position(|k| k == "zz").unwrap();
    assert!(aa < mm && mm < zz);
    assert_eq!(keys.iter().filter(|k| k.as_str() == "aa").count(), 1);
    let mut sorted = keys.clone();
    sorted.sort();
    assert_eq!(keys, sorted);
}

#[test]
fn last_arg_notes_the_last_word() {
    let mut db = fresh_db();
    db.note_last_arg(&vec!["echo".to_string(), "a".to_string(), "b".to_string()]);
    assert_eq!(db.get_param("_").unwrap(), "b");
    db.note_last_arg(&vec![]);
    assert_eq!(db.get_param("_").unwrap(), "b");
}

#[test]
fn seconds_reset_starts_from_offset() {
    let mut db = fresh_db();
    db.reset_seconds(100);
    let v: i64 = db.get_param("SECONDS").unwrap().parse().unwrap();
    assert!((100..105).contains(&v));
}

#[test]
fn home_comes_from_the_environment() {
    let mut db = fresh_db();
    db.init_env_var("HOME", "/home/someone");
    assert_eq!(db.get_param("HOME").unwrap(), "/home/someone");
}

#[test]
fn export_attribute_mirrors_new_names() {
    let mut db = fresh_db();
    db.set_param("EXP", "one").unwrap();
    let pairs_before = db.env_pairs();
    assert!(pairs_before.iter().all(|p| p.0 != "EXP"));
    db.set_flag("EXP", 'x');
    db.set_param("EXP", "two").unwrap();
    let pairs = db.env_pairs();
    assert_eq!(pairs.iter().find(|p| p.0 == "EXP").unwrap().1, "two");
}
