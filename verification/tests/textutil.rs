use sush::completion::{drop_unmatch, get_head, opt_to_action, replace_args_compgen};
use sush::feeder::{input_error_status, InputError};
use sush::paths::{make_absolute_path, make_canonical_path};
use sush::text;

#[test]
fn number_rendering() {
    assert_eq!(text::u64_to_string(0), "0");
    assert_eq!(text::u64_to_string(12345), "12345");
    assert_eq!(text::i64_to_string(-42), "-42");
    assert_eq!(text::i32_to_string(i32::MIN), "-2147483648");
    assert_eq!(text::i64_to_string(i64::MIN), "-9223372036854775808");
}

#[test]
fn number_parsing() {
    assert_eq!(text::parse_usize("0"), Some(0));
    assert_eq!(text::parse_usize("4096"), Some(4096));
    assert_eq!(text::parse_usize(""), None);
    assert_eq!(text::parse_usize("12a"), None);
    assert_eq!(text::parse_usize("99999999999999999999999"), None);
    assert_eq!(text::parse_i64("-17"), Some(-17));
    assert_eq!(text::parse_i64("17"), Some(17));
    assert_eq!(text::parse_i64("-"), None);
}

#[test]
fn parse_then_render_round_trip() {
    for n in [0u64, 1, 9, 10, 65535, 4294967295] {
        let s = text::u64_to_string(n);
        assert_eq!(text::parse_usize(&s), Some(n as usize));
    }
}

#[test]
fn string_helpers() {
    assert!(text::str_eq("abc", "abc"));
    assert!(!text::str_eq("abc", "abd"));
    assert!(text::str_contains_char("xyz", 'y'));
    assert!(!text::str_contains_char("xyz", 'q'));
    assert!(text::str_has_prefix("hello", "he"));
    assert!(!text::str_has_prefix("he", "hello"));
    assert_eq!(text::substring_copy("abcdef", 2, 4), "cd");
}

#[test]
fn join_strings_with_separator() {
    let parts = vec!["a".to_string(), "b".to_string(), "c".to_string()];
    assert_eq!(text::join_strings(&parts, " "), "a b c");
    assert_eq!(text::join_strings(&parts, ""), "abc");
    let empty: Vec<String> = vec![];
    assert_eq!(text::join_strings(&empty, " "), "");
    let one = vec!["solo".to_string()];
    assert_eq!(text::join_strings(&one, ":"), "solo");
}

#[test]
fn compgen_argument_helpers() {
    let mut args = vec!["compgen".to_string(), "-A".to_string(), "command".to_string(), "g".to_string()];
    assert!(replace_args_compgen(&mut args));
    assert_eq!(args, vec!["compgen", "-c", "g"]);

    let mut plain = vec!["compgen".to_string(), "-f".to_string()];
    assert!(replace_args_compgen(&mut plain));
    assert_eq!(plain, vec!["compgen", "-f"]);
}

#[test]
fn head_argument_selection() {
    let args = vec!["compgen".to_string(), "-c".to_string(), "pre".to_string()];
    assert_eq!(get_head(&args, 2), "pre");
    let dashed = vec!["compgen".to_string(), "-c".to_string(), "--".to_string(), "p2".to_string()];
    assert_eq!(get_head(&dashed, 2), "p2");
    assert_eq!(get_head(&args, 7), "");
}

#[test]
fn drop_unmatch_filters_by_prefix() {
    let args = vec!["compgen".to_string(), "-c".to_string(), "ca".to_string()];
    let mut list = vec!["cat".to_string(), "dog".to_string(), "car".to_string()];
    drop_unmatch(&args, 2, &mut list);
    assert_eq!(list, vec!["cat", "car"]);

    let no_head = vec!["compgen".to_string()];
    let mut all = vec!["a".to_string(), "b".to_string()];
    drop_unmatch(&no_head, 2, &mut all);
    assert_eq!(all, vec!["a", "b"]);
}

#[test]
fn option_to_action_names() {
    assert_eq!(opt_to_action("-c"), "command");
    assert_eq!(opt_to_action("-j"), "job");
    assert_eq!(opt_to_action("-u"), "user");
    assert_eq!(opt_to_action("-v"), "variable");
    assert_eq!(opt_to_action("-z"), "");
}

#[test]
fn file_checks_on_known_paths() {
    assert!(sush::file_check::is_dir(&"/".to_string()));
    assert!(!sush::file_check::is_file(&"/".to_string()));
    assert!(!sush::file_check::is_dir(&"/no/such/path/anywhere".to_string()));
}

#[test]
fn epoch_clock_shapes() {
    let mut db = sush::database::DataBase::new();
    let epoch = db.get_param("EPOCHSECONDS").unwrap();
    assert!(epoch.parse::<i64>().unwrap() > 1_500_000_000);
    let real = db.get_param("EPOCHREALTIME").unwrap();
    let dot = real.find('.').unwrap();
    assert_eq!(real.len() - dot - 1, 6);
}

#[test]
fn absolute_paths() {
    assert_eq!(make_absolute_path("/home/u", "/tmp", "/etc/hosts"), "/etc/hosts");
    assert_eq!(make_absolute_path("/home/u", "/tmp", "~/notes"), "/home/u/notes");
    assert_eq!(make_absolute_path("/home/u", "/tmp", "file"), "/tmp/file");
    assert_eq!(make_absolute_path("", "/tmp", "~/notes"), "");
}

#[test]
fn canonical_paths() {
    assert_eq!(make_canonical_path("/a/b/../c"), "/a/c");
    assert_eq!(make_canonical_path("/a/./b//c"), "/a/b/c");
    assert_eq!(make_canonical_path("/../x"), "/x");
    assert_eq!(make_canonical_path("/a/b/.."), "/a");
}

#[test]
fn input_error_statuses() {
    assert_eq!(input_error_status(&InputError::Eof), 2);
    assert_eq!(input_error_status(&InputError::Interrupt), 130);
}
