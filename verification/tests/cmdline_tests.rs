use gnome_session_restore::cmdline::{parse_cmdline_record, substitute_recovered_executable};
use gnome_session_restore::find_command::FindError;

#[test]
fn nul_separated_record_parses() {
    let parsed = parse_cmdline_record(&b"firefox\0--private\0".to_vec()).unwrap();
    assert_eq!(parsed.args, vec!["firefox".to_string(), "--private".to_string()]);
    assert!(!parsed.space_recovered);
}

#[test]
fn space_joined_record_is_recovered() {
    let parsed = parse_cmdline_record(&b"firefox --private".to_vec()).unwrap();
    assert_eq!(parsed.args, vec!["firefox".to_string(), "--private".to_string()]);
    assert!(parsed.space_recovered);
}

#[test]
fn recovered_executable_is_substituted() {
    let parsed = parse_cmdline_record(&b"firefox --private".to_vec()).unwrap();
    assert!(parsed.space_recovered);
    let fixed = substitute_recovered_executable(
        parsed.args,
        false,
        Some("/usr/lib/firefox/firefox".to_string()),
    );
    assert_eq!(fixed, vec!["/usr/lib/firefox/firefox".to_string(), "--private".to_string()]);
}

#[test]
fn existing_executable_is_kept() {
    let parsed = parse_cmdline_record(&b"/usr/bin/firefox --private".to_vec()).unwrap();
    let fixed = substitute_recovered_executable(
        parsed.args,
        true,
        Some("/usr/lib/firefox/firefox".to_string()),
    );
    assert_eq!(fixed, vec!["/usr/bin/firefox".to_string(), "--private".to_string()]);
}

#[test]
fn unresolved_link_keeps_original_token() {
    let parsed = parse_cmdline_record(&b"firefox --private".to_vec()).unwrap();
    let fixed = substitute_recovered_executable(parsed.args, false, None);
    assert_eq!(fixed, vec!["firefox".to_string(), "--private".to_string()]);
}

#[test]
fn empty_record_is_zombie() {
    let r = parse_cmdline_record(&Vec::new());
    assert_eq!(r.unwrap_err(), FindError::ProcessIsZombie);
}

#[test]
fn record_of_only_separators_is_zombie() {
    let r = parse_cmdline_record(&b"\0\0".to_vec());
    assert_eq!(r.unwrap_err(), FindError::ProcessIsZombie);
}

#[test]
fn record_of_only_spaces_is_zombie() {
    let r = parse_cmdline_record(&b"   ".to_vec());
    assert_eq!(r.unwrap_err(), FindError::ProcessIsZombie);
}

#[test]
fn empty_fields_are_dropped() {
    let parsed = parse_cmdline_record(&b"\0a\0\0b\0".to_vec()).unwrap();
    assert_eq!(parsed.args, vec!["a".to_string(), "b".to_string()]);
    assert!(!parsed.space_recovered);
}

#[test]
fn single_field_without_space_stays_whole() {
    let parsed = parse_cmdline_record(&b"/usr/bin/xterm".to_vec()).unwrap();
    assert_eq!(parsed.args, vec!["/usr/bin/xterm".to_string()]);
    assert!(!parsed.space_recovered);
}
