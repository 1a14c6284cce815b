use lovely_mod_manager::ledger::{
    parse_modspec, parse_state, read_expectfile, write_state, InstalledLedger, ParseError,
};

#[test]
fn serialize_one_enabled_entry() {
    let mut led = InstalledLedger::new();
    led.insert("ns@mod".to_string(), true, "1.0.0".to_string());
    assert_eq!(led.serialize(), "/ns@mod/1.0.0\n");
}

#[test]
fn serialize_one_disabled_entry() {
    let mut led = InstalledLedger::new();
    led.insert("ns@mod".to_string(), false, "1.0.0".to_string());
    assert_eq!(led.serialize(), "-/ns@mod/1.0.0\n");
}

#[test]
fn round_trip_non_empty_ledger() {
    let mut led = InstalledLedger::new();
    led.insert("ns@alpha".to_string(), true, "1.0.0".to_string());
    led.insert("ns@beta".to_string(), false, "2.3".to_string());
    led.insert("other@gamma".to_string(), true, "0.1".to_string());
    let text = led.serialize();
    let (back, skipped) = read_expectfile(&text);
    assert_eq!(skipped, 0);
    assert_eq!(back.len(), 3);
    for i in 0..back.len() {
        let e = back.entry_at(i);
        assert!(back.get(&e.id).is_some());
    }
    let a = back.get("ns@alpha").expect("alpha");
    assert!(a.enabled);
    assert_eq!(a.version, "1.0.0");
    let b = back.get("ns@beta").expect("beta");
    assert!(!b.enabled);
    assert_eq!(b.version, "2.3");
    let c = back.get("other@gamma").expect("gamma");
    assert!(c.enabled);
    assert_eq!(c.version, "0.1");
}

#[test]
fn read_skips_malformed_lines_with_warning() {
    let text = "/a@b/1.0\ngarbage\n-/c@d/2.0\n\n   \n//missing-id/3\n";
    let (led, skipped) = read_expectfile(text);
    assert_eq!(led.len(), 2);
    assert_eq!(skipped, 2); // "garbage" and the empty-id line; blanks are not warned about
    assert!(led.get("a@b").unwrap().enabled);
    assert!(!led.get("c@d").unwrap().enabled);
}

#[test]
fn read_later_line_wins_for_same_id() {
    let (led, skipped) = read_expectfile("/a@b/1.0\n-/a@b/2.0\n");
    assert_eq!(skipped, 0);
    assert_eq!(led.len(), 1);
    let e = led.get("a@b").unwrap();
    assert!(!e.enabled);
    assert_eq!(e.version, "2.0");
}

#[test]
fn read_absent_file_text_is_empty_ledger() {
    let (led, skipped) = read_expectfile("");
    assert_eq!(led.len(), 0);
    assert_eq!(skipped, 0);
}

#[test]
fn read_tolerates_crlf_and_surrounding_blanks() {
    let (led, skipped) = read_expectfile("/a@b/1.0\r\n  -/c@d/2.0  \r\n");
    assert_eq!(skipped, 0);
    assert_eq!(led.len(), 2);
    assert_eq!(led.get("a@b").unwrap().version, "1.0");
    assert!(!led.get("c@d").unwrap().enabled);
}

#[test]
fn parse_modspec_accepts_both_flags() {
    let e = parse_modspec("/ns@mod/1.0.0").unwrap();
    assert!(e.enabled);
    assert_eq!(e.id, "ns@mod");
    assert_eq!(e.version, "1.0.0");
    let d = parse_modspec("-/ns@mod/1.0.0").unwrap();
    assert!(!d.enabled);
}

#[test]
fn parse_modspec_rejects_bad_shapes() {
    assert_eq!(parse_modspec("noslash"), Err(ParseError::BadFormat));
    assert_eq!(parse_modspec("one/slash"), Err(ParseError::BadFormat));
    assert_eq!(parse_modspec("/too/many/slashes"), Err(ParseError::BadFormat));
    assert_eq!(parse_modspec("x/id/1.0"), Err(ParseError::BadFormat));
    assert_eq!(parse_modspec("//1.0"), Err(ParseError::EmptyId));
    assert_eq!(parse_modspec("/id/"), Err(ParseError::EmptyVersion));
}

#[test]
fn parse_error_messages_are_identifiable() {
    assert_eq!(ParseError::EmptyInput.message(), "statefile can't be empty");
    assert_eq!(ParseError::BadFormat.message(), "invalid modspec format");
    assert_eq!(ParseError::EmptyId.message(), "id can't be empty");
    assert_eq!(ParseError::EmptyVersion.message(), "version can't be empty");
}

#[test]
fn write_state_format() {
    assert_eq!(write_state("ns@mod", "1.0.0"), "ns@mod/1.0.0");
}

#[test]
fn parse_state_reads_first_nonblank_line() {
    let (id, version) = parse_state("\n   \nns@mod/1.0.0\nleftover\n").unwrap();
    assert_eq!(id, "ns@mod");
    assert_eq!(version, "1.0.0");
}

#[test]
fn parse_state_round_trips_written_statefile() {
    let text = write_state("ns@mod", "1.0.0");
    assert_eq!(parse_state(&text), Ok(("ns@mod".to_string(), "1.0.0".to_string())));
}

#[test]
fn parse_state_version_may_hold_separators() {
    let (id, version) = parse_state("ns@mod/1.0/beta").unwrap();
    assert_eq!(id, "ns@mod");
    assert_eq!(version, "1.0/beta");
}

#[test]
fn parse_state_error_variants() {
    assert_eq!(parse_state(""), Err(ParseError::EmptyInput));
    assert_eq!(parse_state("\n  \n"), Err(ParseError::EmptyInput));
    assert_eq!(parse_state("noslash"), Err(ParseError::BadFormat));
    assert_eq!(parse_state("/1.0"), Err(ParseError::EmptyId));
    assert_eq!(parse_state("id/"), Err(ParseError::EmptyVersion));
}

#[test]
fn ledger_insert_replaces_in_place_and_remove_forgets() {
    let mut led = InstalledLedger::new();
    led.insert("a".to_string(), true, "1".to_string());
    led.insert("b".to_string(), true, "1".to_string());
    led.insert("a".to_string(), false, "2".to_string());
    assert_eq!(led.len(), 2);
    assert_eq!(led.serialize(), "-/a/2\n/b/1\n");
    assert!(led.remove("a"));
    assert!(!led.remove("a"));
    assert_eq!(led.serialize(), "/b/1\n");
    assert!(led.get("a").is_none());
}
