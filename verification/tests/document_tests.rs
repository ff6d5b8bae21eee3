use hackatime_setup::document::{
    classify_line, is_plain_value, key_of, make_line, section_name, value_of, ConfigDocument,
    LineKind, Lookup,
};

const URL_LINE: &[u8] = b"api_url = https://hackatime.hackclub.com/api/hackatime/v1";

fn lines_of(doc: &ConfigDocument) -> Vec<Vec<u8>> {
    (0..doc.line_count()).map(|i| doc.line(i)).collect()
}

#[test]
fn parse_then_serialize_is_identity() {
    let inputs: Vec<&[u8]> = vec![
        b"",
        b"\n",
        b"\n\n\n",
        b"[settings]\napi_key = abc",
        b"[settings]\napi_key = abc\n",
        b"[settings]\r\napi_key = abc\r\n",
        b"no section\n\n[other]\nx=1\n",
        b"api_key api_key_without_equals",
        b"\xff\xfe binary \x00 junk\n[settings",
    ];
    for input in inputs {
        let doc = ConfigDocument::parse(input);
        assert_eq!(doc.serialize(), input.to_vec());
        assert!(!doc.is_dirty());
        assert!(!doc.is_created());
        assert!(doc.pending_write().is_none());
    }
}

#[test]
fn parse_splits_at_line_feeds_only() {
    let doc = ConfigDocument::parse(b"a\r\nb\n\nc\n");
    assert_eq!(
        lines_of(&doc),
        vec![b"a\r".to_vec(), b"b".to_vec(), b"".to_vec(), b"c".to_vec(), b"".to_vec()]
    );
    let empty = ConfigDocument::parse(b"");
    assert_eq!(empty.line_count(), 1);
    assert_eq!(empty.line(0), b"".to_vec());
}

#[test]
fn get_reads_last_value_in_section() {
    let doc = ConfigDocument::parse(
        b"api_key = outside\n[Settings]\napi_key = one\napi_key =  two\0 \n[other]\napi_key = three",
    );
    assert_eq!(doc.get(b"settings", b"api_key"), Lookup::Value(b"two".to_vec()));
    assert_eq!(doc.get(b"SETTINGS", b"api_key"), Lookup::Value(b"two".to_vec()));
    assert_eq!(doc.get(b"other", b"api_key"), Lookup::Value(b"three".to_vec()));
    assert_eq!(doc.get(b"settings", b"api_url"), Lookup::Absent);
    assert_eq!(doc.get(b"settings", b"API_KEY"), Lookup::Absent);
    assert_eq!(doc.get(b"missing", b"api_key"), Lookup::Absent);
    assert_eq!(doc.locate(b"settings", b"api_key"), Some(3));
    assert_eq!(doc.locate(b"other", b"api_key"), Some(5));
    assert_eq!(doc.locate(b"settings", b"nothing"), None);
}

#[test]
fn get_ignores_lines_before_any_section() {
    let doc = ConfigDocument::parse(b"api_key = abc\nbroken line\n");
    assert_eq!(doc.get(b"settings", b"api_key"), Lookup::Absent);
    assert_eq!(doc.first_malformed(b"settings"), None);
}

#[test]
fn value_is_trimmed_then_freed_of_nul() {
    assert_eq!(value_of(b"k =  v  "), b"v".to_vec());
    assert_eq!(value_of(b"k=a\0b\0"), b"ab".to_vec());
    assert_eq!(value_of(b"k = x \0"), b"x ".to_vec());
    assert_eq!(value_of(b"k ="), b"".to_vec());
    assert_eq!(value_of(b"no equals"), b"".to_vec());
    assert_eq!(value_of(b"k = v\r"), b"v".to_vec());
    assert_eq!(key_of(b"  api_key\t= v"), b"api_key".to_vec());
    assert_eq!(key_of(b"= v"), b"".to_vec());
}

#[test]
fn lines_are_classified() {
    assert_eq!(classify_line(b""), LineKind::Blank);
    assert_eq!(classify_line(b" \t\r"), LineKind::Blank);
    assert_eq!(classify_line(b"# a = b = c"), LineKind::Comment);
    assert_eq!(classify_line(b"  ; note"), LineKind::Comment);
    assert_eq!(classify_line(b"[settings]"), LineKind::Header);
    assert_eq!(classify_line(b"  [a=b]  "), LineKind::Header);
    assert_eq!(classify_line(b"[]"), LineKind::Header);
    assert_eq!(classify_line(b"api_key = abc"), LineKind::Setting);
    assert_eq!(classify_line(b"="), LineKind::Setting);
    assert_eq!(classify_line(b"api_key api_key_without_equals"), LineKind::Malformed);
    assert_eq!(classify_line(b"a = b = c"), LineKind::Malformed);
    assert_eq!(classify_line(b"["), LineKind::Malformed);
    assert_eq!(classify_line(b"[open = 1"), LineKind::Setting);
    assert_eq!(section_name(b" [SetTings] "), b"settings".to_vec());
    assert_eq!(section_name(b"[ Spaced ]"), b" spaced ".to_vec());
}

#[test]
fn malformed_settings_line_is_reported() {
    let doc = ConfigDocument::parse(b"[settings]\napi_url = x\napi_key api_key_without_equals\na=b=c");
    assert_eq!(doc.first_malformed(b"settings"), Some(2));
    assert_eq!(doc.get(b"settings", b"api_url"), Lookup::Malformed(2));
    assert_eq!(doc.get(b"settings", b"api_key"), Lookup::Malformed(2));
    assert_eq!(doc.first_malformed(b"other"), None);
}

#[test]
fn malformed_line_elsewhere_is_not_reported() {
    let doc = ConfigDocument::parse(b"[other]\nthis is not a setting\n[settings]\n\n# note\napi_key = k\n");
    assert_eq!(doc.first_malformed(b"settings"), None);
    assert_eq!(doc.first_malformed(b"other"), Some(1));
    assert_eq!(doc.get(b"settings", b"api_key"), Lookup::Value(b"k".to_vec()));
}

#[test]
fn set_rewrites_the_deciding_line_in_place() {
    let mut doc = ConfigDocument::parse(b"# top\n[settings]\napi_key=old\ndebug = true\napi_key = older\n[x]\ny = 1");
    doc.set(b"settings", b"api_key", b"new");
    assert!(doc.is_dirty());
    assert_eq!(
        doc.serialize(),
        b"# top\n[settings]\napi_key=old\ndebug = true\napi_key = new\n[x]\ny = 1".to_vec()
    );
    assert_eq!(doc.get(b"settings", b"api_key"), Lookup::Value(b"new".to_vec()));
    assert_eq!(doc.pending_write(), Some(doc.serialize()));
}

#[test]
fn set_with_the_same_value_changes_nothing() {
    let input: &[u8] = b"[settings]\napi_key=  same\0  \n";
    let mut doc = ConfigDocument::parse(input);
    doc.set(b"settings", b"api_key", b"same");
    assert!(!doc.is_dirty());
    assert_eq!(doc.serialize(), input.to_vec());
    assert_eq!(doc.pending_write(), None);
}

#[test]
fn set_appends_a_missing_key_at_the_end() {
    let mut doc = ConfigDocument::parse(b"[settings]\napi_key = k");
    doc.set(b"settings", b"api_url", b"https://hackatime.hackclub.com/api/hackatime/v1");
    assert!(doc.is_dirty());
    assert_eq!(
        lines_of(&doc),
        vec![b"[settings]".to_vec(), b"api_key = k".to_vec(), URL_LINE.to_vec()]
    );
    assert_eq!(
        doc.get(b"settings", b"api_url"),
        Lookup::Value(b"https://hackatime.hackclub.com/api/hackatime/v1".to_vec())
    );
}

#[test]
fn set_twice_is_set_once() {
    let mut doc = ConfigDocument::parse(b"[settings]\n");
    doc.set(b"settings", b"api_key", b"k");
    let once = doc.serialize();
    doc.set(b"settings", b"api_key", b"k");
    assert_eq!(doc.serialize(), once);
    assert_eq!(once, b"[settings]\n\napi_key = k".to_vec());
}

#[test]
fn appended_line_belongs_to_the_last_section() {
    let mut doc = ConfigDocument::parse(b"[settings]\napi_key = k\n[other]\nx = 1");
    doc.set(b"settings", b"api_url", b"u");
    assert_eq!(doc.serialize(), b"[settings]\napi_key = k\n[other]\nx = 1\napi_url = u".to_vec());
    assert_eq!(doc.get(b"settings", b"api_url"), Lookup::Absent);
    assert_eq!(doc.get(b"other", b"api_url"), Lookup::Value(b"u".to_vec()));
}

#[test]
fn set_never_touches_a_malformed_line() {
    let mut doc = ConfigDocument::parse(b"[settings]\napi_key api_key_without_equals\napi_key = a");
    doc.set(b"settings", b"api_key", b"b");
    doc.set(b"settings", b"api_url", b"u");
    assert_eq!(doc.line(1), b"api_key api_key_without_equals".to_vec());
    assert_eq!(doc.first_malformed(b"settings"), Some(1));
}

#[test]
fn minimal_document_is_the_new_file() {
    let doc = ConfigDocument::minimal();
    assert!(doc.is_created());
    assert!(!doc.is_dirty());
    let expected: &[u8] = b"[settings]\napi_url = https://hackatime.hackclub.com/api/hackatime/v1\napi_key = \nheartbeat_rate_limit_seconds = 30";
    assert_eq!(doc.serialize(), expected.to_vec());
    assert_eq!(doc.pending_write(), Some(expected.to_vec()));
    assert_eq!(doc.first_malformed(b"settings"), None);
    assert_eq!(doc.get(b"settings", b"api_key"), Lookup::Value(Vec::new()));
    assert_eq!(doc.get(b"settings", b"heartbeat_rate_limit_seconds"), Lookup::Value(b"30".to_vec()));
}

#[test]
fn make_line_joins_key_and_value() {
    assert_eq!(make_line(b"api_key", b"abc"), b"api_key = abc".to_vec());
    assert_eq!(make_line(b"", b""), b" = ".to_vec());
}

#[test]
fn serialize_then_parse_gives_the_lines_back() {
    let mut doc = ConfigDocument::parse(b"[settings]\napi_key = a\n");
    doc.set(b"settings", b"api_key", b"b");
    let again = ConfigDocument::parse(&doc.serialize());
    assert_eq!(lines_of(&again), lines_of(&doc));
}

#[test]
fn every_malformed_line_is_listed() {
    let doc = ConfigDocument::parse(
        b"junk\n[settings]\nfirst bad\napi_key = k\na=b=c\n# fine\n\n[other]\nalso bad\n[SETTINGS]\nthird bad",
    );
    assert_eq!(doc.malformed_lines(b"settings"), vec![2, 4, 10]);
    assert_eq!(doc.malformed_lines(b"other"), vec![8]);
    assert_eq!(doc.malformed_lines(b"none"), Vec::<usize>::new());
    assert_eq!(doc.first_malformed(b"settings"), Some(2));
}

#[test]
fn store_appends_inside_the_section() {
    let mut doc = ConfigDocument::parse(b"[settings]\napi_key = k\n[other]\nx = 1");
    assert!(!doc.section_open_at_end(b"settings"));
    assert!(doc.section_open_at_end(b"OTHER"));
    doc.store(b"settings", b"api_url", b"u");
    assert_eq!(
        doc.serialize(),
        b"[settings]\napi_key = k\n[other]\nx = 1\n[settings]\napi_url = u".to_vec()
    );
    assert!(doc.is_dirty());
    assert_eq!(doc.get(b"settings", b"api_url"), Lookup::Value(b"u".to_vec()));
    assert_eq!(doc.get(b"settings", b"api_key"), Lookup::Value(b"k".to_vec()));
    assert_eq!(doc.get(b"other", b"api_url"), Lookup::Absent);
    assert_eq!(doc.get(b"other", b"x"), Lookup::Value(b"1".to_vec()));
}

#[test]
fn store_opens_a_section_that_is_not_there() {
    let mut doc = ConfigDocument::parse(b"");
    doc.store(b"settings", b"api_key", b"k");
    assert_eq!(doc.serialize(), b"\n[settings]\napi_key = k".to_vec());
    assert_eq!(doc.get(b"settings", b"api_key"), Lookup::Value(b"k".to_vec()));
    let mut plain = ConfigDocument::parse(b"stray = 1");
    plain.store(b"settings", b"stray", b"2");
    assert_eq!(plain.serialize(), b"stray = 1\n[settings]\nstray = 2".to_vec());
}

#[test]
fn store_on_an_open_section_is_set() {
    let mut doc = ConfigDocument::parse(b"[Settings]\napi_key = old");
    doc.store(b"settings", b"api_key", b"new");
    doc.store(b"settings", b"api_url", b"u");
    assert_eq!(doc.serialize(), b"[Settings]\napi_key = new\napi_url = u".to_vec());
    let once = doc.serialize();
    doc.store(b"settings", b"api_url", b"u");
    assert_eq!(doc.serialize(), once);
}

#[test]
fn open_section_appends_a_header_only_where_needed() {
    let mut doc = ConfigDocument::parse(b"[settings]\nx = 1");
    doc.open_section(b"settings");
    assert!(!doc.is_dirty());
    assert_eq!(doc.line_count(), 2);
    doc.open_section(b"other");
    assert!(doc.is_dirty());
    assert_eq!(doc.serialize(), b"[settings]\nx = 1\n[other]".to_vec());
    assert!(doc.section_open_at_end(b"other"));
    doc.open_section(b"other");
    assert_eq!(doc.line_count(), 3);
}

#[test]
fn plain_values_read_back_as_written() {
    for value in [&b"abc"[..], b"a b", b"", b"x"] {
        assert!(is_plain_value(value));
        assert_eq!(value_of(&make_line(b"key", value)), value.to_vec());
        assert_eq!(classify_line(&make_line(b"key", value)), LineKind::Setting);
    }
    for value in [&b" a"[..], b"a ", b"a=b", b"a\0", b"\t", b"a\r"] {
        assert!(!is_plain_value(value));
    }
}
