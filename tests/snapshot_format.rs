use key_snapshot::snapshot::{parse_snapshot, read_snapshot, render_snapshot};

fn strings(items: &[&str]) -> Vec<String> {
    items.iter().map(|s| s.to_string()).collect()
}

#[test]
fn render_writes_one_key_per_line_in_order() {
    let keys = strings(&["b", "a", "c"]);
    assert_eq!(render_snapshot(&keys), "b\na\nc\n");
}

#[test]
fn render_of_no_keys_is_empty() {
    assert_eq!(render_snapshot(&Vec::new()), "");
}

#[test]
fn render_keeps_duplicates() {
    let keys = strings(&["x", "x"]);
    assert_eq!(render_snapshot(&keys), "x\nx\n");
}

#[test]
fn parse_reads_lines() {
    assert_eq!(parse_snapshot("a\nb\nc\n"), strings(&["a", "b", "c"]));
}

#[test]
fn parse_takes_last_line_without_newline() {
    assert_eq!(parse_snapshot("a\nb"), strings(&["a", "b"]));
}

#[test]
fn parse_drops_carriage_returns_before_newlines() {
    assert_eq!(parse_snapshot("a\r\nb\r\n"), strings(&["a", "b"]));
}

#[test]
fn parse_keeps_empty_lines_and_duplicates() {
    assert_eq!(parse_snapshot("\nk\nk\n"), strings(&["", "k", "k"]));
}

#[test]
fn parse_of_empty_text_has_no_keys() {
    assert!(parse_snapshot("").is_empty());
}

#[test]
fn parse_handles_multibyte_keys() {
    assert_eq!(parse_snapshot("ünïcode:1\nkey:ş\n"), strings(&["ünïcode:1", "key:ş"]));
}

#[test]
fn snapshot_round_trip_keeps_keys_and_duplicates() {
    let keys = strings(&["user:1", "session:9", "user:1", "cache:a b"]);
    let text = render_snapshot(&keys);
    assert_eq!(parse_snapshot(&text), keys);
}

#[test]
fn missing_snapshot_reads_as_no_keys() {
    assert!(read_snapshot(None).is_empty());
}

#[test]
fn present_snapshot_reads_its_lines() {
    assert_eq!(read_snapshot(Some("p\nq\n".to_string())), strings(&["p", "q"]));
}

#[test]
fn parse_keeps_carriage_return_of_unterminated_last_line() {
    assert_eq!(parse_snapshot("a\r"), strings(&["a\r"]));
}

#[test]
fn parse_strips_carriage_return_only_before_newline() {
    assert_eq!(parse_snapshot("a\r\nb\r"), strings(&["a", "b\r"]));
}
