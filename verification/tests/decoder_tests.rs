use pdf_transcribe::decoder::StreamDecoder;
use pdf_transcribe::record::Role;

fn line(content: &str, done: bool) -> String {
    format!(
        "{{\"model\":\"m\",\"created_at\":\"t\",\"message\":{{\"role\":\"assistant\",\"content\":\"{}\"}},\"done\":{}}}",
        content, done
    )
}

#[test]
fn decoder_single_line_one_chunk() {
    let mut d = StreamDecoder::new();
    let text = format!("{}\n", line("hello", false));
    let out = d.feed(text.as_bytes());
    assert_eq!(out.len(), 1);
    assert_eq!(out[0].content, b"hello".to_vec());
    assert!(!out[0].done);
    assert!(matches!(out[0].role, Role::Assistant));
}

#[test]
fn decoder_split_mid_escape() {
    // The line carries an escaped newline; the chunk boundary falls
    // between the backslash and the 'n'.
    let text = format!("{}\n", line("a\\nb", false));
    let split = text.find("\\n").unwrap() + 1;
    let mut d = StreamDecoder::new();
    let first = d.feed(&text.as_bytes()[..split]);
    assert_eq!(first.len(), 0);
    let second = d.feed(&text.as_bytes()[split..]);
    assert_eq!(second.len(), 1);
    assert_eq!(second[0].content, b"a\nb".to_vec());
}

#[test]
fn decoder_byte_at_a_time() {
    let text = format!("{}\n{}\n", line("ab", false), line("cd", true));
    let mut d = StreamDecoder::new();
    let mut records = Vec::new();
    for b in text.as_bytes() {
        records.extend(d.feed(std::slice::from_ref(b)));
    }
    assert_eq!(records.len(), 2);
    assert_eq!(records[0].content, b"ab".to_vec());
    assert!(!records[0].done);
    assert_eq!(records[1].content, b"cd".to_vec());
    assert!(records[1].done);
}

#[test]
fn decoder_multiple_records_one_chunk() {
    let text = format!("{}\n{}\n", line("one", false), line("two", false));
    let mut d = StreamDecoder::new();
    let out = d.feed(text.as_bytes());
    assert_eq!(out.len(), 2);
    assert_eq!(out[0].content, b"one".to_vec());
    assert_eq!(out[1].content, b"two".to_vec());
}

#[test]
fn decoder_malformed_line_dropped() {
    let text = format!("{}\nthis is not json\n{}\n", line("good", false), line("also", true));
    let mut d = StreamDecoder::new();
    let out = d.feed(text.as_bytes());
    assert_eq!(out.len(), 2);
    assert_eq!(out[0].content, b"good".to_vec());
    assert_eq!(out[1].content, b"also".to_vec());
    assert!(out[1].done);
}

#[test]
fn decoder_missing_field_dropped() {
    // A JSON object that is not a response record (no done field) is
    // dropped like any other malformed line.
    let text = format!(
        "{{\"model\":\"m\"}}\n{}\n",
        line("kept", false)
    );
    let mut d = StreamDecoder::new();
    let out = d.feed(text.as_bytes());
    assert_eq!(out.len(), 1);
    assert_eq!(out[0].content, b"kept".to_vec());
}

#[test]
fn decoder_empty_lines_skipped() {
    let text = format!("\n  \n{}\n\n", line("x", false));
    let mut d = StreamDecoder::new();
    let out = d.feed(text.as_bytes());
    assert_eq!(out.len(), 1);
    assert_eq!(out[0].content, b"x".to_vec());
}

#[test]
fn decoder_unterminated_tail_via_finish() {
    let full = format!("{}\n{}", line("first", false), line("last", true));
    let mut d = StreamDecoder::new();
    let out = d.feed(full.as_bytes());
    assert_eq!(out.len(), 1);
    assert_eq!(out[0].content, b"first".to_vec());
    let tail = d.finish();
    let rec = tail.expect("trailing record should parse");
    assert_eq!(rec.content, b"last".to_vec());
    assert!(rec.done);
}

#[test]
fn decoder_finish_whitespace_is_none() {
    let mut d = StreamDecoder::new();
    let out = d.feed(b"  \t ");
    assert_eq!(out.len(), 0);
    assert!(d.finish().is_none());
}

#[test]
fn decoder_finish_garbage_is_none() {
    let mut d = StreamDecoder::new();
    let out = d.feed(b"{\"model\": trunca");
    assert_eq!(out.len(), 0);
    assert!(d.finish().is_none());
}

#[test]
fn decoder_role_user_parsed() {
    let text =
        "{\"model\":\"m\",\"created_at\":\"t\",\"message\":{\"role\":\"user\",\"content\":\"q\"},\"done\":false}\n";
    let mut d = StreamDecoder::new();
    let out = d.feed(text.as_bytes());
    assert_eq!(out.len(), 1);
    assert!(matches!(out[0].role, Role::User));
}

#[test]
fn decoder_whitespace_around_line_trimmed() {
    let text = format!("  {}  \r\n", line("padded", false));
    let mut d = StreamDecoder::new();
    let out = d.feed(text.as_bytes());
    assert_eq!(out.len(), 1);
    assert_eq!(out[0].content, b"padded".to_vec());
}

#[test]
fn decoder_extra_fields_tolerated() {
    let text = "{\"model\":\"m\",\"created_at\":\"t\",\"message\":{\"role\":\"assistant\",\"content\":\"x\"},\"done\":true,\"done_reason\":\"stop\",\"eval_count\":42,\"total_duration\":7}\n";
    let mut d = StreamDecoder::new();
    let out = d.feed(text.as_bytes());
    assert_eq!(out.len(), 1);
    assert_eq!(out[0].content, b"x".to_vec());
    assert!(out[0].done);
}
