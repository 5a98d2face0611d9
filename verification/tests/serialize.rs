use render_queue::line_tokens::LineToken;
use render_queue::render_queue_writer::RenderQueueWriter;
use render_queue::sink::FailingSink;
use render_queue::sink::StringSink;
use render_queue::sink::WriteError;

fn dp(s: &str) -> LineToken {
    LineToken::DirectPart { part: String::from(s) }
}

#[test]
fn tokens_have_their_fixed_text() {
    assert_eq!(dp("ab").to_string(), "ab");
    assert_eq!(LineToken::Comma.to_string(), ",");
    assert_eq!(LineToken::Space.to_string(), " ");
    assert_eq!(LineToken::SoftNewline.to_string(), "");
    assert_eq!(LineToken::SoftIndent { depth: 5 }.to_string(), "");
    assert_eq!(LineToken::HardNewline.to_string(), "\n");
    assert_eq!(LineToken::Indent { depth: 4 }.to_string(), "    ");
}

#[test]
fn final_tokens_written_in_order() {
    let tokens = vec![dp("ab"), LineToken::Comma, LineToken::Space, dp("cd")];
    let mut sink = StringSink::new();
    let r = RenderQueueWriter::write_final_tokens(&mut sink, tokens);
    assert!(r.is_ok());
    assert_eq!(sink.text(), "ab, cd");
}

#[test]
fn failure_stops_writing_at_once() {
    // The sink accepts two writes and fails the third: exactly the text of
    // the first two tokens is written, nothing further.
    let tokens = vec![dp("ab"), LineToken::Comma, dp("cd"), dp("ef")];
    let mut sink = FailingSink::new(2, 7);
    let r = RenderQueueWriter::write_final_tokens(&mut sink, tokens);
    assert_eq!(r, Err(WriteError { code: 7 }));
    assert_eq!(sink.text(), "ab,");
}

#[test]
fn failure_on_first_write_leaves_nothing() {
    let tokens = vec![dp("ab"), dp("cd")];
    let mut sink = FailingSink::new(0, 42);
    let r = RenderQueueWriter::write_final_tokens(&mut sink, tokens);
    assert_eq!(r, Err(WriteError { code: 42 }));
    assert_eq!(sink.text(), "");
}

#[test]
fn error_comes_back_verbatim_through_write() {
    let tokens = vec![dp("a"), dp("b"), dp("c")];
    let mut sink = FailingSink::new(1, 13);
    let r = RenderQueueWriter::new(tokens).write(&mut sink);
    assert_eq!(r, Err(WriteError { code: 13 }));
    assert_eq!(sink.text(), "a");
}

#[test]
fn sink_with_enough_budget_accepts_everything() {
    let tokens = vec![dp("a"), dp("b")];
    let mut sink = FailingSink::new(2, 9);
    let r = RenderQueueWriter::new(tokens).write(&mut sink);
    assert!(r.is_ok());
    assert_eq!(sink.text(), "ab");
}

#[test]
fn empty_sequence_writes_nothing_and_succeeds() {
    let mut sink = FailingSink::new(0, 3);
    let r = RenderQueueWriter::write_final_tokens(&mut sink, vec![]);
    assert!(r.is_ok());
    assert_eq!(sink.text(), "");
}
