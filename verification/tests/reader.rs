use solverforge_mail::errors::{MailError, MailErrorKind};
use solverforge_mail::imap_session::{collect_step, require_ok, CollectStep, Completion, ResponseKind};
use solverforge_mail::response_reader::{decode_response, response_kind, DecodeAnswer, ResponseBuffer};

/// What a command produced, gathered the way a session collects it.
struct Output {
    untagged_status: Vec<String>,
    data: Vec<Vec<u8>>,
    completion: Option<Completion>,
    skipped: Vec<String>,
}

fn reader(input: &[u8]) -> ResponseBuffer {
    let mut buffer = ResponseBuffer::new();
    buffer.feed(input);
    buffer
}

/// The next response, or the error of a connection closed with nothing more.
fn next(buffer: &mut ResponseBuffer) -> Result<Vec<u8>, MailError> {
    buffer.next_response().ok_or_else(|| buffer.closed_error())
}

fn collect(buffer: &mut ResponseBuffer, tag: &str) -> Result<Output, MailError> {
    let mut output = Output { untagged_status: vec![], data: vec![], completion: None, skipped: vec![] };
    loop {
        let bytes = next(buffer)?;
        let kind = response_kind(&bytes);
        match collect_step(tag, &kind) {
            CollectStep::Complete => {
                if let ResponseKind::Tagged { ok, text, code, .. } = kind {
                    output.completion = Some(Completion { ok, text, code });
                }
                output.skipped = buffer.take_skipped();
                return Ok(output);
            }
            CollectStep::KeepStatus => {
                if let ResponseKind::Untagged(text) = kind {
                    output.untagged_status.push(text);
                }
            }
            CollectStep::KeepData => output.data.push(bytes),
            CollectStep::Stop(error) => return Err(error),
        }
    }
}

#[test]
fn skips_junk_lines_and_decodes_the_next_line() {
    let input = "* WHO KNOWS what this is\r\n\
                 * SEARCH 7 8\r\n\
                 * 1 FETCH (UID 1 BOGUS)\r\n\
                 a001 OK Search completed\r\n";
    let mut buffer = reader(input.as_bytes());
    let first = next(&mut buffer).expect("decodes after junk");
    assert_eq!(first, b"* SEARCH 7 8\r\n".to_vec());
    assert!(matches!(response_kind(&first), ResponseKind::Data));
    let output = collect(&mut buffer, "a001").expect("collect");
    assert!(output.completion.as_ref().expect("completion").ok);
    assert_eq!(output.skipped.len(), 2, "both junk lines were counted");
    assert_eq!(output.skipped[0], "* WHO KNOWS what this is");
}

#[test]
fn decodes_when_bytes_arrive_one_at_a_time() {
    let transcript = b"* SEARCH 1 2 3\r\na001 OK done\r\n";
    let mut buffer = ResponseBuffer::new();
    let mut responses = Vec::new();
    for byte in transcript.iter() {
        buffer.feed(&[*byte]);
        while let Some(response) = buffer.next_response() {
            responses.push(response);
        }
    }
    assert_eq!(responses, vec![b"* SEARCH 1 2 3\r\n".to_vec(), b"a001 OK done\r\n".to_vec()]);
    assert!(buffer.take_skipped().is_empty());
}

#[test]
fn decodes_a_response_carrying_a_literal() {
    let input = b"* 1 FETCH (UID 1 BODY[] {5}\r\nhello)\r\na001 OK done\r\n";
    let mut buffer = reader(input);
    let response = next(&mut buffer).expect("literal response decodes");
    assert!(matches!(response_kind(&response), ResponseKind::Data));
    let output = collect(&mut buffer, "a001").expect("collect");
    assert!(output.completion.expect("completion").ok);
}

#[test]
fn an_announced_literal_waits_for_its_bytes() {
    assert_eq!(decode_response(b"* 1 FETCH (UID 1 BODY[] {5}\r\nhel"), DecodeAnswer::Incomplete);
    assert_eq!(decode_response(b"* 2 EXISTS\r\n* 3"), DecodeAnswer::Decoded { consumed: 12 });
}

#[test]
fn reports_errors_from_untagged_status_and_completion() {
    let input = "* 1 EXPUNGE\r\na001 NO [TRYCREATE] try again\r\n";
    let mut buffer = reader(input.as_bytes());
    let output = collect(&mut buffer, "a001").expect("collect");
    {
        let completion = output.completion.as_ref().expect("completion");
        assert!(!completion.ok);
        assert!(completion.code.contains("TryCreate"));
    }
    let error = require_ok("SELECT", output.completion.as_ref(), output.skipped.len()).expect_err("must fail");
    assert!(error.message.contains("try again"));
    assert_eq!(output.data.len(), 1);
}

#[test]
fn collects_untagged_status_lines() {
    let input = "* OK [UIDNEXT 5] predicted\r\na001 OK done\r\n";
    let mut buffer = reader(input.as_bytes());
    let output = collect(&mut buffer, "a001").expect("collect");
    assert_eq!(output.untagged_status, vec!["predicted".to_string()]);
    assert!(output.completion.map(|c| c.ok).unwrap_or(false));
}

#[test]
fn rejects_a_response_tagged_for_another_command() {
    let mut buffer = reader(b"a999 OK wrong command\r\n");
    let error = collect(&mut buffer, "a001").err().expect("mismatched tag is a protocol error");
    assert!(error.message.contains("does not match command tag"));
}

#[test]
fn a_bye_ends_the_session() {
    let mut buffer = reader(b"* BYE Logging out\r\n");
    let error = collect(&mut buffer, "a001").err().expect("BYE stops collecting");
    assert_eq!(error.message, "server closed the session: Logging out");
}

#[test]
fn a_connection_closed_inside_a_known_response_is_mid_response() {
    let mut buffer = reader(b"* 1 EXISTS");
    let error = next(&mut buffer).expect_err("truncated input fails");
    assert_eq!(error.kind, MailErrorKind::ConnectionDropped);
    assert_eq!(error.message, "IMAP server closed the connection mid-response: \"* 1 EXISTS\"");
    let mut junk = reader(b"* SORT 1");
    let error = next(&mut junk).expect_err("an undecodable partial line fails");
    assert_eq!(error.kind, MailErrorKind::ConnectionDropped);
    assert_eq!(error.message, "IMAP server closed the connection during an undecodable line");
}
