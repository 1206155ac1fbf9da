use base64::Engine;
use solverforge_mail::sieve::{
    assemble, authenticate_arguments, classify_line, greeting_lines, literal_command_line, literal_size,
    parse_script, quote, quoted_value, script_body, scripts_of, set_active_argument, sasl_plain_payload,
    SieveClient, SieveLine, SieveResponse,
};

#[test]
fn quoting_escapes_quotes_and_backslashes() {
    assert_eq!(quote("plain"), "\"plain\"");
    assert_eq!(quote("a\"b\\c"), "\"a\\\"b\\\\c\"");
    assert_eq!(quoted_value(&quote("a\"b\\c")).as_deref(), Some("a\"b\\c"));
    assert_eq!(quoted_value("\"open"), None);
    assert_eq!(quoted_value("bare"), None);
}

#[test]
fn commands_are_assembled_with_spaces() {
    assert_eq!(assemble("LISTSCRIPTS", &[]), "LISTSCRIPTS");
    assert_eq!(
        assemble("RENAMESCRIPT", &[quote("old"), quote("new")]),
        "RENAMESCRIPT \"old\" \"new\""
    );
    assert_eq!(set_active_argument(None), "\"\"");
    assert_eq!(set_active_argument(Some("vacation")), "\"vacation\"");
    assert_eq!(
        literal_command_line("PUTSCRIPT", &[quote("main")], 42),
        "PUTSCRIPT \"main\" {42+}"
    );
}

#[test]
fn sasl_plain_arguments_carry_the_encoded_payload() {
    assert_eq!(sasl_plain_payload("alice", "secret"), b"\0alice\0secret".to_vec());
    let args = authenticate_arguments("alice", "secret");
    assert_eq!(args[0], "\"PLAIN\"");
    let encoded = args[1].trim_matches('"');
    let decoded = base64::engine::general_purpose::STANDARD.decode(encoded).expect("base64");
    assert_eq!(decoded, b"\0alice\0secret");
}

#[test]
fn reply_lines_are_classified() {
    assert_eq!(literal_size("{54}"), Some(54));
    assert_eq!(literal_size("{54+}"), Some(54));
    assert_eq!(literal_size("{x}"), None);
    assert_eq!(literal_size("\"a\""), None);
    assert_eq!(classify_line("{12}"), SieveLine::Literal(12));
    assert_eq!(classify_line("  ok Done"), SieveLine::Done("ok Done".to_string()));
    assert_eq!(classify_line("NO \"no such script\""), SieveLine::Failed("NO \"no such script\"".to_string()));
    assert_eq!(classify_line("BYE"), SieveLine::Failed("BYE".to_string()));
    assert_eq!(classify_line("\"SIEVE\" \"fileinto\""), SieveLine::Data("\"SIEVE\" \"fileinto\"".to_string()));
}

#[test]
fn listings_name_scripts_and_the_active_one() {
    let script = parse_script("\"vacation\" ACTIVE");
    assert_eq!(script.name, "vacation");
    assert!(script.active);
    let script = parse_script("\"spam\"");
    assert_eq!(script.name, "spam");
    assert!(!script.active);
    let scripts = scripts_of(&[
        SieveResponse::Line("\"a\"".to_string()),
        SieveResponse::Line("\"b\" active".to_string()),
        SieveResponse::Status("OK".to_string()),
    ]);
    assert_eq!(scripts.len(), 2);
    assert!(!scripts[0].active);
    assert!(scripts[1].active);
}

#[test]
fn a_fetched_script_is_the_first_literal_or_quoted_line() {
    let body = script_body(&[
        SieveResponse::Line("junk".to_string()),
        SieveResponse::Literal("require \"fileinto\";".to_string()),
        SieveResponse::Status("OK".to_string()),
    ]);
    assert_eq!(body.as_deref(), Some("require \"fileinto\";"));
    let quoted = script_body(&[SieveResponse::Line("\"keep;\"".to_string())]);
    assert_eq!(quoted.as_deref(), Some("keep;"));
    assert_eq!(script_body(&[SieveResponse::Status("OK".to_string())]), None);
}

#[test]
fn the_greeting_tells_what_the_server_supports() {
    let lines = greeting_lines(&[
        SieveResponse::Line("\"IMPLEMENTATION\" \"Dovecot Pigeonhole\"".to_string()),
        SieveResponse::Line("\"SASL\" \"PLAIN LOGIN\"".to_string()),
        SieveResponse::Line("\"STARTTLS\"".to_string()),
        SieveResponse::Status("OK".to_string()),
    ]);
    let client = SieveClient::new("sieve.example.com".to_string(), lines);
    assert_eq!(client.capabilities().len(), 3);
    assert!(client.supports_starttls());
    assert!(client.supports_sasl_plain());
    assert_eq!(client.host(), "sieve.example.com");
    let bare = SieveClient::new("h".to_string(), vec!["\"SASL\" \"LOGIN\"".to_string()]);
    assert!(!bare.supports_starttls());
    assert!(!bare.supports_sasl_plain());
}
