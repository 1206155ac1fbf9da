use solverforge_mail::search_keys::{criteria, SearchTerm};

#[test]
fn translates_the_search_grammar_to_typed_keys() {
    assert_eq!(criteria(None), vec![SearchTerm::All]);
    assert_eq!(criteria(Some("flag seen")), vec![SearchTerm::Seen]);

    let keys = criteria(Some("subject quarterly and not flag flagged"));
    assert_eq!(keys.len(), 2);
    assert!(matches!(keys[0], SearchTerm::Subject(_)));
    assert!(matches!(keys[1], SearchTerm::Unflagged));

    let keys = criteria(Some("body standing order"));
    match &keys[0] {
        SearchTerm::Body(text) => {
            assert_eq!(text.as_bytes(), b"standing order");
        }
        other => panic!("expected BODY, got {other:?}"),
    }

    let keys = criteria(Some("revenue"));
    assert!(matches!(keys[0], SearchTerm::Text(_)));
}

#[test]
fn blank_queries_and_blank_terms_search_everything() {
    assert_eq!(criteria(Some("")), vec![SearchTerm::All]);
    assert_eq!(criteria(Some("   ")), vec![SearchTerm::All]);
    // The query is trimmed before it is split, so a lone separator is a word.
    assert_eq!(criteria(Some(" and ")), vec![SearchTerm::Text("and".to_string())]);
    assert_eq!(
        criteria(Some("flag seen and  and from Ann")),
        vec![SearchTerm::Seen, SearchTerm::From("Ann".to_string())]
    );
}

#[test]
fn field_prefixes_match_in_any_case_and_keep_the_value_as_written() {
    assert_eq!(
        criteria(Some("SUBJECT Budget Q2")),
        vec![SearchTerm::Subject("Budget Q2".to_string())]
    );
    assert_eq!(
        criteria(Some("To bob@example.com and NOT FLAG ANSWERED")),
        vec![SearchTerm::To("bob@example.com".to_string()), SearchTerm::Unanswered]
    );
    assert_eq!(
        criteria(Some("flag answered and not flag seen and flag flagged")),
        vec![SearchTerm::Answered, SearchTerm::Unseen, SearchTerm::Flagged]
    );
    assert_eq!(
        criteria(Some("subjects of note")),
        vec![SearchTerm::Text("subjects of note".to_string())]
    );
}

#[test]
fn a_value_no_imap_string_can_carry_is_replaced() {
    assert_eq!(
        criteria(Some("from a\0b")),
        vec![SearchTerm::From("search".to_string())]
    );
    assert_eq!(criteria(Some("x\0")), vec![SearchTerm::Text("search".to_string())]);
}

#[test]
fn the_prefix_check_counts_from_the_end_of_the_term() {
    // "from é" is 7 bytes; the boundary checked is at byte 2, which holds.
    assert_eq!(
        criteria(Some("from é")),
        vec![SearchTerm::From("é".to_string())]
    );
    // A term shorter than every prefix is plain text.
    assert_eq!(criteria(Some("to")), vec![SearchTerm::Text("to".to_string())]);
}
