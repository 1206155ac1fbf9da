use solverforge_mail::search_scope::SearchScope;

#[test]
fn cycling_reaches_every_scope_and_returns() {
    let mut scope = SearchScope::default();
    let mut seen = vec![scope];
    for _ in 0..3 {
        scope = scope.next();
        seen.push(scope);
    }
    assert_eq!(scope, SearchScope::default(), "returns to the start");
    assert!(seen.contains(&SearchScope::Folders));
    assert!(seen.contains(&SearchScope::Accounts));
}

#[test]
fn stored_names_round_trip() {
    for scope in [
        SearchScope::Folder,
        SearchScope::Folders,
        SearchScope::Accounts,
    ] {
        assert_eq!(SearchScope::parse(scope.as_str()), scope);
    }
    assert_eq!(SearchScope::parse("nonsense"), SearchScope::Folder);
}

#[test]
fn scope_labels_describe_the_reach() {
    assert_eq!(SearchScope::Folder.label(), "this folder");
    assert_eq!(SearchScope::Folders.label(), "all folders");
    assert_eq!(SearchScope::Accounts.label(), "all accounts");
}
