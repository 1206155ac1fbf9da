//! How far a search reaches.
use vstd::prelude::*;

use crate::text::str_eq;

verus! {

/// The scope a search covers.
#[derive(Debug, Clone, Copy, PartialEq, Eq, Structural)]
pub enum SearchScope {
    /// The folder being viewed.
    Folder,
    /// Every folder of the current account.
    Folders,
    /// Every folder of every account.
    Accounts,
}

impl Default for SearchScope {
    /// The narrowest scope, the folder being viewed.
    fn default() -> (r: Self)
        ensures
            r == SearchScope::Folder,
    {
        SearchScope::Folder
    }
}

/// The scope that follows `s` in the cycle Folder, Folders, Accounts.
pub open spec fn next_scope(s: SearchScope) -> SearchScope {
    match s {
        SearchScope::Folder => SearchScope::Folders,
        SearchScope::Folders => SearchScope::Accounts,
        SearchScope::Accounts => SearchScope::Folder,
    }
}

/// The stable storage name of a scope.
pub open spec fn scope_name(s: SearchScope) -> Seq<char> {
    match s {
        SearchScope::Folder => "folder"@,
        SearchScope::Folders => "folders"@,
        SearchScope::Accounts => "accounts"@,
    }
}

/// The scope a stored name denotes; any unknown name is the narrowest scope.
pub open spec fn scope_of_name(v: Seq<char>) -> SearchScope {
    if v == "folders"@ {
        SearchScope::Folders
    } else if v == "accounts"@ {
        SearchScope::Accounts
    } else {
        SearchScope::Folder
    }
}

impl SearchScope {
    /// The next scope in the cycle.
    pub fn next(self) -> (r: Self)
        ensures
            r == next_scope(self),
    {
        match self {
            SearchScope::Folder => SearchScope::Folders,
            SearchScope::Folders => SearchScope::Accounts,
            SearchScope::Accounts => SearchScope::Folder,
        }
    }

    /// A short label for the status bar.
    pub fn label(self) -> (r: &'static str)
        ensures
            r@ == match self {
                SearchScope::Folder => "this folder"@,
                SearchScope::Folders => "all folders"@,
                SearchScope::Accounts => "all accounts"@,
            },
    {
        match self {
            SearchScope::Folder => "this folder",
            SearchScope::Folders => "all folders",
            SearchScope::Accounts => "all accounts",
        }
    }

    /// A stable name for storage.
    pub fn as_str(self) -> (r: &'static str)
        ensures
            r@ == scope_name(self),
    {
        match self {
            SearchScope::Folder => "folder",
            SearchScope::Folders => "folders",
            SearchScope::Accounts => "accounts",
        }
    }

    /// Parse a stored name, defaulting to the narrowest scope.
    pub fn parse(value: &str) -> (r: Self)
        ensures
            r == scope_of_name(value@),
    {
        if str_eq(value, "folders") {
            SearchScope::Folders
        } else if str_eq(value, "accounts") {
            SearchScope::Accounts
        } else {
            SearchScope::Folder
        }
    }
}

/// A stored scope name reads back as the scope it was written for.
pub proof fn law_scope_name_round_trip(s: SearchScope)
    ensures
        scope_of_name(scope_name(s)) == s,
{
    reveal_strlit("folder");
    reveal_strlit("folders");
    reveal_strlit("accounts");
    assert("folder"@.len() != "folders"@.len());
    assert("folder"@.len() != "accounts"@.len());
    assert("folders"@[6] != "accounts"@[6]);
}

/// Advancing the scope three times returns to where it started, passing
/// through every scope on the way.
pub proof fn law_scope_cycle(s: SearchScope)
    ensures
        next_scope(next_scope(next_scope(s))) == s,
        next_scope(s) != s,
        next_scope(next_scope(s)) != s,
{
}

} // verus!
