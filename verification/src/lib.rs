//! Mail client logic: search grammar, folder roles, compose templates,
//! authentication verdicts, capability and error classification, and the
//! cached folder state that synchronization maintains.
pub mod accounts;
pub mod addresses;
pub mod attachments;
pub mod capabilities;
pub mod encoding;
pub mod envelope;
pub mod errors;
pub mod failures;
pub mod flags;
pub mod folder_sync;
pub mod imap_session;
pub mod keyring;
pub mod mailbox;
pub mod mime;
pub mod response_reader;
pub mod options;
pub mod outgoing;
pub mod planner;
pub mod roles;
pub mod search;
pub mod search_keys;
pub mod search_scope;
pub mod security;
pub mod sieve;
pub mod template;
pub mod template_law;
pub mod text;
