//! How an outgoing message should be protected.
use vstd::prelude::*;

verus! {

/// How an outgoing message should be protected.
#[derive(Debug, Clone)]
pub struct SendOptions {
    /// Sign the message as PGP/MIME.
    pub sign: bool,
    /// Encrypt the message to its recipients as PGP/MIME.
    pub encrypt: bool,
    /// Sign the message with S/MIME.
    pub smime_sign: bool,
    /// Encrypt the message to its recipients with S/MIME.
    pub smime_encrypt: bool,
    /// Passphrase for the PGP signing secret key.
    pub passphrase: String,
    /// Directory holding key material; defaults to the app keyring.
    pub keys_dir: Option<String>,
}

impl Default for SendOptions {
    /// No protection, no passphrase, the default key directory.
    fn default() -> (r: Self)
        ensures
            !r.sign && !r.encrypt && !r.smime_sign && !r.smime_encrypt,
            r.passphrase@.len() == 0,
            r.keys_dir is None,
    {
        SendOptions {
            sign: false,
            encrypt: false,
            smime_sign: false,
            smime_encrypt: false,
            passphrase: String::new(),
            keys_dir: None,
        }
    }
}

impl SendOptions {
    /// True when PGP/MIME wrapping is requested.
    pub fn is_pgp(&self) -> (r: bool)
        ensures
            r == (self.sign || self.encrypt),
    {
        self.sign || self.encrypt
    }

    /// True when S/MIME wrapping is requested.
    pub fn is_smime(&self) -> (r: bool)
        ensures
            r == (self.smime_sign || self.smime_encrypt),
    {
        self.smime_sign || self.smime_encrypt
    }

    /// True when any cryptographic wrapping is requested.
    pub fn is_protected(&self) -> (r: bool)
        ensures
            r == (self.sign || self.encrypt || self.smime_sign || self.smime_encrypt),
    {
        self.is_pgp() || self.is_smime()
    }
}

} // verus!
