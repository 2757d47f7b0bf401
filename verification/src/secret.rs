//! Secret text, held in `secrecy`'s zeroizing box so that it is wiped from
//! memory when dropped.
use secrecy::{ExposeSecret, SecretString};
use vstd::prelude::*;

verus! {

/// A secret string. The box of `secrecy` is held in a field that Verus does
/// not see; what the library knows of it is the text it holds, `secret_text`.
#[verifier::external_body]
pub struct Secret {
    pub(crate) inner: SecretString,
}

/// The text that a secret holds.
pub uninterp spec fn secret_text(s: Secret) -> Seq<char>;

impl Secret {
    /// Moves `text` into a new zeroizing box (`From<String> for SecretString`):
    /// the secret holds exactly the given text.
    #[verifier::external_body]
    pub(crate) fn new(text: String) -> (s: Secret)
        ensures
            secret_text(s) == text@,
    {
        Secret { inner: SecretString::from(text) }
    }

    /// Borrows the text of the secret (`ExposeSecret::expose_secret`): the
    /// text handed out is the one the secret holds.
    #[verifier::external_body]
    pub(crate) fn expose(&self) -> (t: &str)
        ensures
            t@ == secret_text(*self),
    {
        self.inner.expose_secret()
    }

    /// A secret holding `text`.
    pub fn from_text(text: String) -> (s: Secret)
        ensures
            secret_text(s) == text@,
    {
        Secret::new(text)
    }

    /// The text the secret holds.
    pub fn text(&self) -> (t: &str)
        ensures
            t@ == secret_text(*self),
    {
        self.expose()
    }
}

} // verus!
