//! Password text held in a `zeroize::Zeroizing<String>`, which wipes its
//! memory when dropped. Verus cannot see inside the wrapper, so it is kept in
//! an opaque struct, the text it holds has a name, and each operation the
//! library needs has a contract.
use vstd::prelude::*;
use zeroize::Zeroizing;

verus! {

/// A password string that is wiped from memory when dropped.
#[verifier::external_body]
pub struct Secret {
    inner: Zeroizing<String>,
}

/// The characters of the password that a `Secret` holds.
pub uninterp spec fn secret_text(s: Secret) -> Seq<char>;

/// Every character is ASCII.
pub open spec fn all_ascii(text: Seq<char>) -> bool {
    forall|i: int| 0 <= i < text.len() ==> (#[trigger] text[i] as u32) < 128
}

/// `Zeroizing::new`: wraps `text` so that it is wiped when dropped.
#[verifier::external_body]
fn secret_wrap(text: String) -> (s: Secret)
    ensures
        secret_text(s) == text@,
{
    Secret { inner: Zeroizing::new(text) }
}

/// An empty secret.
pub(crate) fn empty_secret() -> (s: Secret)
    ensures
        secret_text(s) == Seq::<char>::empty(),
{
    secret_wrap(String::new())
}

/// `String::is_empty` through the wrapper: true when the string has no bytes,
/// that is, no characters.
#[verifier::external_body]
pub(crate) fn secret_is_empty(s: &Secret) -> (empty: bool)
    ensures
        empty == (secret_text(*s).len() == 0),
{
    s.inner.is_empty()
}

/// `String::len` through the wrapper: the byte length, which for ASCII text
/// is the number of characters.
#[verifier::external_body]
pub(crate) fn secret_len(s: &Secret) -> (n: usize)
    requires
        all_ascii(secret_text(*s)),
    ensures
        n == secret_text(*s).len(),
{
    s.inner.len()
}

/// `String::insert` through the wrapper: inserts `c` at byte position `idx`,
/// which for ASCII text is character position `idx`.
#[verifier::external_body]
pub(crate) fn secret_insert(s: &mut Secret, idx: usize, c: char)
    requires
        all_ascii(secret_text(*old(s))),
        idx <= secret_text(*old(s)).len(),
        secret_text(*old(s)).len() < isize::MAX,
    ensures
        secret_text(*final(s)) == secret_text(*old(s)).insert(idx as int, c),
{
    s.inner.insert(idx, c);
}

/// `String::remove` through the wrapper: removes and returns the character at
/// byte position `idx`, which for ASCII text is character position `idx`.
#[verifier::external_body]
pub(crate) fn secret_remove(s: &mut Secret, idx: usize) -> (c: char)
    requires
        all_ascii(secret_text(*old(s))),
        idx < secret_text(*old(s)).len(),
    ensures
        c == secret_text(*old(s))[idx as int],
        secret_text(*final(s)) == secret_text(*old(s)).remove(idx as int),
{
    s.inner.remove(idx)
}

/// `String::clear` through the wrapper: the string becomes empty (its memory
/// is wiped when the wrapper is dropped).
#[verifier::external_body]
pub(crate) fn secret_clear(s: &mut Secret)
    ensures
        secret_text(*final(s)) == Seq::<char>::empty(),
{
    s.inner.clear();
}

/// `Zeroizing::clone`: a second wrapper around a copy of the password.
#[verifier::external_body]
pub(crate) fn secret_clone(s: &Secret) -> (copy: Secret)
    ensures
        secret_text(copy) == secret_text(*s),
{
    Secret { inner: s.inner.clone() }
}

/// `Zeroizing::deref`: the password as a string slice.
#[verifier::external_body]
pub(crate) fn secret_str(s: &Secret) -> (text: &str)
    ensures
        text@ == secret_text(*s),
{
    s.inner.as_str()
}

impl Secret {
    /// A password holding a copy of `text`.
    pub fn new(text: &str) -> (s: Secret)
        ensures
            secret_text(s) == text@,
    {
        secret_wrap(text.to_owned())
    }

    /// The password text.
    pub fn as_str(&self) -> (text: &str)
        ensures
            text@ == secret_text(*self),
    {
        secret_str(self)
    }

    /// Whether the password has no characters.
    pub fn is_empty(&self) -> (empty: bool)
        ensures
            empty == (secret_text(*self).len() == 0),
    {
        secret_is_empty(self)
    }
}

} // verus!
