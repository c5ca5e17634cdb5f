//! UTF-8 validation of byte buffers.

use vstd::prelude::*;
use vstd::utf8::*;
use std::borrow::Cow;

verus! {

/// Why a byte sequence is not UTF-8: how long its longest valid prefix is,
/// and the length of the offending sequence when the input does not simply
/// end too early.
#[derive(Clone, Copy, Debug, PartialEq, Eq)]
pub struct Utf8Error {
    valid_up_to: usize,
    error_len: Option<usize>,
}

/// `k` is the length of the longest prefix of `bytes` that is valid UTF-8.
pub open spec fn is_valid_up_to(bytes: Seq<u8>, k: int) -> bool {
    &&& 0 <= k <= bytes.len()
    &&& valid_utf8(bytes.subrange(0, k))
    &&& forall|j: int| k < j <= bytes.len() ==> !valid_utf8(#[trigger] bytes.subrange(0, j))
}

impl Utf8Error {
    /// The index up to which the input was valid UTF-8.
    pub closed spec fn spec_valid_up_to(&self) -> usize {
        self.valid_up_to
    }

    /// The length of the invalid sequence, if the input did not end too
    /// early.
    pub closed spec fn spec_error_len(&self) -> Option<usize> {
        self.error_len
    }

    /// The error describes the first place at which `bytes` stops being
    /// UTF-8.
    pub open spec fn describes(&self, bytes: Seq<u8>) -> bool {
        &&& is_valid_up_to(bytes, self.spec_valid_up_to() as int)
        &&& self.spec_valid_up_to() < bytes.len()
        &&& self.spec_error_len().is_none() ==> bytes.len() - self.spec_valid_up_to() <= 3
    }

    /// The index up to which the input was valid UTF-8.
    #[verifier::when_used_as_spec(spec_valid_up_to)]
    pub fn valid_up_to(&self) -> (k: usize)
        ensures
            k == self.spec_valid_up_to(),
    {
        self.valid_up_to
    }

    /// `None` when the input ended in the middle of a character, else the
    /// length of the invalid sequence that starts at `valid_up_to()`.
    #[verifier::when_used_as_spec(spec_error_len)]
    pub fn error_len(&self) -> (len: Option<usize>)
        ensures
            len == self.spec_error_len(),
    {
        self.error_len
    }
}

/// What `String::from_utf8_lossy` makes of a byte sequence.
pub uninterp spec fn utf8_lossy(bytes: Seq<u8>) -> Seq<char>;

/// Wraps `String::from_utf8`. The call succeeds exactly on valid UTF-8 and
/// then yields the decoded text. On failure it hands the bytes back
/// unchanged, with an error whose `valid_up_to` is the length of the longest
/// valid prefix and whose `error_len` is `None` only when the input ends one
/// to three bytes after that prefix.
#[verifier::external_body]
pub(crate) fn string_from_utf8(bytes: Vec<u8>) -> (r: Result<String, (Vec<u8>, Utf8Error)>)
    ensures
        match r {
            Ok(s) => valid_utf8(bytes@) && s@ == decode_utf8(bytes@),
            Err((b, e)) => !valid_utf8(bytes@) && b@ == bytes@ && e.describes(bytes@),
        },
{
    match String::from_utf8(bytes) {
        Ok(s) => Ok(s),
        Err(e) => {
            let u = e.utf8_error();
            let error = Utf8Error { valid_up_to: u.valid_up_to(), error_len: u.error_len() };
            Err((e.into_bytes(), error))
        },
    }
}

/// Wraps `core::str::from_utf8`, with the same outcome as `string_from_utf8`
/// on a borrowed slice.
#[verifier::external_body]
pub(crate) fn str_from_utf8<'a>(bytes: &'a [u8]) -> (r: Result<&'a str, Utf8Error>)
    ensures
        match r {
            Ok(s) => valid_utf8(bytes@) && s@ == decode_utf8(bytes@),
            Err(e) => !valid_utf8(bytes@) && e.describes(bytes@),
        },
{
    match core::str::from_utf8(bytes) {
        Ok(s) => Ok(s),
        Err(u) => Err(Utf8Error { valid_up_to: u.valid_up_to(), error_len: u.error_len() }),
    }
}

/// Wraps `String::from_utf8_lossy`. Valid UTF-8 is decoded as it is;
/// otherwise each invalid sequence is replaced by U+FFFD, which the name
/// `utf8_lossy` stands for.
#[verifier::external_body]
pub(crate) fn string_from_utf8_lossy<'a>(bytes: &'a [u8]) -> (r: Cow<'a, str>)
    ensures
        r@ == utf8_lossy(bytes@),
        valid_utf8(bytes@) ==> r@ == decode_utf8(bytes@),
{
    String::from_utf8_lossy(bytes)
}

} // verus!
