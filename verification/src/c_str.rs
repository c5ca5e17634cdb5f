//! Owned and borrowed C strings: byte sequences that end in a single zero
//! byte and hold no other.

use vstd::prelude::*;
use vstd::std_specs::cmp::{PartialEqSpec, PartialOrdSpec};
use vstd::string::*;
use vstd::utf8::*;
use std::borrow::Cow;
use std::cmp::Ordering;
use crate::ascii::{
    ascii_text, escaped, is_ascii, lemma_escaped_is_ascii, push_escaped, string_from_ascii,
};
use crate::decimal::{append_decimal, decimal};
use crate::memchr::{first_index_of, lemma_first_index_of, memchr};
use crate::utf8::{str_from_utf8, string_from_utf8, string_from_utf8_lossy, utf8_lossy, Utf8Error};

verus! {

/// No byte of `bytes` is zero.
pub open spec fn no_nul(bytes: Seq<u8>) -> bool {
    forall|i: int| 0 <= i < bytes.len() ==> bytes[i] != 0
}

/// `bytes` ends in a zero byte and holds no other.
pub open spec fn is_c_string(bytes: Seq<u8>) -> bool {
    &&& bytes.len() >= 1
    &&& bytes[bytes.len() - 1] == 0
    &&& no_nul(bytes.drop_last())
}

/// What is wrong with a byte sequence that is no C string, if anything: the
/// position of its first zero byte when that is not the last position, or
/// that it holds no zero byte at all.
pub enum NulDefect {
    InteriorNul(int),
    NotNulTerminated,
}

/// The defect of `bytes`, or `None` when `bytes` is a C string.
pub open spec fn nul_defect(bytes: Seq<u8>) -> Option<NulDefect> {
    match first_index_of(bytes, 0) {
        Some(i) => if i + 1 == bytes.len() {
            None
        } else {
            Some(NulDefect::InteriorNul(i))
        },
        None => Some(NulDefect::NotNulTerminated),
    }
}

/// A sequence has no defect exactly when its one zero byte is its last
/// byte; an interior defect names the first zero byte, which is not the
/// last byte; and a sequence is unterminated exactly when it holds no zero.
pub proof fn lemma_nul_defect(bytes: Seq<u8>)
    ensures
        nul_defect(bytes).is_none() <==> is_c_string(bytes),
        nul_defect(bytes) matches Some(NulDefect::InteriorNul(i)) ==> {
            &&& 0 <= i < bytes.len() - 1
            &&& bytes[i] == 0
            &&& no_nul(bytes.subrange(0, i))
        },
        nul_defect(bytes) == Some(NulDefect::NotNulTerminated) <==> no_nul(bytes),
{
    lemma_first_index_of(bytes, 0);
    match first_index_of(bytes, 0) {
        Some(i) => {
            if i + 1 == bytes.len() {
                assert(no_nul(bytes.drop_last()));
            } else {
                assert(no_nul(bytes.subrange(0, i)));
                if is_c_string(bytes) {
                    assert(bytes.drop_last()[i] == bytes[i]);
                }
            }
        },
        None => {
            if is_c_string(bytes) {
                assert(bytes[bytes.len() - 1] == 0);
            }
        },
    }
}

/// Appending the terminator to bytes that hold no zero gives a C string,
/// and taking the terminator away again gives the same bytes back.
pub proof fn lemma_terminate(bytes: Seq<u8>)
    requires
        no_nul(bytes),
    ensures
        is_c_string(bytes.push(0)),
        bytes.push(0).drop_last() == bytes,
{
    assert(bytes.push(0).drop_last() =~= bytes);
}

/// What `CString::new` returns for `bytes`: a string with that content
/// where no byte is zero, and else an error with the position of the first
/// zero byte and the bytes as they were given.
pub open spec fn is_new_result(bytes: Seq<u8>, r: Result<CString, NulError>) -> bool {
    match r {
        Ok(c) => c.wf() && c@ == bytes && no_nul(bytes),
        Err(e) => first_index_of(bytes, 0) == Some(e.spec_nul_position() as int) && e.spec_bytes()
            == bytes,
    }
}

/// What `CString::from_vec_with_nul` returns for `bytes`: a string whose
/// buffer they are where they end in their only zero byte, and else an
/// error with their defect and the bytes as they were given.
pub open spec fn is_from_vec_with_nul_result(
    bytes: Seq<u8>,
    r: Result<CString, FromVecWithNulError>,
) -> bool {
    match r {
        Ok(c) => is_c_string(bytes) && c.wf() && c.spec_bytes_with_nul() == bytes,
        Err(e) => nul_defect(bytes) == Some(e.spec_defect()) && e.spec_bytes() == bytes,
    }
}

/// From bytes without a zero, `CString::new` makes a string, and the bytes
/// of that string, without the terminator, are the bytes it was made of.
pub proof fn lemma_new_round_trip(bytes: Seq<u8>, r: Result<CString, NulError>)
    requires
        no_nul(bytes),
        is_new_result(bytes, r),
    ensures
        r matches Ok(c) && c.wf() && c@ == bytes && c.spec_bytes_with_nul() == bytes.push(0),
{
    lemma_first_index_of(bytes, 0);
}

/// For bytes whose first zero is at `i`, `CString::new` fails with the
/// position `i`, and the error holds the bytes as they were given.
pub proof fn lemma_new_reports_nul(bytes: Seq<u8>, i: int, r: Result<CString, NulError>)
    requires
        0 <= i < bytes.len(),
        bytes[i] == 0,
        forall|j: int| 0 <= j < i ==> bytes[j] != 0,
        is_new_result(bytes, r),
    ensures
        r matches Err(e) && e.spec_nul_position() == i && e.spec_bytes() == bytes,
{
    lemma_first_index_of(bytes, 0);
}

/// `CString::from_vec_with_nul` succeeds exactly on bytes that end in
/// their only zero byte. When it fails, the error names the defect that
/// the bytes have: an interior zero at the position of their first zero
/// byte, which is not their last byte, or no zero byte at all.
pub proof fn lemma_from_vec_with_nul(bytes: Seq<u8>, r: Result<CString, FromVecWithNulError>)
    requires
        is_from_vec_with_nul_result(bytes, r),
    ensures
        r.is_ok() <==> is_c_string(bytes),
        r matches Err(e) ==> e.spec_bytes() == bytes && match e.spec_defect() {
            NulDefect::InteriorNul(pos) => {
                &&& 0 <= pos < bytes.len() - 1
                &&& bytes[pos] == 0
                &&& forall|j: int| 0 <= j < pos ==> bytes[j] != 0
            },
            NulDefect::NotNulTerminated => no_nul(bytes),
        },
{
    lemma_nul_defect(bytes);
    lemma_first_index_of(bytes, 0);
}

/// An owned C string. Two strings are equal when their bytes are, and they
/// are ordered byte by byte.
#[derive(Debug, Eq, Ord, Hash)]
pub struct CString {
    inner: Vec<u8>,
}

/// The error of `CString::new`: the input held a zero byte.
#[derive(Clone, Debug, PartialEq, Eq)]
pub struct NulError(usize, Vec<u8>);

impl View for CString {
    type V = Seq<u8>;

    /// The bytes of the string, without the terminator.
    closed spec fn view(&self) -> Seq<u8> {
        self.inner@.drop_last()
    }
}

impl CString {
    /// The buffer ends in a zero byte and holds no other.
    pub closed spec fn wf(&self) -> bool {
        is_c_string(self.inner@)
    }

    /// The bytes of the string with the terminator.
    pub open spec fn spec_bytes_with_nul(&self) -> Seq<u8> {
        self@.push(0)
    }

    /// The buffer as it is, whether or not it still holds a C string.
    pub closed spec fn spec_buffer(&self) -> Seq<u8> {
        self.inner@
    }

    /// The content of a well-formed string holds no zero byte, and its
    /// buffer is the content with the terminator.
    pub proof fn lemma_no_interior_nul(&self)
        requires
            self.wf(),
        ensures
            no_nul(self@),
            is_c_string(self.spec_bytes_with_nul()),
            self.spec_buffer() == self.spec_bytes_with_nul(),
    {
        assert(self@.push(0) =~= self.inner@);
    }

    /// Makes a C string of `t` by appending the terminator. Fails when `t`
    /// holds a zero byte, and then reports the position of the first one
    /// and hands `t` back.
    pub fn new(t: Vec<u8>) -> (r: Result<CString, NulError>)
        ensures
            is_new_result(t@, r),
    {
        Self::_new(t)
    }

    fn _new(bytes: Vec<u8>) -> (r: Result<CString, NulError>)
        ensures
            is_new_result(bytes@, r),
    {
        match memchr(0, bytes.as_slice()) {
            Some(i) => Err(NulError(i, bytes)),
            None => {
                proof {
                    lemma_first_index_of(bytes@, 0);
                }
                Ok(CString::from_vec_unchecked(bytes))
            },
        }
    }

    /// Makes a C string of `v` without looking for zero bytes in it.
    pub fn from_vec_unchecked(v: Vec<u8>) -> (c: CString)
        requires
            no_nul(v@),
        ensures
            c.wf(),
            c@ == v@,
    {
        let mut v = v;
        let ghost content = v@;
        v.push(0);
        proof {
            lemma_terminate(content);
        }
        CString { inner: v }
    }

    /// Takes a vector that already ends in its terminator.
    pub fn from_vec_with_nul_unchecked(v: Vec<u8>) -> (c: CString)
        requires
            is_c_string(v@),
        ensures
            c.wf(),
            c.spec_bytes_with_nul() == v@,
    {
        assert(v@.drop_last().push(0) =~= v@);
        CString { inner: v }
    }

    /// Takes a vector that must end in its only zero byte. Fails with the
    /// defect of `v` otherwise, and hands `v` back in the error.
    pub fn from_vec_with_nul(v: Vec<u8>) -> (r: Result<CString, FromVecWithNulError>)
        ensures
            is_from_vec_with_nul_result(v@, r),
    {
        proof {
            lemma_nul_defect(v@);
        }
        let nul_pos = memchr(0, v.as_slice());
        let len = v.len();
        match nul_pos {
            Some(nul_pos) => {
                if nul_pos + 1 == len {
                    Ok(Self::from_vec_with_nul_unchecked(v))
                } else {
                    Err(
                        FromVecWithNulError {
                            error_kind: FromBytesWithNulErrorKind::InteriorNul(nul_pos),
                            bytes: v,
                        },
                    )
                }
            },
            None => Err(
                FromVecWithNulError {
                    error_kind: FromBytesWithNulErrorKind::NotNulTerminated,
                    bytes: v,
                },
            ),
        }
    }

    fn into_inner(self) -> (inner: Vec<u8>)
        ensures
            inner@ == self.inner@,
    {
        let mut this = self;
        let mut inner: Vec<u8> = Vec::new();
        core::mem::swap(&mut this.inner, &mut inner);
        inner
    }

    /// Turns the string into text when its content is valid UTF-8. Else the
    /// error holds the string, unchanged, and tells where the content stops
    /// being UTF-8.
    pub fn into_string(self) -> (r: Result<String, IntoStringError>)
        requires
            self.wf(),
        ensures
            match r {
                Ok(s) => valid_utf8(self@) && s@ == decode_utf8(self@),
                Err(e) => {
                    &&& !valid_utf8(self@)
                    &&& e.wf()
                    &&& e.spec_cstring()@ == self@
                    &&& e.spec_utf8_error().describes(self@)
                },
            },
    {
        match string_from_utf8(self.into_bytes()) {
            Ok(s) => Ok(s),
            Err((bytes, error)) => Err(
                IntoStringError { inner: CString::from_vec_unchecked(bytes), error },
            ),
        }
    }

    /// The bytes of the string, without the terminator.
    pub fn into_bytes(self) -> (bytes: Vec<u8>)
        requires
            self.wf(),
        ensures
            bytes@ == self@,
            no_nul(bytes@),
    {
        let mut vec = self.into_inner();
        let _nul = vec.pop();
        vec
    }

    /// The bytes of the string with the terminator.
    pub fn into_bytes_with_nul(self) -> (bytes: Vec<u8>)
        requires
            self.wf(),
        ensures
            bytes@ == self.spec_bytes_with_nul(),
            is_c_string(bytes@),
    {
        proof {
            self.lemma_no_interior_nul();
        }
        let bytes = self.into_inner();
        assert(bytes@ =~= self@.push(0));
        bytes
    }

    /// The bytes of the string, without the terminator.
    pub fn as_bytes(&self) -> (bytes: &[u8])
        requires
            self.wf(),
        ensures
            bytes@ == self@,
            no_nul(bytes@),
    {
        let whole = self.inner.as_slice();
        let bytes = vstd::slice::slice_subrange(whole, 0, whole.len() - 1);
        assert(bytes@ =~= self.inner@.drop_last());
        bytes
    }

    /// The bytes of the string with the terminator.
    pub fn as_bytes_with_nul(&self) -> (bytes: &[u8])
        requires
            self.wf(),
        ensures
            bytes@ == self.spec_bytes_with_nul(),
            is_c_string(bytes@),
    {
        assert(self.inner@ =~= self@.push(0));
        self.inner.as_slice()
    }
}

impl NulError {
    /// The position that the error reports.
    pub closed spec fn spec_nul_position(&self) -> usize {
        self.0
    }

    /// The bytes that the error holds.
    pub closed spec fn spec_bytes(&self) -> Seq<u8> {
        self.1@
    }

    /// The position of the zero byte that made `CString::new` fail.
    #[verifier::when_used_as_spec(spec_nul_position)]
    pub fn nul_position(&self) -> (pos: usize)
        ensures
            pos == self.spec_nul_position(),
    {
        self.0
    }

    /// The bytes that were given to `CString::new`.
    pub fn into_vec(self) -> (bytes: Vec<u8>)
        ensures
            bytes@ == self.spec_bytes(),
    {
        self.1
    }

    /// The message of the error.
    pub fn to_string(&self) -> (text: String)
        ensures
            text@ == "nul byte found in provided data at position: "@ + decimal(
                self.spec_nul_position() as nat,
            ),
    {
        let mut text = String::from_str("nul byte found in provided data at position: ");
        append_decimal(&mut text, self.0);
        text
    }
}

#[derive(Clone, Debug, PartialEq, Eq)]
enum FromBytesWithNulErrorKind {
    InteriorNul(usize),
    NotNulTerminated,
}

impl FromBytesWithNulErrorKind {
    spec fn defect(&self) -> NulDefect {
        match self {
            FromBytesWithNulErrorKind::InteriorNul(pos) => NulDefect::InteriorNul(*pos as int),
            FromBytesWithNulErrorKind::NotNulTerminated => NulDefect::NotNulTerminated,
        }
    }
}

/// The error of `CString::from_vec_with_nul`: the vector did not end in its
/// only zero byte.
#[derive(Clone, Debug, PartialEq, Eq)]
pub struct FromVecWithNulError {
    error_kind: FromBytesWithNulErrorKind,
    bytes: Vec<u8>,
}

impl FromVecWithNulError {
    /// The defect that was found.
    pub closed spec fn spec_defect(&self) -> NulDefect {
        self.error_kind.defect()
    }

    /// The bytes that the error holds.
    pub closed spec fn spec_bytes(&self) -> Seq<u8> {
        self.bytes@
    }

    /// The bytes that were to become a `CString`.
    pub fn as_bytes(&self) -> (bytes: &[u8])
        ensures
            bytes@ == self.spec_bytes(),
    {
        self.bytes.as_slice()
    }

    /// The bytes that were to become a `CString`.
    pub fn into_bytes(self) -> (bytes: Vec<u8>)
        ensures
            bytes@ == self.spec_bytes(),
    {
        self.bytes
    }

    /// The message of the error.
    pub fn to_string(&self) -> (text: String)
        ensures
            text@ == match self.spec_defect() {
                NulDefect::InteriorNul(pos) =>
                    "data provided contains an interior nul byte at pos "@ + decimal(pos as nat),
                NulDefect::NotNulTerminated => "data provided is not nul terminated"@,
            },
    {
        match self.error_kind {
            FromBytesWithNulErrorKind::InteriorNul(pos) => {
                let mut text = String::from_str(
                    "data provided contains an interior nul byte at pos ",
                );
                append_decimal(&mut text, pos);
                text
            },
            FromBytesWithNulErrorKind::NotNulTerminated => String::from_str(
                "data provided is not nul terminated",
            ),
        }
    }
}

/// The error of `CStr::from_bytes_with_nul`: the slice did not end in its
/// only zero byte.
#[derive(Clone, Debug, PartialEq, Eq)]
pub struct FromBytesWithNulError {
    kind: FromBytesWithNulErrorKind,
}

impl FromBytesWithNulError {
    /// The defect that was found.
    pub closed spec fn spec_defect(&self) -> NulDefect {
        self.kind.defect()
    }

    /// The error for a zero byte at `pos`, before the last position.
    pub fn interior_nul(pos: usize) -> (e: FromBytesWithNulError)
        ensures
            e.spec_defect() == NulDefect::InteriorNul(pos as int),
    {
        FromBytesWithNulError { kind: FromBytesWithNulErrorKind::InteriorNul(pos) }
    }

    /// The error for a slice without a zero byte.
    pub fn not_nul_terminated() -> (e: FromBytesWithNulError)
        ensures
            e.spec_defect() == NulDefect::NotNulTerminated,
    {
        FromBytesWithNulError { kind: FromBytesWithNulErrorKind::NotNulTerminated }
    }

    /// A short description of the defect, without its position.
    pub fn __description(&self) -> (text: &'static str)
        ensures
            text@ == match self.spec_defect() {
                NulDefect::InteriorNul(_) => "data provided contains an interior nul byte"@,
                NulDefect::NotNulTerminated => "data provided is not nul terminated"@,
            },
    {
        match self.kind {
            FromBytesWithNulErrorKind::InteriorNul(..) => {
                "data provided contains an interior nul byte"
            },
            FromBytesWithNulErrorKind::NotNulTerminated => "data provided is not nul terminated",
        }
    }

    /// The message of the error: the description, followed by the position
    /// of an interior zero byte.
    pub fn to_string(&self) -> (text: String)
        ensures
            text@ == match self.spec_defect() {
                NulDefect::InteriorNul(pos) => "data provided contains an interior nul byte"@
                    + " at byte pos "@ + decimal(pos as nat),
                NulDefect::NotNulTerminated => "data provided is not nul terminated"@,
            },
    {
        let mut text = String::from_str(self.__description());
        if let FromBytesWithNulErrorKind::InteriorNul(pos) = self.kind {
            text.append(" at byte pos ");
            append_decimal(&mut text, pos);
        }
        text
    }
}

/// The error of `CString::into_string`: the content was not UTF-8.
#[derive(Clone, Debug, PartialEq, Eq)]
pub struct IntoStringError {
    inner: CString,
    error: Utf8Error,
}

impl IntoStringError {
    /// The string that could not be converted.
    pub closed spec fn spec_cstring(&self) -> CString {
        self.inner
    }

    /// Where and why the conversion failed.
    pub closed spec fn spec_utf8_error(&self) -> Utf8Error {
        self.error
    }

    /// The error holds a well-formed string and says where its content
    /// stops being UTF-8.
    pub open spec fn wf(&self) -> bool {
        self.spec_cstring().wf() && self.spec_utf8_error().describes(self.spec_cstring()@)
    }

    /// A short description of the error.
    pub fn __description(&self) -> (text: &'static str)
        ensures
            text@ == "C string contained non-utf8 bytes"@,
    {
        "C string contained non-utf8 bytes"
    }

    /// The UTF-8 error behind this error.
    pub fn __source(&self) -> (error: &Utf8Error)
        ensures
            *error == self.spec_utf8_error(),
    {
        &self.error
    }

    /// The message of the error.
    pub fn to_string(&self) -> (text: String)
        ensures
            text@ == "C string contained non-utf8 bytes"@,
    {
        String::from_str(self.__description())
    }

    /// Gives back the string that could not be converted.
    pub fn into_cstring(self) -> (c: CString)
        ensures
            c == self.spec_cstring(),
    {
        self.inner
    }

    /// Where and why the conversion failed.
    pub fn utf8_error(&self) -> (error: Utf8Error)
        ensures
            error == self.spec_utf8_error(),
    {
        self.error
    }
}

/// A borrowed C string: a view of bytes that end in their only zero byte.
/// Two strings are equal when their bytes are, and they are ordered byte
/// by byte.
#[derive(Clone, Copy, Debug, Eq, Ord, Hash)]
pub struct CStr<'a> {
    inner: &'a [u8],
}

impl<'a> View for CStr<'a> {
    type V = Seq<u8>;

    /// The bytes of the string, without the terminator.
    closed spec fn view(&self) -> Seq<u8> {
        self.inner@.drop_last()
    }
}

/// `a` and `b` agree on their first `k` bytes.
pub open spec fn common_prefix(a: Seq<u8>, b: Seq<u8>, k: int) -> bool {
    &&& 0 <= k <= a.len()
    &&& k <= b.len()
    &&& forall|i: int| 0 <= i < k ==> a[i] == b[i]
}

/// `a` comes before `b` in the byte-wise lexicographic order: after some
/// common prefix either `a` ends and `b` goes on, or `a` has the smaller
/// byte.
pub open spec fn bytes_less(a: Seq<u8>, b: Seq<u8>) -> bool {
    exists|k: int|
        #[trigger] common_prefix(a, b, k) && (if k == a.len() {
            k < b.len()
        } else {
            k < b.len() && a[k] < b[k]
        })
}

/// How two byte sequences stand to each other in the lexicographic order.
#[derive(Clone, Copy, Debug, PartialEq, Eq, Structural)]
pub enum ByteOrder {
    Less,
    Equal,
    Greater,
}

/// The place of `a` relative to `b` in the byte-wise lexicographic order.
pub open spec fn byte_order(a: Seq<u8>, b: Seq<u8>) -> ByteOrder {
    if a == b {
        ByteOrder::Equal
    } else if bytes_less(a, b) {
        ByteOrder::Less
    } else {
        ByteOrder::Greater
    }
}

/// Of two different sequences exactly one comes before the other.
pub proof fn lemma_byte_order_total(a: Seq<u8>, b: Seq<u8>)
    ensures
        a != b ==> (bytes_less(a, b) <==> !bytes_less(b, a)),
        a == b ==> !bytes_less(a, b),
{
    if a == b {
        assert forall|k: int| #[trigger] common_prefix(a, b, k) implies !(if k == a.len() {
            k < b.len()
        } else {
            k < b.len() && a[k] < b[k]
        }) by {}
    } else {
        let k = first_difference_spec(a, b, 0);
        lemma_first_difference(a, b, 0);
        if bytes_less(a, b) {
            let k1 = choose|k: int|
                #[trigger] common_prefix(a, b, k) && (if k == a.len() {
                    k < b.len()
                } else {
                    k < b.len() && a[k] < b[k]
                });
            if bytes_less(b, a) {
                let k2 = choose|k: int|
                    #[trigger] common_prefix(b, a, k) && (if k == b.len() {
                        k < a.len()
                    } else {
                        k < a.len() && b[k] < a[k]
                    });
                if k1 < k2 {
                    assert(b[k1] == a[k1]);
                } else if k2 < k1 {
                    assert(a[k2] == b[k2]);
                }
            }
        } else {
            assert(common_prefix(a, b, k));
            assert(common_prefix(b, a, k));
            if k == a.len() {
                if k == b.len() {
                    assert(a =~= b);
                }
            }
        }
    }
}

/// The first index from `from` on at which `a` and `b` differ, or the
/// length of the shorter one.
pub open spec fn first_difference_spec(a: Seq<u8>, b: Seq<u8>, from: int) -> int
    decreases a.len() - from,
{
    if from < 0 || from >= a.len() || from >= b.len() || a[from] != b[from] {
        from
    } else {
        first_difference_spec(a, b, from + 1)
    }
}

proof fn lemma_first_difference(a: Seq<u8>, b: Seq<u8>, from: int)
    requires
        common_prefix(a, b, from),
    ensures
        common_prefix(a, b, first_difference_spec(a, b, from)),
        from <= first_difference_spec(a, b, from),
        ({
            let k = first_difference_spec(a, b, from);
            k < a.len() && k < b.len() ==> a[k] != b[k]
        }),
    decreases a.len() - from,
{
    if from >= a.len() || from >= b.len() || a[from] != b[from] {
    } else {
        assert(common_prefix(a, b, from + 1));
        lemma_first_difference(a, b, from + 1);
    }
}

/// Compares two byte slices in the lexicographic order.
pub fn compare_bytes(a: &[u8], b: &[u8]) -> (order: ByteOrder)
    ensures
        order == byte_order(a@, b@),
{
    let mut i: usize = 0;
    while i < a.len() && i < b.len()
        invariant
            common_prefix(a@, b@, i as int),
        decreases a.len() - i,
    {
        if a[i] != b[i] {
            proof {
                lemma_byte_order_total(a@, b@);
                if a@[i as int] < b@[i as int] {
                    assert(bytes_less(a@, b@));
                } else {
                    assert(common_prefix(b@, a@, i as int));
                    assert(bytes_less(b@, a@));
                }
            }
            return if a[i] < b[i] {
                ByteOrder::Less
            } else {
                ByteOrder::Greater
            };
        }
        i += 1;
    }
    proof {
        lemma_byte_order_total(a@, b@);
        if a@.len() == b@.len() {
            assert(a@ =~= b@);
        } else if a@.len() < b@.len() {
            assert(bytes_less(a@, b@));
        } else {
            assert(common_prefix(b@, a@, i as int));
            assert(bytes_less(b@, a@));
        }
    }
    if a.len() == b.len() {
        ByteOrder::Equal
    } else if a.len() < b.len() {
        ByteOrder::Less
    } else {
        ByteOrder::Greater
    }
}

/// The standard ordering that stands for a place in the byte order.
pub open spec fn ordering_of(order: ByteOrder) -> Ordering {
    match order {
        ByteOrder::Less => Ordering::Less,
        ByteOrder::Equal => Ordering::Equal,
        ByteOrder::Greater => Ordering::Greater,
    }
}

/// Two C strings stand to each other as their contents do: the
/// terminators change nothing.
pub proof fn lemma_terminators_keep_order(a: Seq<u8>, b: Seq<u8>)
    requires
        no_nul(a),
        no_nul(b),
    ensures
        byte_order(a.push(0), b.push(0)) == byte_order(a, b),
{
    let at = a.push(0);
    let bt = b.push(0);
    lemma_byte_order_total(a, b);
    lemma_byte_order_total(at, bt);
    if a == b {
    } else {
        assert(at != bt) by {
            if at == bt {
                assert(at.drop_last() =~= a);
                assert(bt.drop_last() =~= b);
            }
        }
        if bytes_less(a, b) {
            let k = choose|k: int|
                #[trigger] common_prefix(a, b, k) && (if k == a.len() {
                    k < b.len()
                } else {
                    k < b.len() && a[k] < b[k]
                });
            assert(common_prefix(at, bt, k));
            assert(bytes_less(at, bt));
        } else {
            let k = choose|k: int|
                #[trigger] common_prefix(b, a, k) && (if k == b.len() {
                    k < a.len()
                } else {
                    k < a.len() && b[k] < a[k]
                });
            assert(common_prefix(bt, at, k));
            assert(bytes_less(bt, at));
        }
    }
}

impl<'a> PartialEq for CStr<'a> {
    fn eq(&self, other: &CStr<'a>) -> (equal: bool) {
        match compare_bytes(self.inner, other.inner) {
            ByteOrder::Equal => true,
            _ => false,
        }
    }
}

impl<'a> vstd::std_specs::cmp::PartialEqSpecImpl for CStr<'a> {
    open spec fn obeys_eq_spec() -> bool {
        true
    }

    open spec fn eq_spec(&self, other: &CStr<'a>) -> bool {
        self.spec_buffer() == other.spec_buffer()
    }
}

impl<'a> PartialOrd for CStr<'a> {
    fn partial_cmp(&self, other: &CStr<'a>) -> (order: Option<Ordering>) {
        Some(
            match compare_bytes(self.inner, other.inner) {
                ByteOrder::Less => Ordering::Less,
                ByteOrder::Equal => Ordering::Equal,
                ByteOrder::Greater => Ordering::Greater,
            },
        )
    }
}

impl<'a> vstd::std_specs::cmp::PartialOrdSpecImpl for CStr<'a> {
    open spec fn obeys_partial_cmp_spec() -> bool {
        true
    }

    open spec fn partial_cmp_spec(&self, other: &CStr<'a>) -> Option<Ordering> {
        Some(ordering_of(byte_order(self.spec_buffer(), other.spec_buffer())))
    }
}

impl<'a> CStr<'a> {
    /// The borrowed bytes end in a zero byte and hold no other.
    pub closed spec fn wf(&self) -> bool {
        is_c_string(self.inner@)
    }

    /// The bytes of the string with the terminator.
    pub open spec fn spec_bytes_with_nul(&self) -> Seq<u8> {
        self@.push(0)
    }

    /// The borrowed bytes as they are.
    pub closed spec fn spec_buffer(&self) -> Seq<u8> {
        self.inner@
    }

    /// The content of a well-formed string holds no zero byte, and the
    /// borrowed bytes are the content with the terminator.
    pub proof fn lemma_no_interior_nul(&self)
        requires
            self.wf(),
        ensures
            no_nul(self@),
            is_c_string(self.spec_bytes_with_nul()),
            self.spec_buffer() == self.spec_bytes_with_nul(),
    {
        assert(self@.push(0) =~= self.inner@);
    }

    /// Well-formed strings are equal, by `==`, exactly when their contents
    /// are, and `<` and its kin order them as the byte order orders their
    /// contents.
    pub proof fn lemma_operators(&self, other: &CStr<'a>)
        requires
            self.wf(),
            other.wf(),
        ensures
            self.eq_spec(other) <==> self@ == other@,
            self.partial_cmp_spec(other) == Some(ordering_of(byte_order(self@, other@))),
    {
        self.lemma_no_interior_nul();
        other.lemma_no_interior_nul();
        lemma_terminators_keep_order(self@, other@);
        if self@ == other@ {
        } else {
            assert(self.inner@.drop_last() != other.inner@.drop_last());
        }
    }

    /// Views `bytes` as a C string. Fails with the defect of `bytes` when
    /// they do not end in their only zero byte.
    pub fn from_bytes_with_nul(bytes: &'a [u8]) -> (r: Result<CStr<'a>, FromBytesWithNulError>)
        ensures
            match r {
                Ok(c) => is_c_string(bytes@) && c.wf() && c.spec_bytes_with_nul() == bytes@,
                Err(e) => nul_defect(bytes@) == Some(e.spec_defect()),
            },
    {
        proof {
            lemma_nul_defect(bytes@);
        }
        let nul_pos = memchr(0, bytes);
        let len = bytes.len();
        if let Some(nul_pos) = nul_pos {
            if nul_pos + 1 != len {
                return Err(FromBytesWithNulError::interior_nul(nul_pos));
            }
            Ok(CStr::from_bytes_with_nul_unchecked(bytes))
        } else {
            Err(FromBytesWithNulError::not_nul_terminated())
        }
    }

    /// Views `bytes`, which must end in their only zero byte, as a C string.
    pub fn from_bytes_with_nul_unchecked(bytes: &'a [u8]) -> (c: CStr<'a>)
        requires
            is_c_string(bytes@),
        ensures
            c.wf(),
            c.spec_bytes_with_nul() == bytes@,
    {
        assert(bytes@.drop_last().push(0) =~= bytes@);
        CStr { inner: bytes }
    }

    /// The bytes of the string, without the terminator.
    pub fn to_bytes(&self) -> (bytes: &'a [u8])
        requires
            self.wf(),
        ensures
            bytes@ == self@,
            no_nul(bytes@),
    {
        let whole = self.inner;
        let bytes = vstd::slice::slice_subrange(whole, 0, whole.len() - 1);
        assert(bytes@ =~= self.inner@.drop_last());
        bytes
    }

    /// The bytes of the string with the terminator.
    pub fn to_bytes_with_nul(&self) -> (bytes: &'a [u8])
        requires
            self.wf(),
        ensures
            bytes@ == self.spec_bytes_with_nul(),
            is_c_string(bytes@),
    {
        assert(self.inner@ =~= self@.push(0));
        self.inner
    }

    /// The content as text, when it is valid UTF-8; else where it stops
    /// being so.
    pub fn to_str(&self) -> (r: Result<&'a str, Utf8Error>)
        requires
            self.wf(),
        ensures
            match r {
                Ok(s) => valid_utf8(self@) && s@ == decode_utf8(self@),
                Err(e) => !valid_utf8(self@) && e.describes(self@),
            },
    {
        str_from_utf8(self.to_bytes())
    }

    /// The content as text, with each invalid sequence replaced by U+FFFD.
    pub fn to_string_lossy(&self) -> (text: Cow<'a, str>)
        requires
            self.wf(),
        ensures
            text@ == utf8_lossy(self@),
            valid_utf8(self@) ==> text@ == decode_utf8(self@),
    {
        string_from_utf8_lossy(self.to_bytes())
    }

    /// An owned copy of the string.
    pub fn to_owned(&self) -> (c: CString)
        requires
            self.wf(),
        ensures
            c.wf(),
            c@ == self@,
    {
        let inner = vstd::slice::slice_to_vec(self.inner);
        CString { inner }
    }

    /// An owned copy of the string.
    pub fn into_c_string(self) -> (c: CString)
        requires
            self.wf(),
        ensures
            c.wf(),
            c@ == self@,
    {
        self.to_owned()
    }

    /// Replaces the content of `target` by a copy of this string.
    pub fn clone_into(&self, target: &mut CString)
        requires
            self.wf(),
        ensures
            final(target).wf(),
            final(target)@ == self@,
    {
        *target = self.to_owned();
    }

    /// The rest of the string from byte `start` on. `start` may be the
    /// position of the terminator, which gives the empty string, and no
    /// more.
    pub fn index_from(&self, start: usize) -> (rest: CStr<'a>)
        requires
            self.wf(),
            start <= self@.len(),
        ensures
            rest.wf(),
            rest@ == self@.subrange(start as int, self@.len() as int),
    {
        let bytes = self.inner;
        let tail = vstd::slice::slice_subrange(bytes, start, bytes.len());
        assert(tail@.drop_last() =~= self@.subrange(start as int, self@.len() as int));
        assert(is_c_string(tail@)) by {
            assert forall|i: int| 0 <= i < tail@.drop_last().len() implies tail@.drop_last()[i]
                != 0 by {
                assert(tail@.drop_last()[i] == bytes@.drop_last()[start + i]);
            }
        }
        CStr { inner: tail }
    }

    /// The string as it is shown when debugging: between double quotes,
    /// with every byte that is not printable, and every quote and
    /// backslash, escaped.
    pub fn to_debug_string(&self) -> (text: String)
        requires
            self.wf(),
        ensures
            text@ == ascii_text(seq![34u8] + escaped(self@) + seq![34u8]),
    {
        let bytes = self.to_bytes();
        let mut out: Vec<u8> = Vec::new();
        out.push(34);
        let mut i: usize = 0;
        while i < bytes.len()
            invariant
                i <= bytes.len(),
                out@ == seq![34u8] + escaped(bytes@.take(i as int)),
            decreases bytes.len() - i,
        {
            push_escaped(&mut out, bytes[i]);
            proof {
                assert(bytes@.take(i + 1).drop_last() =~= bytes@.take(i as int));
                assert(out@ =~= seq![34u8] + escaped(bytes@.take(i + 1)));
            }
            i += 1;
        }
        out.push(34);
        proof {
            assert(bytes@.take(i as int) =~= self@);
            lemma_escaped_is_ascii(self@);
            assert(is_ascii(out@));
        }
        string_from_ascii(out)
    }

    /// Where this string stands relative to `other`, byte by byte and
    /// without the terminators.
    pub fn order(&self, other: &CStr<'_>) -> (order: ByteOrder)
        requires
            self.wf(),
            other.wf(),
        ensures
            order == byte_order(self@, other@),
    {
        compare_bytes(self.to_bytes(), other.to_bytes())
    }
}

impl CString {
    /// A view of the whole string.
    pub fn as_c_str(&self) -> (c: CStr<'_>)
        requires
            self.wf(),
        ensures
            c.wf(),
            c@ == self@,
    {
        CStr { inner: self.inner.as_slice() }
    }
}

/// Wraps `<[u8]>::first_mut` and stores a zero through what it returns:
/// afterwards the first byte of a buffer that is not empty is zero, and
/// nothing else has changed. The call neither unwinds nor opens an
/// invariant.
#[verifier::external_body]
fn wipe_first(bytes: &mut Vec<u8>)
    ensures
        final(bytes)@.len() == old(bytes)@.len(),
        forall|i: int| 1 <= i < old(bytes)@.len() ==> final(bytes)@[i] == old(bytes)@[i],
        old(bytes)@.len() > 0 ==> final(bytes)@[0] == 0,
    opens_invariants none
    no_unwind
{
    if let Some(first) = bytes.first_mut() {
        *first = 0;
    }
}

impl Drop for CString {
    /// Zeroes the first byte of the buffer before it is released, so that a
    /// stale pointer into it sees the empty string.
    fn drop(&mut self)
        ensures
            final(self).spec_buffer().len() == old(self).spec_buffer().len(),
            forall|i: int|
                1 <= i < old(self).spec_buffer().len() ==> final(self).spec_buffer()[i] == old(
                    self,
                ).spec_buffer()[i],
            old(self).spec_buffer().len() > 0 ==> final(self).spec_buffer()[0] == 0,
        opens_invariants none
        no_unwind
    {
        wipe_first(&mut self.inner);
    }
}

impl PartialEq for CString {
    fn eq(&self, other: &CString) -> (equal: bool) {
        match compare_bytes(self.inner.as_slice(), other.inner.as_slice()) {
            ByteOrder::Equal => true,
            _ => false,
        }
    }
}

impl vstd::std_specs::cmp::PartialEqSpecImpl for CString {
    open spec fn obeys_eq_spec() -> bool {
        true
    }

    open spec fn eq_spec(&self, other: &CString) -> bool {
        self.spec_buffer() == other.spec_buffer()
    }
}

impl PartialOrd for CString {
    fn partial_cmp(&self, other: &CString) -> (order: Option<Ordering>) {
        Some(
            match compare_bytes(self.inner.as_slice(), other.inner.as_slice()) {
                ByteOrder::Less => Ordering::Less,
                ByteOrder::Equal => Ordering::Equal,
                ByteOrder::Greater => Ordering::Greater,
            },
        )
    }
}

impl vstd::std_specs::cmp::PartialOrdSpecImpl for CString {
    open spec fn obeys_partial_cmp_spec() -> bool {
        true
    }

    open spec fn partial_cmp_spec(&self, other: &CString) -> Option<Ordering> {
        Some(ordering_of(byte_order(self.spec_buffer(), other.spec_buffer())))
    }
}

impl CString {
    /// Well-formed strings are equal, by `==`, exactly when their contents
    /// are, and `<` and its kin order them as the byte order orders their
    /// contents.
    pub proof fn lemma_operators(&self, other: &CString)
        requires
            self.wf(),
            other.wf(),
        ensures
            self.eq_spec(other) <==> self@ == other@,
            self.partial_cmp_spec(other) == Some(ordering_of(byte_order(self@, other@))),
    {
        self.lemma_no_interior_nul();
        other.lemma_no_interior_nul();
        lemma_terminators_keep_order(self@, other@);
        if self@ == other@ {
        } else {
            assert(self.inner@.drop_last() != other.inner@.drop_last());
        }
    }
}

impl<'a> Default for CStr<'a> {
    /// The empty string.
    fn default() -> (c: CStr<'a>)
        ensures
            c.wf(),
            c@ == Seq::<u8>::empty(),
    {
        let bytes: &'static [u8] = &[0];
        assert(bytes@.drop_last() =~= Seq::<u8>::empty());
        CStr { inner: bytes }
    }
}

impl Clone for CString {
    /// A copy of the string in a buffer of its own.
    fn clone(&self) -> (c: CString)
        ensures
            c.spec_buffer() == self.spec_buffer(),
            c@ == self@,
            c.wf() == self.wf(),
    {
        let inner = vstd::slice::slice_to_vec(self.inner.as_slice());
        CString { inner }
    }
}

impl Default for CString {
    /// The empty string.
    fn default() -> (c: CString)
        ensures
            c.wf(),
            c@ == Seq::<u8>::empty(),
    {
        let c = CString::from_vec_unchecked(Vec::new());
        assert(c@ =~= Seq::<u8>::empty());
        c
    }
}

} // verus!
