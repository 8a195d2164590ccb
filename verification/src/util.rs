use vstd::prelude::*;
use vstd::string::StringSliceAdditionalSpecFns;
use vstd::utf8::valid_utf8;
use crate::support::{strlen, bounded_string, c_string_len};

verus! {

#[verifier::external_type_specification]
#[verifier::external_body]
pub struct ExUtf8Error(core::str::Utf8Error);

/// `core::str::from_utf8`: claimed to succeed exactly on valid UTF-8, and then to view the
/// same bytes as text (the std documentation: "Returns `Err` if the slice is not UTF-8").
#[verifier::external_body]
pub(crate) fn str_from_utf8(bytes: &[u8]) -> (text: Result<&str, core::str::Utf8Error>)
    ensures
        text is Ok <==> valid_utf8(bytes@),
        text matches Ok(s) ==> s.spec_bytes() == bytes@,
{
    core::str::from_utf8(bytes)
}

/// Why bytes are not UTF-8 text: the length of their longest prefix that is, and the error
/// that `core::str::from_utf8` reported for them (which also tells a sequence cut off at
/// the end from an invalid one, by its `error_len`).
#[derive(Clone, Copy, Debug)]
pub struct Utf8Failure {
    pub valid_up_to: usize,
    pub error: core::str::Utf8Error,
}

/// The length of the longest prefix of `b`, no longer than `i` bytes, that is valid UTF-8.
pub open spec fn longest_valid_prefix_upto(b: Seq<u8>, i: int) -> int
    decreases i,
{
    if i <= 0 {
        0
    } else if valid_utf8(b.take(i)) {
        i
    } else {
        longest_valid_prefix_upto(b, i - 1)
    }
}

/// The length of the longest prefix of `b` that is valid UTF-8.
pub open spec fn longest_valid_prefix(b: Seq<u8>) -> int {
    longest_valid_prefix_upto(b, b.len() as int)
}

/// The longest valid prefix is valid, and no longer prefix is.
pub proof fn lemma_longest_valid_prefix_is_longest(b: Seq<u8>)
    ensures
        0 <= longest_valid_prefix(b) <= b.len(),
        valid_utf8(b.take(longest_valid_prefix(b))),
        forall|k: int| longest_valid_prefix(b) < k <= b.len() ==> !valid_utf8(#[trigger] b.take(k)),
{
    lemma_longest_upto(b, b.len() as int);
}

proof fn lemma_longest_upto(b: Seq<u8>, i: int)
    requires
        0 <= i <= b.len(),
    ensures
        0 <= longest_valid_prefix_upto(b, i) <= i,
        valid_utf8(b.take(longest_valid_prefix_upto(b, i))),
        forall|k: int| longest_valid_prefix_upto(b, i) < k <= i ==> !valid_utf8(#[trigger] b.take(k)),
    decreases i,
{
    if i <= 0 {
        assert(b.take(0).len() == 0);
    } else if !valid_utf8(b.take(i)) {
        lemma_longest_upto(b, i - 1);
    }
}

/// `bytes` read as UTF-8 text; when they are not, the length of their longest prefix that
/// is, with the error that `core::str::from_utf8` reported.
pub fn utf8_text(bytes: &[u8]) -> (text: Result<&str, Utf8Failure>)
    ensures
        text is Ok <==> valid_utf8(bytes@),
        text matches Ok(s) ==> s.spec_bytes() == bytes@,
        text matches Err(f) ==> f.valid_up_to == longest_valid_prefix(bytes@),
{
    match str_from_utf8(bytes) {
        Ok(s) => Ok(s),
        Err(error) => {
            let len = bytes.len();
            assert(bytes@.take(len as int) =~= bytes@);
            let mut i: usize = len;
            while i > 0
                invariant
                    i <= len,
                    len == bytes@.len(),
                    longest_valid_prefix(bytes@) == longest_valid_prefix_upto(bytes@, i as int),
                    !valid_utf8(bytes@),
                    bytes@.take(len as int) == bytes@,
                decreases i,
            {
                let prefix = vstd::slice::slice_subrange(bytes, 0, i);
                assert(prefix@ =~= bytes@.take(i as int));
                if i < len {
                    if let Ok(_) = str_from_utf8(prefix) {
                        return Err(Utf8Failure { valid_up_to: i, error });
                    }
                }
                i = i - 1;
            }
            Err(Utf8Failure { valid_up_to: 0, error })
        },
    }
}

/// The zero-terminated string at the start of `text`, without its terminator, reading at
/// most `limit` bytes.
pub fn void_as_bytes(text: &[u8], limit: usize) -> (bytes: &[u8])
    requires
        bounded_string(text@, limit as int),
    ensures
        bytes@ == text@.take(c_string_len(text@, limit as int)),
{
    let len = strlen(text, limit);
    proof {
        if len > text@.len() {
            assert(false);
        }
    }
    vstd::slice::slice_subrange(text, 0, len)
}

/// The zero-terminated string at the start of `text`, read as UTF-8 text, reading at most
/// `limit` bytes.
pub fn void_as_str(text: &[u8], limit: usize) -> (s: Result<&str, Utf8Failure>)
    requires
        bounded_string(text@, limit as int),
    ensures
        s is Ok <==> valid_utf8(text@.take(c_string_len(text@, limit as int))),
        s matches Ok(t) ==> t.spec_bytes() == text@.take(c_string_len(text@, limit as int)),
        s matches Err(f) ==> f.valid_up_to == longest_valid_prefix(
            text@.take(c_string_len(text@, limit as int)),
        ),
{
    utf8_text(void_as_bytes(text, limit))
}

/// The zero-terminated string at the start of the byte buffer `text`, read as UTF-8 text,
/// reading at most `limit` bytes.
pub fn u8_as_str(text: &[u8], limit: usize) -> (s: Result<&str, Utf8Failure>)
    requires
        bounded_string(text@, limit as int),
    ensures
        s is Ok <==> valid_utf8(text@.take(c_string_len(text@, limit as int))),
        s matches Ok(t) ==> t.spec_bytes() == text@.take(c_string_len(text@, limit as int)),
        s matches Err(f) ==> f.valid_up_to == longest_valid_prefix(
            text@.take(c_string_len(text@, limit as int)),
        ),
{
    utf8_text(void_as_bytes(text, limit))
}

} // verus!
