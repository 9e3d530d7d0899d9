//! The byte-string convention of the module entry point.
//!
//! An argument crosses as the UTF-8 bytes of its text followed by one zero
//! byte, so its text may hold no zero byte itself. What comes back is the
//! content of the returned buffer, without its terminator: it must be UTF-8,
//! and reads as lines separated by line feeds.

use vstd::prelude::*;
use vstd::string::{StrSliceExecFns, StringSliceAdditionalSpecFns};
use vstd::utf8::{decode_utf8, encode_utf8, valid_utf8};
use crate::text::{chars_of, split, split_chars, texts};

verus! {

/// The error of `core::str::from_utf8`. Nothing of its inside is known here.
#[verifier::external_type_specification]
#[verifier::external_body]
pub struct ExUtf8Error(core::str::Utf8Error);

/// `core::str::from_utf8` succeeds exactly on well-formed UTF-8, and the
/// string slice it then returns has the given bytes as its encoding.
pub assume_specification<'a>[ core::str::from_utf8 ](v: &'a [u8]) -> (r: Result<
    &'a str,
    core::str::Utf8Error,
>)
    ensures
        r is Ok <==> valid_utf8(v@),
        r matches Ok(s) ==> s.spec_bytes() == v@,
;

/// Why a value could not cross the boundary.
#[derive(Clone, Copy, Debug, PartialEq, Eq, Structural)]
pub enum MarshalError {
    /// An argument holds a zero byte.
    InteriorNul,
    /// A returned buffer is not UTF-8.
    InvalidText,
}

/// The encoding of `text` as an argument.
pub open spec fn encoded(text: Seq<char>) -> Seq<u8> {
    encode_utf8(text).push(0u8)
}

/// Whether `text` can be an argument.
pub open spec fn encodable(text: Seq<char>) -> bool {
    !encode_utf8(text).contains(0u8)
}

/// The lines of a returned text: its pieces between line feeds that are not
/// empty.
pub open spec fn lines(text: Seq<char>) -> Seq<Seq<char>> {
    split(text, '\n').filter(|l: Seq<char>| l.len() > 0)
}

/// Encodes one argument.
pub fn encode_argument(text: &str) -> (r: Result<Vec<u8>, MarshalError>)
    ensures
        r is Ok <==> encodable(text@),
        r matches Ok(bytes) ==> bytes@ == encoded(text@),
        r matches Err(e) ==> e == MarshalError::InteriorNul,
{
    let mut bytes = text.as_bytes_vec();
    let mut i: usize = 0;
    while i < bytes.len()
        invariant
            i <= bytes.len(),
            bytes@ == encode_utf8(text@),
            forall|k: int| 0 <= k < i ==> bytes@[k] != 0u8,
        decreases bytes.len() - i,
    {
        if bytes[i] == 0 {
            return Err(MarshalError::InteriorNul);
        }
        i += 1;
    }
    bytes.push(0);
    Ok(bytes)
}

/// The three arguments of one call of a module, encoded.
#[derive(Debug, PartialEq, Eq)]
pub struct Invocation {
    pub command: Vec<u8>,
    pub parameter: Vec<u8>,
    pub author: Vec<u8>,
}

impl Invocation {
    /// Encodes the arguments of one call. It fails as soon as one of them
    /// cannot be encoded.
    pub fn encode(command: &str, parameter: &str, author: &str) -> (r: Result<
        Invocation,
        MarshalError,
    >)
        ensures
            r is Ok <==> encodable(command@) && encodable(parameter@) && encodable(author@),
            r matches Ok(call) ==> {
                &&& call.command@ == encoded(command@)
                &&& call.parameter@ == encoded(parameter@)
                &&& call.author@ == encoded(author@)
            },
            r matches Err(e) ==> e == MarshalError::InteriorNul,
    {
        let command = match encode_argument(command) {
            Ok(bytes) => bytes,
            Err(e) => {
                return Err(e);
            },
        };
        let parameter = match encode_argument(parameter) {
            Ok(bytes) => bytes,
            Err(e) => {
                return Err(e);
            },
        };
        let author = match encode_argument(author) {
            Ok(bytes) => bytes,
            Err(e) => {
                return Err(e);
            },
        };
        Ok(Invocation { command, parameter, author })
    }
}

/// Keeps the strings of `all` that are not empty.
pub fn non_empty(all: Vec<String>) -> (out: Vec<String>)
    ensures
        texts(out@) == texts(all@).filter(|l: Seq<char>| l.len() > 0),
{
    let ghost keep = |l: Seq<char>| l.len() > 0;
    let ghost whole = texts(all@);
    let mut out: Vec<String> = Vec::new();
    proof {
        reveal(Seq::filter);
        assert(whole.take(0) == Seq::<Seq<char>>::empty());
    }
    for s in it: all
        invariant
            keep == |l: Seq<char>| l.len() > 0,
            it.seq().len() == whole.len(),
            forall|k: int| 0 <= k < whole.len() ==> (#[trigger] it.seq()[k])@ == whole[k],
            texts(out@) == whole.take(it.index()).filter(keep),
    {
        proof {
            reveal(Seq::filter);
            let next = whole.take(it.index() + 1);
            assert(next.drop_last() == whole.take(it.index()));
            assert(next.last() == s@);
        }
        if s.as_str().unicode_len() > 0 {
            let ghost before = texts(out@);
            out.push(s);
            assert(texts(out@) == before.push(out@.last()@));
        }
    }
    assert(whole.take(whole.len() as int) == whole);
    out
}

/// Decodes a returned buffer into its lines.
pub fn decode_output(buffer: &Vec<u8>) -> (r: Result<Vec<String>, MarshalError>)
    ensures
        r is Ok <==> valid_utf8(buffer@),
        r matches Ok(out) ==> texts(out@) == lines(decode_utf8(buffer@)),
        r matches Err(e) ==> e == MarshalError::InvalidText,
{
    match core::str::from_utf8(buffer.as_slice()) {
        Ok(text) => {
            proof {
                vstd::utf8::encode_utf8_decode_utf8(text@);
            }
            let chars = chars_of(text);
            Ok(non_empty(split_chars(&chars, '\n')))
        },
        Err(_) => Err(MarshalError::InvalidText),
    }
}

} // verus!
