//! The CURRENT file: a single line that names the live manifest.

use crate::error::Error;
use crate::filename::{invalid_manifest_message, manifest_number_of, validate_manifest};
use vstd::prelude::*;
use vstd::utf8::{
    decode_utf8, decode_utf8_encode_utf8, encode_utf8, encode_utf8_decode_utf8,
    encode_utf8_valid_utf8, is_char_boundary_iff_not_is_continuation_byte, pop_first_scalar,
    valid_utf8,
    valid_utf8_concat,
};

verus! {

/// The newline byte that ends the line of a CURRENT file.
pub open spec fn newline() -> u8 {
    10
}

/// What the bytes of a CURRENT file name: the bytes of the manifest file
/// name, or the message of the corruption error that reading them reports.
pub open spec fn parse_current_spec(bytes: Seq<u8>) -> Result<Seq<u8>, Seq<char>> {
    if !valid_utf8(bytes) {
        Err("CURRENT must be valid UTF-8 text"@)
    } else if bytes.len() == 0 || bytes.last() != newline() {
        Err("CURRENT must end with a single newline"@)
    } else if bytes.len() == 1 || bytes.drop_last().contains(newline()) {
        Err("CURRENT must contain exactly one manifest filename line"@)
    } else if manifest_number_of(bytes.drop_last()) is None {
        Err(invalid_manifest_message(decode_utf8(bytes.drop_last())))
    } else {
        Ok(bytes.drop_last())
    }
}

/// The bytes of a CURRENT file that names the manifest `name`.
pub open spec fn current_contents_spec(name: Seq<char>) -> Seq<u8> {
    encode_utf8(name).push(newline())
}

/// The text that `bytes` encode, when they are valid UTF-8 (`std::str::from_utf8`).
/// Trusted: `from_utf8` succeeds exactly on valid UTF-8, and the text it
/// returns is made of the characters that the bytes encode.
#[verifier::external_body]
fn str_from_utf8<'a>(bytes: &'a [u8]) -> (text: Option<&'a str>)
    ensures
        text is Some <==> valid_utf8(bytes@),
        text matches Some(t) ==> t@ == decode_utf8(bytes@),
{
    match std::str::from_utf8(bytes) {
        Ok(t) => Some(t),
        Err(_) => None,
    }
}

fn corruption(message: &str) -> (e: Error)
    ensures
        e matches Error::Corruption { message: m } && m@ == message@,
{
    Error::Corruption { message: String::from_str(message) }
}

/// Reads the manifest file name out of the bytes of a CURRENT file: valid
/// UTF-8 text of one non-empty line that ends with a newline and holds a
/// valid manifest file name.
pub fn parse(bytes: &[u8]) -> (r: Result<String, Error>)
    ensures
        match parse_current_spec(bytes@) {
            Ok(name) => r matches Ok(s) && encode_utf8(s@) == name && s@ == decode_utf8(name),
            Err(msg) => r matches Err(Error::Corruption { message }) && message@ == msg,
        },
{
    let text = match str_from_utf8(bytes) {
        Some(t) => t,
        None => return Err(corruption("CURRENT must be valid UTF-8 text")),
    };
    proof {
        decode_utf8_encode_utf8(bytes@);
    }
    let n = bytes.len();
    if n == 0 || bytes[n - 1] != 10 {
        return Err(corruption("CURRENT must end with a single newline"));
    }
    let name_len = n - 1;
    let ghost name_bytes = bytes@.drop_last();
    if name_len == 0 {
        return Err(corruption("CURRENT must contain exactly one manifest filename line"));
    }
    let mut i: usize = 0;
    while i < name_len
        invariant
            i <= name_len,
            name_len == bytes@.len() - 1,
            name_bytes == bytes@.drop_last(),
            valid_utf8(bytes@),
            bytes@.last() == newline(),
            bytes@.len() >= 2,
            forall|j: int| 0 <= j < i ==> name_bytes[j] != newline(),
        decreases name_len - i,
    {
        if bytes[i] == 10 {
            assert(name_bytes[i as int] == newline());
            return Err(corruption("CURRENT must contain exactly one manifest filename line"));
        }
        i = i + 1;
    }
    assert(!name_bytes.contains(newline()));
    proof {
        is_char_boundary_iff_not_is_continuation_byte(bytes@, name_len as int);
    }
    let (name, _) = text.split_at(name_len);
    proof {
        assert(encode_utf8(name@) =~= name_bytes);
        encode_utf8_decode_utf8(name@);
    }
    match validate_manifest(name) {
        Ok(()) => {},
        Err(e) => return Err(e),
    }
    Ok(name.to_owned())
}

/// The bytes to store in a CURRENT file that names `manifest_filename`: the
/// name and a newline, once the name is checked to be a manifest file name.
pub fn current_contents(manifest_filename: &str) -> (r: Result<Vec<u8>, Error>)
    ensures
        manifest_number_of(encode_utf8(manifest_filename@)) is Some ==> (r matches Ok(b) && b@
            == current_contents_spec(manifest_filename@)),
        manifest_number_of(encode_utf8(manifest_filename@)) is None ==> (r matches Err(
            Error::Corruption { message },
        ) && message@ == invalid_manifest_message(manifest_filename@)),
{
    match validate_manifest(manifest_filename) {
        Ok(()) => {},
        Err(e) => return Err(e),
    }
    let name = manifest_filename.as_bytes();
    let mut contents: Vec<u8> = Vec::new();
    let mut i: usize = 0;
    while i < name.len()
        invariant
            i <= name@.len(),
            contents@ == name@.subrange(0, i as int),
        decreases name@.len() - i,
    {
        contents.push(name[i]);
        assert(name@.subrange(0, i + 1) =~= name@.subrange(0, i as int).push(name@[i as int]));
        i = i + 1;
    }
    assert(name@.subrange(0, name@.len() as int) =~= name@);
    contents.push(10);
    Ok(contents)
}

proof fn lemma_newline_valid_utf8()
    ensures
        valid_utf8(seq![newline()]),
{
    let nl = seq![newline()];
    let b: u8 = 10;
    assert(b & 0x7f == 10u8) by (bit_vector)
        requires
            b == 10u8,
    ;
    assert(nl[0] == b);
    assert(pop_first_scalar(nl) =~= Seq::<u8>::empty());
    reveal_with_fuel(valid_utf8, 2);
}

/// Reading back what is stored in CURRENT for a manifest file name gives
/// that name.
pub proof fn lemma_current_roundtrip(name: Seq<char>)
    requires
        manifest_number_of(encode_utf8(name)) is Some,
    ensures
        parse_current_spec(current_contents_spec(name)) == Ok::<_, Seq<char>>(encode_utf8(name)),
        decode_utf8(encode_utf8(name)) == name,
{
    encode_utf8_decode_utf8(name);
    let b = encode_utf8(name);
    let contents = current_contents_spec(name);
    encode_utf8_valid_utf8(name);
    lemma_newline_valid_utf8();
    valid_utf8_concat(b, seq![newline()]);
    assert(contents =~= b + seq![newline()]);
    assert(contents.drop_last() =~= b);
    assert(!b.contains(newline())) by {
        if b.contains(newline()) {
            let j = choose|j: int| 0 <= j < b.len() && b[j] == newline();
            if j < 9 {
                assert(b.subrange(0, 9)[j] == b[j]);
            } else {
                assert(b[j] == b[j]);
            }
        }
    }
}

} // verus!
