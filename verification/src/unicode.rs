//! Strings for the host: how wide the units of a string must be.

use vstd::prelude::*;
use vstd::string::StringSliceAdditionalSpecFns;

verus! {

/// How a string is stored by the host: by the widest of its characters.
#[derive(Clone, Copy, Debug, PartialEq, Eq, Structural)]
pub enum UnicodeKind {
    /// The string is empty.
    Empty,
    /// Every character is below 128.
    Ascii,
    /// Every character is below 256.
    OneByte,
    /// Every character is below 65536.
    TwoByte,
    /// Some character is 65536 or more.
    FourByte,
}

/// A string as it is handed to the host.
#[derive(Debug, PartialEq, Eq)]
pub struct Unicode {
    pub kind: UnicodeKind,
    pub text: String,
}

/// Whether a byte starts a character of UTF-8: whether it is no
/// continuation byte.
pub open spec fn is_leading(byte: u8) -> bool {
    byte < 0x80 || byte >= 0xc0
}

/// How many bytes start a character.
pub open spec fn leading_bytes(bytes: Seq<u8>) -> nat
    decreases bytes.len(),
{
    if bytes.len() == 0 {
        0
    } else {
        leading_bytes(bytes.drop_last()) + if is_leading(bytes.last()) {
            1nat
        } else {
            0nat
        }
    }
}

/// The greatest of the bytes; zero where there are none.
pub open spec fn max_byte(bytes: Seq<u8>) -> u8
    decreases bytes.len(),
{
    if bytes.len() == 0 {
        0
    } else if bytes.last() > max_byte(bytes.drop_last()) {
        bytes.last()
    } else {
        max_byte(bytes.drop_last())
    }
}

/// How a string with the UTF-8 bytes `bytes` is stored: as ASCII where
/// every byte starts a character, else by its greatest byte, which tells
/// how wide its widest character is.
pub open spec fn kind_of(bytes: Seq<u8>) -> UnicodeKind {
    if bytes.len() == 0 {
        UnicodeKind::Empty
    } else if leading_bytes(bytes) == bytes.len() {
        UnicodeKind::Ascii
    } else if max_byte(bytes) >= 0xf0 {
        UnicodeKind::FourByte
    } else if max_byte(bytes) >= 0xc4 {
        UnicodeKind::TwoByte
    } else {
        UnicodeKind::OneByte
    }
}

/// The number of characters in UTF-8 bytes, from `bytecount::num_chars`:
/// the number of bytes that are no continuation bytes.
#[verifier::external_body]
fn num_chars(bytes: &[u8]) -> (n: usize)
    ensures
        n == leading_bytes(bytes@),
{
    bytecount::num_chars(bytes)
}

/// The greatest of the bytes.
fn greatest(bytes: &[u8]) -> (m: u8)
    ensures
        m == max_byte(bytes@),
{
    let mut m: u8 = 0;
    let mut i: usize = 0;
    assert(bytes@.take(0) =~= Seq::<u8>::empty());
    while i < bytes.len()
        invariant
            i <= bytes@.len(),
            m == max_byte(bytes@.take(i as int)),
        decreases bytes@.len() - i,
    {
        assert(bytes@.take(i + 1).drop_last() =~= bytes@.take(i as int));
        if bytes[i] > m {
            m = bytes[i];
        }
        i = i + 1;
    }
    assert(bytes@.take(bytes@.len() as int) =~= bytes@);
    m
}

/// The string `buf` for the host, with the kind that it is stored as.
pub fn unicode_from_str(buf: &str) -> (out: Unicode)
    ensures
        out.kind == kind_of(buf.spec_bytes()),
        out.text@ == buf@,
{
    let bytes = buf.as_bytes();
    let kind = if bytes.len() == 0 {
        UnicodeKind::Empty
    } else {
        let count = num_chars(bytes);
        if bytes.len() == count {
            UnicodeKind::Ascii
        } else {
            let max = greatest(bytes);
            if max >= 0xf0 {
                UnicodeKind::FourByte
            } else if max >= 0xc4 {
                UnicodeKind::TwoByte
            } else {
                UnicodeKind::OneByte
            }
        }
    };
    Unicode { kind, text: buf.to_owned() }
}

} // verus!
