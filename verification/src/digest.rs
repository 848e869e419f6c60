//! Digests: the content digest of a file, and the canonical SHA-256 hash of a store object.

use vstd::prelude::*;
use vstd::string::*;

use crate::text::{chars_of, concat2, decimal, decimal_text, digit_char, digit_str};

verus! {

/// The digest that a content-addressed store keeps of one blob: the hash in text form and
/// the number of bytes that were hashed.
#[derive(Debug)]
pub struct FileDigest {
    pub raw: String,
    pub size: u64,
}

/// A [`FileDigest`] over mathematical text.
pub struct DigestV {
    pub raw: Seq<char>,
    pub size: u64,
}

impl View for FileDigest {
    type V = DigestV;

    open spec fn view(&self) -> DigestV {
        DigestV { raw: self.raw@, size: self.size }
    }
}

/// How a digest is written down: the hash, a colon, the size.
pub open spec fn digest_text(d: DigestV) -> Seq<char> {
    d.raw + ":"@ + decimal_text(d.size as nat)
}

impl FileDigest {
    /// The digest as `hash:size`.
    pub fn to_text(&self) -> (res: String)
        ensures
            res@ == digest_text(self@),
    {
        let mut s = concat2(&self.raw, ":");
        s.append(&decimal(self.size));
        s
    }

    /// A second copy of the digest.
    pub fn duplicate(&self) -> (res: FileDigest)
        ensures
            res@ == self@,
    {
        FileDigest { raw: self.raw.clone(), size: self.size }
    }
}

/// The SHA-256 hash of a byte sequence: what `sha2::Sha256::digest` returns for it.
pub uninterp spec fn sha256(data: Seq<u8>) -> Seq<u8>;

/// Calls `sha2::Sha256::digest`. Claimed of it: the output depends on the bytes of `data` alone,
/// and it has 32 bytes. The bound keeps the length of the message, counted in bits, below
/// 2 to the power of 64, as the hash function asks.
#[verifier::external_body]
pub(crate) fn sha256_digest(data: &[u8]) -> (res: Vec<u8>)
    requires
        data@.len() <= 0x1fff_ffff_ffff_ffff,
    ensures
        res@ == sha256(data@),
        res@.len() == 32,
{
    <sha2::Sha256 as sha2::Digest>::digest(data).to_vec()
}

/// The lower-case hexadecimal form of a byte sequence, two digits for each byte.
pub open spec fn hex_text(bytes: Seq<u8>) -> Seq<char>
    decreases bytes.len(),
{
    if bytes.len() == 0 {
        seq![]
    } else {
        hex_text(bytes.drop_last()).push(digit_char((bytes.last() / 16) as int)).push(
            digit_char((bytes.last() % 16) as int),
        )
    }
}

/// The lower-case hexadecimal form of `bytes`.
pub(crate) fn to_hex(bytes: &[u8]) -> (res: String)
    ensures
        res@ == hex_text(bytes@),
{
    let mut s = String::new();
    let mut i: usize = 0;
    while i < bytes.len()
        invariant
            i <= bytes@.len(),
            s@ == hex_text(bytes@.take(i as int)),
        decreases bytes.len() - i,
    {
        let b: u8 = bytes[i];
        assert(bytes@.take(i + 1).drop_last() =~= bytes@.take(i as int));
        s.append(digit_str(b / 16));
        s.append(digit_str(b % 16));
        assert(s@ =~= hex_text(bytes@.take(i + 1)));
        i += 1;
    }
    assert(bytes@.take(bytes@.len() as int) =~= bytes@);
    s
}

/// A hexadecimal digit of either case.
pub open spec fn is_hex_digit(c: char) -> bool {
    ('0' <= c && c <= '9') || ('a' <= c && c <= 'f') || ('A' <= c && c <= 'F')
}

/// A canonical tree hash: `sha256:` and 64 hexadecimal digits.
pub open spec fn is_sha256_text(value: Seq<char>) -> bool {
    &&& value.len() == 71
    &&& value.take(7) == "sha256:"@
    &&& forall|i: int| 7 <= i < 71 ==> is_hex_digit(#[trigger] value[i])
}

/// Whether `value` has the form of a canonical tree hash.
pub fn is_sha256_hash(value: &str) -> (res: bool)
    ensures
        res == is_sha256_text(value@),
{
    let chars = chars_of(value);
    let prefix = chars_of("sha256:");
    proof {
        reveal_strlit("sha256:");
    }
    if chars.len() != 71 {
        return false;
    }
    let mut i: usize = 0;
    while i < 7
        invariant
            i <= 7,
            chars@ == value@,
            prefix@ == "sha256:"@,
            chars@.len() == 71,
            prefix@.len() == 7,
            forall|j: int| 0 <= j < i ==> chars@[j] == prefix@[j],
        decreases 7 - i,
    {
        if chars[i] != prefix[i] {
            assert(value@.take(7)[i as int] != prefix@[i as int]);
            return false;
        }
        i += 1;
    }
    assert(chars@.take(7) =~= prefix@);
    while i < 71
        invariant
            7 <= i <= 71,
            chars@ == value@,
            chars@.len() == 71,
            forall|j: int| 7 <= j < i ==> is_hex_digit(#[trigger] chars@[j]),
        decreases 71 - i,
    {
        let c: char = chars[i];
        if !(('0' <= c && c <= '9') || ('a' <= c && c <= 'f') || ('A' <= c && c <= 'F')) {
            assert(!is_hex_digit(value@[i as int]));
            return false;
        }
        i += 1;
    }
    true
}

/// The text form of a SHA-256 hash as a canonical tree hash.
pub open spec fn hash_text(hash: Seq<u8>) -> Seq<char> {
    "sha256:"@ + hex_text(hash)
}

/// The text form of a SHA-256 hash as a canonical tree hash.
pub fn tree_hash_text(hash: &[u8]) -> (res: String)
    ensures
        res@ == hash_text(hash@),
{
    concat2("sha256:", &to_hex(hash))
}

} // verus!
