//! Digests and their text: the outside calls that hash, sign and encode bytes.

use vstd::prelude::*;
use vstd::string::*;

use base64::Engine;
use hmac::Mac;

verus! {

/// The SHA-256 of some bytes.
pub uninterp spec fn sha256_of(b: Seq<u8>) -> Seq<u8>;

/// A SHA-256 that is fed piece by piece. `sha2::Sha256` is a name for a generic type
/// whose bounds are traits of other crates, so the value is held here.
#[verifier::external_body]
pub struct Hashing {
    hasher: sha2::Sha256,
}

/// What a SHA-256 was fed so far, one piece behind the other.
pub uninterp spec fn fed(h: Hashing) -> Seq<u8>;

impl Hashing {
    /// `sha2::Sha256::new`: nothing was fed.
    #[verifier::external_body]
    pub(crate) fn new() -> (h: Hashing)
        ensures
            fed(h) == Seq::<u8>::empty(),
    {
        Hashing { hasher: <sha2::Sha256 as sha2::Digest>::new() }
    }

    /// `sha2::Digest::update`: the piece follows what was fed before.
    #[verifier::external_body]
    pub(crate) fn feed(&mut self, piece: &[u8])
        ensures
            fed(*final(self)) == fed(*old(self)) + piece@,
    {
        sha2::Digest::update(&mut self.hasher, piece);
    }

    /// `sha2::Digest::finalize`: the hash of all that was fed, as if it had come at once,
    /// and 32 bytes long.
    #[verifier::external_body]
    pub(crate) fn finish(self) -> (out: Vec<u8>)
        ensures
            out@ == sha256_of(fed(self)),
            out@.len() == 32,
    {
        sha2::Digest::finalize(self.hasher).to_vec()
    }
}

/// The SHA-256 of some bytes.
pub(crate) fn sha256(b: &[u8]) -> (out: Vec<u8>)
    ensures
        out@ == sha256_of(b@),
        out@.len() == 32,
{
    let mut h = Hashing::new();
    h.feed(b);
    assert(fed(h) =~= b@);
    h.finish()
}

/// The HMAC-SHA256 of some bytes under a key.
pub uninterp spec fn hmac_sha256_of(key: Seq<u8>, b: Seq<u8>) -> Seq<u8>;

/// `hmac::Hmac<sha2::Sha256>`, which takes a key of any length: the code is a
/// function of the key and the bytes and 32 bytes long.
#[verifier::external_body]
pub(crate) fn hmac_sha256(key: &[u8], b: &[u8]) -> (out: Vec<u8>)
    ensures
        out@ == hmac_sha256_of(key@, b@),
        out@.len() == 32,
{
    let mut mac = hmac::Hmac::<sha2::Sha256>::new_from_slice(key).expect("any key length");
    mac.update(b);
    mac.finalize().into_bytes().to_vec()
}

/// The MD5 of some bytes.
pub uninterp spec fn md5_of(b: Seq<u8>) -> Seq<u8>;

/// `md5::Md5::digest`: the hash is a function of the bytes and 16 bytes long.
#[verifier::external_body]
pub(crate) fn md5(b: &[u8]) -> (out: Vec<u8>)
    ensures
        out@ == md5_of(b@),
        out@.len() == 16,
{
    <md5::Md5 as sha2::Digest>::digest(b).to_vec()
}

/// The character of base64 that counts `d`.
pub open spec fn base64_char(d: int) -> char {
    if d < 26 {
        ('A' as int + d) as char
    } else if d < 52 {
        ('a' as int + d - 26) as char
    } else if d < 62 {
        ('0' as int + d - 52) as char
    } else if d == 62 {
        '+'
    } else {
        '/'
    }
}

/// Up to three bytes as four characters, padded with `=`.
pub open spec fn base64_group(g: Seq<u8>) -> Seq<char> {
    let a = g[0] as int;
    let b = if g.len() > 1 {
        g[1] as int
    } else {
        0
    };
    let c = if g.len() > 2 {
        g[2] as int
    } else {
        0
    };
    seq![
        base64_char(a / 4),
        base64_char(a % 4 * 16 + b / 16),
        if g.len() > 1 {
            base64_char(b % 16 * 4 + c / 64)
        } else {
            '='
        },
        if g.len() > 2 {
            base64_char(c % 64)
        } else {
            '='
        },
    ]
}

/// Bytes in padded base64.
pub open spec fn base64_of(b: Seq<u8>) -> Seq<char>
    decreases b.len(),
{
    if b.len() == 0 {
        Seq::empty()
    } else if b.len() <= 3 {
        base64_group(b)
    } else {
        base64_group(b.take(3)) + base64_of(b.skip(3))
    }
}

/// `base64::engine::general_purpose::STANDARD.encode`: the standard alphabet, with
/// padding. It computes the length first and panics where that overflows.
#[verifier::external_body]
pub(crate) fn base64(b: &[u8]) -> (out: String)
    requires
        b@.len() <= usize::MAX / 2,
    ensures
        out@ == base64_of(b@),
{
    base64::engine::general_purpose::STANDARD.encode(b)
}

} // verus!
