//! Digest-writing support: an incremental SHA-256 context that records
//! exactly which bytes it has covered, hex rendering of digests, and the
//! sidecar text derived from a stream of bytes.

use vstd::prelude::*;
use vstd::slice::slice_subrange;

use crate::text::push_char;
use crate::zfs_error::{ZfsError, ZfsErrorKind};

verus! {

#[verifier::external_type_specification]
#[verifier::external_body]
pub struct ExDigestContext(ring::digest::Context);

/// The SHA-256 digest of a byte sequence, as the `ring` crate computes it.
/// It depends on the bytes alone.
pub uninterp spec fn sha256_of(bytes: Seq<u8>) -> Seq<u8>;

/// SHA-256 rejects inputs of `2^61` bytes or more (the bit length must fit
/// in 64 bits); staying below that keeps every digest call panic-free.
pub open spec fn sha256_input_fits(len: nat) -> bool {
    len < 0x2000_0000_0000_0000
}

/// The bytes a digest context has been fed so far; they are determined by
/// the context value alone.
pub uninterp spec fn digest_fed(ctx: ring::digest::Context) -> Seq<u8>;

/// An incremental digest context that knows exactly which bytes it has
/// covered, so the final digest is pinned to the data that went through.
pub struct HashingWrite {
    pub ctx: ring::digest::Context,
}

impl HashingWrite {
    /// The bytes fed to this context so far.
    pub open spec fn bytes(&self) -> Seq<u8> {
        digest_fed(self.ctx)
    }

    /// Relies on `ring::digest::Context::new` with the SHA-256 algorithm:
    /// a fresh context has digested nothing.
    #[verifier::external_body]
    pub fn new() -> (r: HashingWrite)
        ensures
            digest_fed(r.ctx) == Seq::<u8>::empty(),
    {
        HashingWrite { ctx: ring::digest::Context::new(&ring::digest::SHA256) }
    }

    /// Relies on `ring::digest::Context::update`: feeds `data` to the
    /// digest, after the bytes fed before.
    #[verifier::external_body]
    pub fn update(&mut self, data: &[u8])
        requires
            sha256_input_fits(digest_fed(old(self).ctx).len() + data@.len()),
        ensures
            digest_fed(final(self).ctx) == digest_fed(old(self).ctx) + data@,
    {
        self.ctx.update(data)
    }

    /// Relies on `ring::digest::Context::finish`: the digest of all bytes
    /// fed, which for SHA-256 is 32 bytes long.
    #[verifier::external_body]
    pub fn finish(self) -> (r: Vec<u8>)
        requires
            sha256_input_fits(digest_fed(self.ctx).len()),
        ensures
            r@ == sha256_of(digest_fed(self.ctx)),
            r@.len() == 32,
    {
        self.ctx.finish().as_ref().to_vec()
    }
}

pub open spec fn hex_digit_char(d: nat) -> char {
    if d == 0 { '0' }
    else if d == 1 { '1' }
    else if d == 2 { '2' }
    else if d == 3 { '3' }
    else if d == 4 { '4' }
    else if d == 5 { '5' }
    else if d == 6 { '6' }
    else if d == 7 { '7' }
    else if d == 8 { '8' }
    else if d == 9 { '9' }
    else if d == 10 { 'a' }
    else if d == 11 { 'b' }
    else if d == 12 { 'c' }
    else if d == 13 { 'd' }
    else if d == 14 { 'e' }
    else { 'f' }
}

pub fn hex_digit_char_exec(d: u8) -> (c: char)
    requires
        d < 16,
    ensures
        c == hex_digit_char(d as nat),
{
    if d == 0 { '0' }
    else if d == 1 { '1' }
    else if d == 2 { '2' }
    else if d == 3 { '3' }
    else if d == 4 { '4' }
    else if d == 5 { '5' }
    else if d == 6 { '6' }
    else if d == 7 { '7' }
    else if d == 8 { '8' }
    else if d == 9 { '9' }
    else if d == 10 { 'a' }
    else if d == 11 { 'b' }
    else if d == 12 { 'c' }
    else if d == 13 { 'd' }
    else if d == 14 { 'e' }
    else { 'f' }
}

/// Lower-case hex rendering, two digits per byte, high digit first.
pub open spec fn hex_of(bytes: Seq<u8>) -> Seq<char> {
    Seq::new(
        2 * bytes.len(),
        |i: int|
            if i % 2 == 0 {
                hex_digit_char((bytes[i / 2] as nat) / 16)
            } else {
                hex_digit_char((bytes[i / 2] as nat) % 16)
            },
    )
}

pub fn to_hex(bytes: &Vec<u8>) -> (r: String)
    ensures
        r@ == hex_of(bytes@),
{
    let n = bytes.len();
    let mut out = String::new();
    let mut i: usize = 0;
    while i < n
        invariant
            n == bytes@.len(),
            i <= n,
            out@ == hex_of(bytes@).take(2 * i as int),
        decreases n - i,
    {
        let b = bytes[i];
        push_char(&mut out, hex_digit_char_exec(b / 16));
        push_char(&mut out, hex_digit_char_exec(b % 16));
        proof {
            assert(out@ =~= hex_of(bytes@).take(2 * (i + 1)));
        }
        i = i + 1;
    }
    proof {
        assert(out@ =~= hex_of(bytes@));
    }
    out
}

/// The digest of a byte sequence fed to the context chunk by chunk: cutting
/// the data into pieces does not change what the digest covers.
pub fn hash_chunked(data: &Vec<u8>, chunk: usize) -> (r: Vec<u8>)
    requires
        chunk >= 1,
        sha256_input_fits(data@.len()),
    ensures
        r@ == sha256_of(data@),
        r@.len() == 32,
{
    let mut hw = HashingWrite::new();
    let n = data.len();
    let mut i: usize = 0;
    proof {
        assert(hw.bytes() =~= data@.take(0));
    }
    while i < n
        invariant
            n == data@.len(),
            i <= n,
            chunk >= 1,
            sha256_input_fits(data@.len()),
            hw.bytes() == data@.take(i as int),
        decreases n - i,
    {
        let j = if n - i < chunk { n } else { i + chunk };
        let part = slice_subrange(data.as_slice(), i, j);
        hw.update(part);
        proof {
            assert(data@.take(i as int) + data@.subrange(i as int, j as int) =~= data@.take(j as int));
        }
        i = j;
    }
    proof {
        assert(data@.take(n as int) =~= data@);
    }
    hw.finish()
}

/// The sidecar text for a stream whose bytes are `data`: the hex digest of
/// exactly those bytes.  The digest recomputed independently over the same
/// bytes renders to the same text, whatever chunking fed either of them.
pub fn sidecar_text_for(data: &Vec<u8>, chunk: usize) -> (r: String)
    requires
        chunk >= 1,
        sha256_input_fits(data@.len()),
    ensures
        r@ == hex_of(sha256_of(data@)),
{
    let digest = hash_chunked(data, chunk);
    to_hex(&digest)
}

/// A short write is fatal: the digest must never claim to cover bytes that
/// were not persisted downstream.
pub fn check_full_write(nread: usize, nwritten: usize) -> (r: Result<(), ZfsError>)
    ensures
        r is Ok <==> nwritten == nread,
        r is Err ==> r->Err_0.kind == ZfsErrorKind::Io,
{
    if nwritten == nread {
        Ok(())
    } else {
        let mut msg = String::new();
        msg.append("short write: wrote ");
        crate::text::push_dec(&mut msg, nwritten as u64);
        msg.append(" of ");
        crate::text::push_dec(&mut msg, nread as u64);
        msg.append(" bytes");
        Err(ZfsError::io(msg))
    }
}

/// The text appended to the promoted sidecar so that it forms a canonical
/// checksum-manifest line: a space, a `*`, the artifact filename, a newline.
pub fn checksum_suffix(filename: &str) -> (r: String)
    ensures
        r@ == seq![' ', '*'] + filename@ + seq!['\n'],
{
    let mut out = String::new();
    push_char(&mut out, ' ');
    push_char(&mut out, '*');
    out.append(filename);
    push_char(&mut out, '\n');
    proof {
        assert(out@ =~= seq![' ', '*'] + filename@ + seq!['\n']);
    }
    out
}

} // verus!
