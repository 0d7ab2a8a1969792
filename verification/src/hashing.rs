//! Content fingerprints: SHA-256 digests rendered as lowercase hexadecimal.
use sha2::{Digest, Sha256};
use vstd::prelude::*;
use vstd::slice::slice_subrange;

verus! {

/// Number of bytes handed to the digest at a time.
pub const CHUNK_SIZE: usize = 1024;

/// The SHA-256 digest of `data`: what a `sha2::Sha256` hasher gives on
/// `finalize` after it has taken in `data`. Nothing is proved of it here
/// but that it is a function of the bytes.
pub uninterp spec fn sha256(data: Seq<u8>) -> Seq<u8>;

/// The bytes that a running digest has taken in so far, in order.
pub uninterp spec fn absorbed(state: DigestState) -> Seq<u8>;

/// A running `sha2::Sha256` computation.
///
/// `Sha256` is an instance of a generic wrapper of the `digest` crate whose
/// bounds are traits of that crate, so the hasher is kept behind this opaque
/// struct. Only `digest_start`, `digest_update` and `digest_finish` touch
/// it.
#[verifier::external_body]
pub struct DigestState {
    inner: Sha256,
}

/// Calls `Sha256::new` (`digest::Digest::new`). Trusted: the new hasher has
/// taken in no bytes.
#[verifier::external_body]
fn digest_start() -> (state: DigestState)
    ensures
        absorbed(state) == Seq::<u8>::empty(),
{
    DigestState { inner: Sha256::new() }
}

/// Calls `digest::Digest::update`. Trusted: the hasher has then taken in
/// `chunk` after everything it had taken in before.
#[verifier::external_body]
fn digest_update(state: &mut DigestState, chunk: &[u8])
    ensures
        absorbed(*final(state)) == absorbed(*old(state)) + chunk@,
{
    state.inner.update(chunk);
}

/// Calls `digest::Digest::finalize`. Trusted: the result is the SHA-256
/// digest of everything the hasher has taken in, which is 32 bytes long.
#[verifier::external_body]
fn digest_finish(state: DigestState) -> (digest: Vec<u8>)
    ensures
        digest@ == sha256(absorbed(state)),
        digest@.len() == 32,
{
    state.inner.finalize().to_vec()
}

/// The lowercase hexadecimal digit for a value below sixteen: `0` to `9`,
/// then `a` to `f`.
pub open spec fn hex_digit(nibble: int) -> char {
    if nibble < 10 {
        ('0' as u8 + nibble) as u8 as char
    } else {
        ('a' as u8 + (nibble - 10)) as u8 as char
    }
}

/// Two lowercase hexadecimal digits per byte, high nibble first.
pub open spec fn hex_encode(bytes: Seq<u8>) -> Seq<char> {
    Seq::new(
        2 * bytes.len(),
        |i: int|
            if i % 2 == 0 {
                hex_digit(bytes[i / 2] as int / 16)
            } else {
                hex_digit(bytes[i / 2] as int % 16)
            },
    )
}

/// Whether `c` is one of `0`-`9` or `a`-`f`.
pub open spec fn is_lower_hex(c: char) -> bool {
    ('0' <= c && c <= '9') || ('a' <= c && c <= 'f')
}

/// The fingerprint of a file whose bytes are `content`.
pub open spec fn fingerprint_of(content: Seq<u8>) -> Seq<char> {
    hex_encode(sha256(content))
}

fn hex_char(nibble: u8) -> (c: char)
    requires
        nibble < 16,
    ensures
        c == hex_digit(nibble as int),
        is_lower_hex(c),
{
    if nibble < 10 {
        ('0' as u8 + nibble) as char
    } else {
        ('a' as u8 + (nibble - 10)) as char
    }
}

/// Renders `bytes` as lowercase hexadecimal.
pub fn to_hex(bytes: &[u8]) -> (text: String)
    ensures
        text@ == hex_encode(bytes@),
        text@.len() == 2 * bytes@.len(),
        forall|i: int| 0 <= i < text@.len() ==> is_lower_hex(#[trigger] text@[i]),
{
    let mut text = String::new();
    let mut i: usize = 0;
    while i < bytes.len()
        invariant
            i <= bytes.len(),
            text@ == hex_encode(bytes@.take(i as int)),
            forall|k: int| 0 <= k < text@.len() ==> is_lower_hex(#[trigger] text@[k]),
        decreases bytes.len() - i,
    {
        let byte = bytes[i];
        let high = hex_char(byte / 16);
        let low = hex_char(byte % 16);
        text.push(high);
        text.push(low);
        i += 1;
    }
    text
}

/// A fingerprint computation that takes a file in piece by piece, so that no
/// more than one chunk of it has to be in memory.
pub struct FileHasher {
    state: DigestState,
}

impl View for FileHasher {
    type V = Seq<u8>;

    /// The bytes taken in so far.
    closed spec fn view(&self) -> Seq<u8> {
        absorbed(self.state)
    }
}

impl FileHasher {
    /// A hasher that has seen no bytes yet.
    pub fn new() -> (hasher: Self)
        ensures
            hasher@ == Seq::<u8>::empty(),
    {
        FileHasher { state: digest_start() }
    }

    /// Takes in `chunk` as the next bytes of the file.
    pub fn update(&mut self, chunk: &[u8])
        ensures
            final(self)@ == old(self)@ + chunk@,
    {
        digest_update(&mut self.state, chunk);
    }

    /// Takes in the outcome of one read into `buffer` that reported
    /// `bytes_read` bytes. A read of no bytes marks the end of the file: the
    /// result says whether the caller should read on.
    pub fn absorb_read(&mut self, buffer: &[u8], bytes_read: usize) -> (more: bool)
        requires
            bytes_read <= buffer.len(),
        ensures
            more == (bytes_read > 0),
            final(self)@ == old(self)@ + buffer@.take(bytes_read as int),
    {
        if bytes_read == 0 {
            false
        } else {
            self.update(slice_subrange(buffer, 0, bytes_read));
            true
        }
    }

    /// The fingerprint of everything taken in: 64 lowercase hexadecimal
    /// digits.
    pub fn finalize(self) -> (fingerprint: String)
        ensures
            fingerprint@ == fingerprint_of(self@),
            is_fingerprint(fingerprint@),
    {
        let digest = digest_finish(self.state);
        to_hex(digest.as_slice())
    }
}

/// Whether `text` has the shape of a fingerprint: 64 lowercase hexadecimal
/// digits.
pub open spec fn is_fingerprint(text: Seq<char>) -> bool {
    &&& text.len() == 64
    &&& forall|i: int| 0 <= i < text.len() ==> is_lower_hex(#[trigger] text[i])
}

/// Computes the fingerprint of a file from its bytes, feeding them to the
/// digest in chunks of `CHUNK_SIZE`. A caller that reads a file piece by
/// piece uses a `FileHasher` instead and gets the same fingerprint.
pub fn hash_file(content: &[u8]) -> (fingerprint: String)
    ensures
        fingerprint@ == fingerprint_of(content@),
        is_fingerprint(fingerprint@),
{
    let mut hasher = FileHasher::new();
    let mut offset: usize = 0;
    while offset < content.len()
        invariant
            offset <= content.len(),
            hasher@ == content@.take(offset as int),
        decreases content.len() - offset,
    {
        let remaining = content.len() - offset;
        let end = if remaining < CHUNK_SIZE {
            content.len()
        } else {
            offset + CHUNK_SIZE
        };
        hasher.update(slice_subrange(content, offset, end));
        assert(content@.take(offset as int) + content@.subrange(offset as int, end as int)
            =~= content@.take(end as int));
        offset = end;
    }
    assert(content@.take(offset as int) =~= content@);
    hasher.finalize()
}

/// Hashing is repeatable: a fingerprint depends on the bytes alone, so
/// hashing an unchanged file again gives the same fingerprint.
pub proof fn lemma_hashing_is_repeatable(first: Seq<u8>, second: Seq<u8>)
    requires
        first == second,
    ensures
        fingerprint_of(first) == fingerprint_of(second),
{
}

} // verus!
