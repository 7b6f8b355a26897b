use vstd::prelude::*;

use crate::errors::ErrorKind;
use crate::strutil::str_eq;

verus! {

/// The SHA-256 digest of a byte sequence.
pub uninterp spec fn sha256_of(b: Seq<u8>) -> Seq<u8>;

/// The nix-flavoured base32 rendering of a byte sequence.
pub uninterp spec fn nix_base32_of(b: Seq<u8>) -> Seq<char>;

/// The canonical encoding this mirror compares content against: the SHA-256
/// digest of the bytes, rendered in nix-flavoured base32.
pub open spec fn digest_of(b: Seq<u8>) -> Seq<char> {
    nix_base32_of(sha256_of(b))
}

/// Relies on sha2::Sha256 through digest::Digest::digest: the SHA-256 digest
/// is a function of the input bytes alone, and is 32 bytes long.
#[verifier::external_body]
fn sha256_bytes(bytes: &[u8]) -> (r: Vec<u8>)
    ensures
        r@ == sha256_of(bytes@),
        r@.len() == 32,
{
    <sha2::Sha256 as sha2::Digest>::digest(bytes).to_vec()
}

/// Relies on nix_base32::to_nix_base32: the encoding is a function of the
/// input bytes alone. The callee cannot take an empty slice (its output-length
/// arithmetic and byte indexing assume at least one byte), so the precondition
/// keeps that input out.
#[verifier::external_body]
fn nix_base32_encode(bytes: &[u8]) -> (r: String)
    requires
        bytes@.len() >= 1,
    ensures
        r@ == nix_base32_of(bytes@),
{
    nix_base32::to_nix_base32(bytes)
}

/// The canonical digest string of `bytes`.
pub fn content_digest(bytes: &[u8]) -> (r: String)
    ensures
        r@ == digest_of(bytes@),
{
    let d = sha256_bytes(bytes);
    nix_base32_encode(d.as_slice())
}

/// The verifying side of one atomic fetch: it accumulates the bytes that the
/// transport hands over and decides, once the stream has ended, whether the
/// body may be promoted to the destination. A body is only ever promoted when
/// it was received completely and, if a digest was requested, hashes to it;
/// an interrupted or failed stream never reaches `finish`, so its scratch
/// data is discarded and nothing appears at the destination.
pub struct FetchGuard {
    expected: Option<String>,
    buf: Option<Vec<u8>>,
    fed: Ghost<Seq<u8>>,
}

impl FetchGuard {
    /// A digest check is pending exactly when one was requested.
    pub closed spec fn wf(self) -> bool {
        match (self.expected, self.buf) {
            (Option::Some(_), Option::Some(b)) => b@ == self.fed@,
            (Option::None, Option::None) => true,
            _ => false,
        }
    }

    /// The digest the body is expected to hash to, if one was requested.
    pub closed spec fn expected_digest(self) -> Option<Seq<char>> {
        self.expected.deep_view()
    }

    /// All bytes handed over so far.
    pub closed spec fn fed(self) -> Seq<u8> {
        self.fed@
    }

    /// Starts a fetch that will verify the body against `expected`, when given.
    pub fn new(expected: Option<String>) -> (g: Self)
        ensures
            g.wf(),
            g.fed() == Seq::<u8>::empty(),
            g.expected_digest() == expected.deep_view(),
    {
        match expected {
            Option::Some(e) => FetchGuard {
                expected: Option::Some(e),
                buf: Option::Some(Vec::new()),
                fed: Ghost(Seq::empty()),
            },
            Option::None => FetchGuard {
                expected: Option::None,
                buf: Option::None,
                fed: Ghost(Seq::empty()),
            },
        }
    }

    /// Folds one chunk of the response body into the guard.
    pub fn push_chunk(&mut self, chunk: &[u8])
        requires
            old(self).wf(),
        ensures
            final(self).wf(),
            final(self).fed() == old(self).fed() + chunk@,
            final(self).expected_digest() == old(self).expected_digest(),
    {
        if let Option::Some(b) = &mut self.buf {
            let mut k: usize = 0;
            let n = chunk.len();
            while k < n
                invariant
                    n == chunk@.len(),
                    k <= n,
                    b@ == old(self).buf->Some_0@ + chunk@.take(k as int),
                decreases n - k,
            {
                b.push(chunk[k]);
                proof {
                    assert(b@ =~= old(self).buf->Some_0@ + chunk@.take(k as int + 1));
                }
                k += 1;
            }
            proof {
                assert(chunk@.take(n as int) =~= chunk@);
            }
        }
        proof {
            assert(self.buf is Some ==> self.buf->Some_0@ =~= old(self).fed@ + chunk@);
        }
        self.fed = Ghost(self.fed@ + chunk@);
    }

    /// Ends a completely received stream: succeeds exactly when no digest was
    /// requested or the body hashes to the requested one; the only failure is
    /// an integrity error.
    pub fn finish(self) -> (r: Result<(), ErrorKind>)
        requires
            self.wf(),
        ensures
            r is Ok <==> (self.expected_digest() is None || self.expected_digest()
                == Option::Some(digest_of(self.fed()))),
            r is Err ==> r->Err_0 == ErrorKind::Integrity,
    {
        let FetchGuard { expected, buf, fed } = self;
        match (expected, buf) {
            (Option::Some(e), Option::Some(b)) => {
                let computed = content_digest(b.as_slice());
                if str_eq(computed.as_str(), e.as_str()) {
                    Ok(())
                } else {
                    Err(ErrorKind::Integrity)
                }
            },
            (Option::None, Option::None) => Ok(()),
            _ => {
                proof {
                    assert(false);
                }
                Err(ErrorKind::Integrity)
            },
        }
    }
}

} // verus!
