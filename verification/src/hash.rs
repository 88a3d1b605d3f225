//! Subresource-integrity hashes, as Nix writes them.
use vstd::prelude::*;

use crate::text::{first_field, first_field_of, key_equal, second_field, second_field_of, trim, trimmed};

verus! {

#[derive(Clone, Copy, Debug, PartialEq, Eq, Structural)]
pub enum Algorithm {
    Md5,
    Sha1,
    Sha256,
    Sha512,
}

/// Why a text is not a subresource-integrity hash.
#[derive(Clone, Copy, Debug, PartialEq, Eq, Structural)]
pub enum HashError {
    /// Failed to parse hash algorithm.
    Algorithm,
    /// Failed to decode hash digest.
    Digest,
}

/// A hash in subresource-integrity form: an algorithm and a digest.
pub struct SriHash {
    pub algorithm: Algorithm,
    pub digest: Vec<u8>,
}

/// The algorithm that a name stands for.
pub open spec fn algorithm_named(s: Seq<char>) -> Option<Algorithm> {
    if s == seq!['m', 'd', '5'] {
        Some(Algorithm::Md5)
    } else if s == seq!['s', 'h', 'a', '1'] {
        Some(Algorithm::Sha1)
    } else if s == seq!['s', 'h', 'a', '2', '5', '6'] {
        Some(Algorithm::Sha256)
    } else if s == seq!['s', 'h', 'a', '5', '1', '2'] {
        Some(Algorithm::Sha512)
    } else {
        None
    }
}

/// What the standard base64 engine of the `base64` crate decodes a text to, where it accepts it.
pub uninterp spec fn base64_standard_decoded(text: Seq<char>) -> Option<Seq<u8>>;

/// Calls `base64::Engine::decode` of `BASE64_STANDARD` on the text. Claimed: it decodes
/// exactly where `base64_standard_decoded` has a value, to that value.
#[verifier::external_body]
fn base64_decode(text: &str) -> (r: Option<Vec<u8>>)
    ensures
        match r {
            Some(v) => base64_standard_decoded(text@) == Some(v@),
            None => base64_standard_decoded(text@) is None,
        },
{
    base64::Engine::decode(&base64::prelude::BASE64_STANDARD, text).ok()
}

/// The outcome of parsing a subresource-integrity hash: trimmed, split at `-`, the first
/// field names the algorithm and the second is the base64 digest; further fields are ignored.
pub open spec fn sri_parse(s: Seq<char>) -> Result<(Algorithm, Seq<u8>), HashError> {
    let t = trimmed(s);
    match algorithm_named(first_field(t)) {
        None => Err(HashError::Algorithm),
        Some(a) => match second_field(t) {
            None => Err(HashError::Digest),
            Some(p) => match base64_standard_decoded(p) {
                None => Err(HashError::Digest),
                Some(d) => Ok((a, d)),
            },
        },
    }
}

impl Algorithm {
    /// Parses the name of an algorithm.
    pub fn from_str(s: &str) -> (r: Result<Algorithm, HashError>)
        ensures
            match r {
                Ok(a) => algorithm_named(s@) == Some(a),
                Err(e) => algorithm_named(s@) is None && e == HashError::Algorithm,
            },
    {
        proof {
            reveal_strlit("md5");
            reveal_strlit("sha1");
            reveal_strlit("sha256");
            reveal_strlit("sha512");
        }
        if key_equal(s, "md5") {
            assert("md5"@ =~= seq!['m', 'd', '5']);
            Ok(Algorithm::Md5)
        } else if key_equal(s, "sha1") {
            assert("sha1"@ =~= seq!['s', 'h', 'a', '1']);
            Ok(Algorithm::Sha1)
        } else if key_equal(s, "sha256") {
            assert("sha256"@ =~= seq!['s', 'h', 'a', '2', '5', '6']);
            Ok(Algorithm::Sha256)
        } else if key_equal(s, "sha512") {
            assert("sha512"@ =~= seq!['s', 'h', 'a', '5', '1', '2']);
            Ok(Algorithm::Sha512)
        } else {
            assert("md5"@ =~= seq!['m', 'd', '5']);
            assert("sha1"@ =~= seq!['s', 'h', 'a', '1']);
            assert("sha256"@ =~= seq!['s', 'h', 'a', '2', '5', '6']);
            assert("sha512"@ =~= seq!['s', 'h', 'a', '5', '1', '2']);
            Err(HashError::Algorithm)
        }
    }
}

/// The lower-case hex digit of a number below 16.
pub open spec fn hex_digit(n: int) -> char {
    if n < 10 {
        (('0' as u32) + n) as char
    } else {
        (('a' as u32) + n - 10) as char
    }
}

/// Bytes written as lower-case hex, two digits a byte.
pub open spec fn lower_hex(bytes: Seq<u8>) -> Seq<char>
    decreases bytes.len(),
{
    if bytes.len() == 0 {
        Seq::empty()
    } else {
        lower_hex(bytes.drop_last()) + seq![hex_digit(bytes.last() as int / 16), hex_digit(bytes.last() as int % 16)]
    }
}

/// Appends bytes to a text as lower-case hex.
pub fn push_hex(out: &mut String, bytes: &[u8])
    ensures
        final(out)@ == old(out)@ + lower_hex(bytes@),
{
    let table = "0123456789abcdef";
    proof {
        reveal_strlit("0123456789abcdef");
    }
    assert(table@.len() == 16);
    assert(forall|k: int| 0 <= k < 16 ==> #[trigger] table@[k] == hex_digit(k)) by {
        assert(table@ =~= seq!['0', '1', '2', '3', '4', '5', '6', '7', '8', '9', 'a', 'b', 'c', 'd', 'e', 'f']);
    }
    let ghost start = out@;
    let mut i: usize = 0;
    assert(bytes@.take(0) =~= Seq::<u8>::empty());
    while i < bytes.len()
        invariant
            i <= bytes@.len(),
            table@.len() == 16,
            forall|k: int| 0 <= k < 16 ==> #[trigger] table@[k] == hex_digit(k),
            out@ == start + lower_hex(bytes@.take(i as int)),
        decreases bytes@.len() - i,
    {
        let b = bytes[i];
        let hi = (b / 16) as usize;
        let lo = (b % 16) as usize;
        out.append(table.substring_char(hi, hi + 1));
        out.append(table.substring_char(lo, lo + 1));
        assert(bytes@.take(i + 1).drop_last() =~= bytes@.take(i as int));
        assert(table@.subrange(hi as int, hi + 1) =~= seq![hex_digit(b as int / 16)]);
        assert(table@.subrange(lo as int, lo + 1) =~= seq![hex_digit(b as int % 16)]);
        assert(out@ =~= start + lower_hex(bytes@.take(i + 1)));
        i = i + 1;
    }
    assert(bytes@.take(i as int) =~= bytes@);
}

impl SriHash {
    /// Parses a subresource-integrity hash such as `sha256-<base64 digest>`.
    pub fn from_str(s: &str) -> (r: Result<SriHash, HashError>)
        ensures
            match r {
                Ok(h) => sri_parse(s@) == Ok::<(Algorithm, Seq<u8>), HashError>((h.algorithm, h.digest@)),
                Err(e) => sri_parse(s@) == Err::<(Algorithm, Seq<u8>), HashError>(e),
            },
    {
        let t = trim(s);
        let algorithm = match Algorithm::from_str(first_field_of(t)) {
            Ok(a) => a,
            Err(_) => return Err(HashError::Algorithm),
        };
        let part = match second_field_of(t) {
            Some(p) => p,
            None => return Err(HashError::Digest),
        };
        match base64_decode(part) {
            Some(digest) => Ok(SriHash { algorithm, digest }),
            None => Err(HashError::Digest),
        }
    }

    /// Return the digest as a lower hex encoded string.
    pub fn hex_digest(&self) -> (r: String)
        ensures
            r@ == lower_hex(self.digest@),
    {
        let mut buffer = String::new();
        push_hex(&mut buffer, self.digest.as_slice());
        assert(buffer@ =~= lower_hex(self.digest@));
        buffer
    }
}

/// A lower-case hex digit.
pub open spec fn is_hex_digit(c: char) -> bool {
    ('0' <= c && c <= '9') || ('a' <= c && c <= 'f')
}

/// Hex text has two digits for each byte, and only lower-case hex digits.
pub proof fn lemma_lower_hex(bytes: Seq<u8>)
    ensures
        lower_hex(bytes).len() == 2 * bytes.len(),
        forall|i: int| 0 <= i < lower_hex(bytes).len() ==> is_hex_digit(#[trigger] lower_hex(bytes)[i]),
    decreases bytes.len(),
{
    if bytes.len() > 0 {
        let p = bytes.drop_last();
        lemma_lower_hex(p);
        let b = bytes.last() as int;
        let hi = hex_digit(b / 16);
        let lo = hex_digit(b % 16);
        assert(is_hex_digit(hi));
        assert(is_hex_digit(lo));
        let h = lower_hex(bytes);
        assert(h == lower_hex(p) + seq![hi, lo]);
        assert forall|i: int| 0 <= i < h.len() implies is_hex_digit(#[trigger] h[i]) by {
            if i < lower_hex(p).len() {
                assert(h[i] == lower_hex(p)[i]);
            }
        }
    }
}

} // verus!
