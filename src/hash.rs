use vstd::prelude::*;

use vstd::utf8::encode_utf8;

use crate::error::ErrorKind;

verus! {

/// The digest that BLAKE3 gives for `b`.
pub uninterp spec fn blake3_of(b: Seq<u8>) -> Seq<u8>;

/// Lowercase hex digit for a value below 16, as an ASCII byte.
pub open spec fn hex_digit(v: u8) -> u8 {
    if v < 10 { (48 + v) as u8 } else { (87 + v) as u8 }
}

/// Canonical encoding: two lowercase hex digits per byte, high nibble first.
pub open spec fn hex_of(b: Seq<u8>) -> Seq<u8>
    decreases b.len(),
{
    if b.len() == 0 {
        Seq::empty()
    } else {
        seq![hex_digit(b[0] / 16), hex_digit(b[0] % 16)] + hex_of(b.drop_first())
    }
}

/// Value of one hex digit in either case.
pub open spec fn hex_value(c: u8) -> Option<u8> {
    if 48 <= c <= 57 {
        Some((c - 48) as u8)
    } else if 97 <= c <= 102 {
        Some((c - 87) as u8)
    } else if 65 <= c <= 70 {
        Some((c - 55) as u8)
    } else {
        None
    }
}

/// Decoding of hex text: `None` on an odd length or a byte that is no hex digit.
pub open spec fn hex_decoded(s: Seq<u8>) -> Option<Seq<u8>>
    decreases s.len(),
{
    if s.len() == 0 {
        Some(Seq::empty())
    } else if s.len() == 1 {
        None
    } else {
        match (hex_value(s[0]), hex_value(s[1]), hex_decoded(s.subrange(2, s.len() as int))) {
            (Some(hi), Some(lo), Some(rest)) => Some(seq![(hi * 16 + lo) as u8] + rest),
            _ => None,
        }
    }
}

proof fn lemma_hex_digit_value(v: u8)
    requires
        v < 16,
    ensures
        hex_value(hex_digit(v)) == Some(v),
{
}

/// Decoding the canonical hex encoding of any byte sequence gives it back.
pub proof fn lemma_hex_round_trip(b: Seq<u8>)
    ensures
        hex_of(b).len() == 2 * b.len(),
        hex_decoded(hex_of(b)) == Some(b),
    decreases b.len(),
{
    if b.len() > 0 {
        let h = hex_of(b);
        lemma_hex_round_trip(b.drop_first());
        assert(h.subrange(2, h.len() as int) =~= hex_of(b.drop_first()));
        lemma_hex_digit_value(b[0] / 16);
        lemma_hex_digit_value(b[0] % 16);
        assert((b[0] / 16) * 16 + b[0] % 16 == b[0]) by (nonlinear_arith);
        assert(seq![b[0]] + b.drop_first() =~= b);
    }
}

/// Relies on `blake3::hash`: the 32-byte digest of the input.
#[verifier::external_body]
pub(crate) fn blake3_digest(input: &[u8]) -> (r: [u8; 32])
    ensures
        r@ == blake3_of(input@),
{
    *blake3::hash(input).as_bytes()
}

/// Relies on `rand::random`: 32 bytes from the thread-local generator.
#[verifier::external_body]
fn random_bytes() -> (r: [u8; 32]) {
    rand::random()
}

/// Relies on `hex::encode`: two lowercase hex digits per byte.
#[verifier::external_body]
fn hex_encode(b: &[u8; 32]) -> (r: String)
    ensures
        r@.len() == 64,
        encode_utf8(r@) == hex_of(b@),
{
    hex::encode(b)
}

/// Relies on `hex::decode`: the bytes of the hex text, or `None` on an odd
/// length or an invalid digit (either case is accepted).
#[verifier::external_body]
fn hex_decode(s: &[u8]) -> (r: Option<Vec<u8>>)
    ensures
        match r {
            Some(v) => hex_decoded(s@) == Some(v@),
            None => hex_decoded(s@) is None,
        },
{
    hex::decode(s).ok()
}

/// A 256-bit identity, used as the key type of the state store.
#[derive(Debug, Clone, Copy, Hash)]
pub struct CryptoHash {
    hash: [u8; 32],
}

impl View for CryptoHash {
    type V = Seq<u8>;

    closed spec fn view(&self) -> Seq<u8> {
        self.hash@
    }
}

impl PartialEq for CryptoHash {
    fn eq(&self, o: &CryptoHash) -> (r: bool) {
        let mut i: usize = 0;
        while i < 32
            invariant
                0 <= i <= 32,
                self.hash@.len() == 32,
                o.hash@.len() == 32,
                forall|k: int| 0 <= k < i ==> self.hash@[k] == o.hash@[k],
            decreases 32 - i,
        {
            if self.hash[i] != o.hash[i] {
                return false;
            }
            i = i + 1;
        }
        assert(self.hash@ =~= o.hash@);
        true
    }
}

impl vstd::std_specs::cmp::PartialEqSpecImpl for CryptoHash {
    open spec fn obeys_eq_spec() -> bool {
        true
    }

    open spec fn eq_spec(&self, o: &CryptoHash) -> bool {
        self@ == o@
    }
}

impl Eq for CryptoHash {
}

impl Default for CryptoHash {
    /// The all-zero identity.
    fn default() -> (r: CryptoHash)
        ensures
            r@ == Seq::new(32, |i: int| 0u8),
    {
        let r = CryptoHash { hash: [0u8; 32] };
        assert(r@ =~= Seq::new(32, |i: int| 0u8));
        r
    }
}

impl CryptoHash {
    pub fn new(hash: [u8; 32]) -> (r: CryptoHash)
        ensures
            r@ == hash@,
    {
        CryptoHash { hash }
    }

    /// A fresh identity from random bytes, unlinked to any content.
    pub fn random() -> (r: CryptoHash)
        ensures
            r@.len() == 32,
    {
        CryptoHash { hash: random_bytes() }
    }

    /// The raw 32 bytes.
    pub fn hash(&self) -> (r: [u8; 32])
        ensures
            r@ == self@,
    {
        self.hash
    }

    /// The canonical 64-character lowercase hex form.
    pub fn to_string(&self) -> (r: String)
        ensures
            r@.len() == 64,
            encode_utf8(r@) == hex_of(self@),
    {
        hex_encode(&self.hash)
    }

    /// Parses the hex form; fails with `HashFormat` unless the text is valid
    /// hex that decodes to exactly 32 bytes.
    pub fn from_string(s: &str) -> (r: Result<CryptoHash, ErrorKind>)
        ensures
            match hex_decoded(encode_utf8(s@)) {
                Some(b) => if b.len() == 32 {
                    r matches Ok(h) && h@ == b
                } else {
                    r == Err::<CryptoHash, ErrorKind>(ErrorKind::HashFormat)
                },
                None => r == Err::<CryptoHash, ErrorKind>(ErrorKind::HashFormat),
            },
    {
        let decoded = hex_decode(s.as_bytes());
        match decoded {
            None => Err(ErrorKind::HashFormat),
            Some(v) => {
                if v.len() != 32 {
                    return Err(ErrorKind::HashFormat);
                }
                let mut hash: [u8; 32] = [0u8; 32];
                let mut i: usize = 0;
                while i < 32
                    invariant
                        0 <= i <= 32,
                        v@.len() == 32,
                        hash@.len() == 32,
                        forall|k: int| 0 <= k < i ==> hash@[k] == v@[k],
                    decreases 32 - i,
                {
                    hash[i] = v[i];
                    i = i + 1;
                }
                assert(hash@ =~= v@);
                Ok(CryptoHash { hash })
            },
        }
    }
}

/// Every identity survives a trip through its canonical string: the hex form
/// has 64 digits and decodes to exactly the identity's 32 bytes.
pub proof fn lemma_string_round_trip(h: CryptoHash)
    ensures
        h@.len() == 32,
        hex_of(h@).len() == 64,
        hex_decoded(hex_of(h@)) == Some(h@),
{
    lemma_hex_round_trip(h@);
}

/// Hashing is a function of the content: equal inputs give equal identities.
pub proof fn lemma_hash_deterministic(b1: Seq<u8>, b2: Seq<u8>)
    requires
        b1 == b2,
    ensures
        blake3_of(b1) == blake3_of(b2),
{
}

/// BLAKE3 content hash of a byte sequence.
pub fn blake3_hash(input: &[u8]) -> (r: CryptoHash)
    ensures
        r@ == blake3_of(input@),
{
    CryptoHash { hash: blake3_digest(input) }
}

} // verus!
