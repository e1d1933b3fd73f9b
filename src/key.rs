use vstd::prelude::*;
use vstd::utf8::*;

use crate::hash::{blake3_hash, blake3_of, CryptoHash};

verus! {

/// ASCII byte of the separator between a name and its index.
pub const SEPARATOR: u8 = 58;

/// Decimal digits of `n` as ASCII bytes, most significant first.
pub open spec fn decimal_of(n: nat) -> Seq<u8>
    decreases n,
{
    if n < 10 {
        seq![(48 + n) as u8]
    } else {
        decimal_of(n / 10).push((48 + n % 10) as u8)
    }
}

/// Canonical text of an indexed key: the name's UTF-8 bytes, the separator,
/// then the index in decimal.
pub open spec fn key_text(name: Seq<char>, index: nat) -> Seq<u8> {
    encode_utf8(name) + seq![SEPARATOR] + decimal_of(index)
}

/// Canonical text of an unindexed key: the name's UTF-8 bytes, then the
/// separator with no digits after it.
pub open spec fn name_text(name: Seq<char>) -> Seq<u8> {
    encode_utf8(name) + seq![SEPARATOR]
}

/// Canonical text of a name with an optional index.
pub open spec fn canonical_text(name: Seq<char>, index: Option<nat>) -> Seq<u8> {
    match index {
        Some(i) => key_text(name, i),
        None => name_text(name),
    }
}

proof fn lemma_decimal_shape(n: nat)
    ensures
        decimal_of(n).len() >= 1,
        (decimal_of(n).len() == 1) == (n < 10),
        forall|k: int| 0 <= k < decimal_of(n).len() ==> 48 <= #[trigger] decimal_of(n)[k] <= 57,
    decreases n,
{
    if n >= 10 {
        lemma_decimal_shape(n / 10);
    }
}

proof fn lemma_decimal_injective(i: nat, j: nat)
    requires
        decimal_of(i) == decimal_of(j),
    ensures
        i == j,
    decreases i,
{
    lemma_decimal_shape(i);
    lemma_decimal_shape(j);
    if i < 10 {
        assert(decimal_of(i)[0] == decimal_of(j)[0]);
    } else {
        let di = decimal_of(i);
        let dj = decimal_of(j);
        assert(di.drop_last() =~= decimal_of(i / 10));
        assert(dj.drop_last() =~= decimal_of(j / 10));
        assert(di.last() == dj.last());
        lemma_decimal_injective(i / 10, j / 10);
    }
}

/// Distinct (name, index) pairs give distinct canonical key texts: the index
/// holds no separator, so the last separator splits the text back into both.
pub proof fn lemma_key_text_injective(n1: Seq<char>, i: nat, n2: Seq<char>, j: nat)
    requires
        n1 != n2 || i != j,
    ensures
        key_text(n1, i) != key_text(n2, j),
{
    if key_text(n1, i) == key_text(n2, j) {
        let t = key_text(n1, i);
        let e1 = encode_utf8(n1);
        let e2 = encode_utf8(n2);
        lemma_decimal_shape(i);
        lemma_decimal_shape(j);
        if e1.len() < e2.len() {
            let p = e2.len() as int;
            assert(t[p] == key_text(n2, j)[p]);
            assert(key_text(n2, j)[p] == SEPARATOR);
            let a = e1 + seq![SEPARATOR];
            assert(t.len() == a.len() + decimal_of(i).len());
            assert(t.len() == e2.len() + 1 + decimal_of(j).len());
            assert(t[p] == (a + decimal_of(i))[p]);
            assert(t[p] == decimal_of(i)[p - a.len()]);
        } else if e2.len() < e1.len() {
            let p = e1.len() as int;
            assert(t[p] == key_text(n1, i)[p]);
            assert(key_text(n1, i)[p] == SEPARATOR);
            let a = e2 + seq![SEPARATOR];
            assert(t.len() == a.len() + decimal_of(j).len());
            assert(t.len() == e1.len() + 1 + decimal_of(i).len());
            assert(key_text(n2, j)[p] == (a + decimal_of(j))[p]);
            assert(key_text(n2, j)[p] == decimal_of(j)[p - a.len()]);
        } else {
            assert(e1 =~= t.subrange(0, e1.len() as int));
            assert(e2 =~= key_text(n2, j).subrange(0, e2.len() as int));
            assert(decimal_of(i) =~= t.subrange(e1.len() as int + 1, t.len() as int));
            assert(decimal_of(j) =~= key_text(n2, j).subrange(e2.len() as int + 1, t.len() as int));
            lemma_decimal_injective(i, j);
            encode_utf8_decode_utf8(n1);
            encode_utf8_decode_utf8(n2);
        }
    }
}

/// Distinct (name, optional index) pairs give distinct canonical texts: an
/// unindexed text ends in the separator, an indexed one in a digit, and each
/// kind splits back into its parts.
pub proof fn lemma_canonical_text_injective(n1: Seq<char>, o1: Option<nat>, n2: Seq<char>, o2: Option<nat>)
    requires
        n1 != n2 || o1 != o2,
    ensures
        canonical_text(n1, o1) != canonical_text(n2, o2),
{
    match (o1, o2) {
        (Some(i), Some(j)) => {
            lemma_key_text_injective(n1, i, n2, j);
        },
        (None, None) => {
            if name_text(n1) == name_text(n2) {
                assert(encode_utf8(n1) =~= name_text(n1).drop_last());
                assert(encode_utf8(n2) =~= name_text(n2).drop_last());
                encode_utf8_decode_utf8(n1);
                encode_utf8_decode_utf8(n2);
            }
        },
        (Some(i), None) => {
            lemma_decimal_shape(i);
            let t = key_text(n1, i);
            assert(t.last() == decimal_of(i).last());
            assert(name_text(n2).last() == SEPARATOR);
        },
        (None, Some(j)) => {
            lemma_decimal_shape(j);
            let t = key_text(n2, j);
            assert(t.last() == decimal_of(j).last());
            assert(name_text(n1).last() == SEPARATOR);
        },
    }
}

fn push_decimal(out: &mut Vec<u8>, n: usize)
    ensures
        final(out)@ == old(out)@ + decimal_of(n as nat),
    decreases n,
{
    if n >= 10 {
        push_decimal(out, n / 10);
    }
    out.push(48 + (n % 10) as u8);
    assert(final(out)@ =~= old(out)@ + decimal_of(n as nat));
}

/// The name's UTF-8 bytes followed by the separator.
fn name_prefix(name: &str) -> (r: Vec<u8>)
    ensures
        r@ == name_text(name@),
{
    let bytes = name.as_bytes();
    let mut text: Vec<u8> = Vec::new();
    let mut k: usize = 0;
    while k < bytes.len()
        invariant
            0 <= k <= bytes@.len(),
            bytes@ == encode_utf8(name@),
            text@ == bytes@.subrange(0, k as int),
        decreases bytes@.len() - k,
    {
        text.push(bytes[k]);
        k = k + 1;
        assert(text@ =~= bytes@.subrange(0, k as int));
    }
    assert(text@ =~= bytes@);
    text.push(SEPARATOR);
    text
}

/// Key of an unindexed name: the digest of its canonical text.
pub fn name_key(name: &str) -> (r: CryptoHash)
    ensures
        r@ == blake3_of(name_text(name@)),
{
    let text = name_prefix(name);
    blake3_hash(text.as_slice())
}

/// Key of the `index`-th slot of the sequence called `name`.
pub fn namespaced_key(name: &str, index: usize) -> (r: CryptoHash)
    ensures
        r@ == blake3_of(key_text(name@, index as nat)),
{
    let mut text = name_prefix(name);
    push_decimal(&mut text, index);
    assert(text@ =~= key_text(name@, index as nat));
    blake3_hash(text.as_slice())
}

} // verus!
