//! Content digests and fixed-width byte encodings.

use vstd::prelude::*;

verus! {

/// Incremental BLAKE3 state.
#[verifier::external_type_specification]
#[verifier::external_body]
pub struct ExHasher(blake3::Hasher);

/// The bytes that a BLAKE3 state has taken in since it was made.
pub uninterp spec fn absorbed(hasher: blake3::Hasher) -> Seq<u8>;

/// The BLAKE3 hash of some bytes, in hexadecimal.
pub uninterp spec fn digest_hex(bytes: Seq<u8>) -> Seq<char>;

/// A lowercase hexadecimal digit.
pub open spec fn is_hex_digit(c: char) -> bool {
    ('0' <= c && c <= '9') || ('a' <= c && c <= 'f')
}

/// `blake3::Hasher::new`: a state that has taken in nothing.
#[verifier::external_body]
pub(crate) fn hasher_new() -> (r: blake3::Hasher)
    ensures
        absorbed(r) == Seq::<u8>::empty(),
{
    blake3::Hasher::new()
}

/// `blake3::Hasher::update`: takes the bytes in after those it already has.
#[verifier::external_body]
pub(crate) fn hasher_update(hasher: &mut blake3::Hasher, bytes: &[u8])
    ensures
        absorbed(*final(hasher)) == absorbed(*old(hasher)) + bytes@,
{
    hasher.update(bytes);
}

/// `blake3::Hasher::finalize` and `blake3::Hash::to_hex`: the hash of the
/// bytes taken in so far, 64 lowercase hexadecimal digits.
#[verifier::external_body]
pub(crate) fn hasher_hex(hasher: &blake3::Hasher) -> (r: String)
    ensures
        r@ == digest_hex(absorbed(*hasher)),
        r@.len() == 64,
        forall|i: int| 0 <= i < 64 ==> is_hex_digit(#[trigger] r@[i]),
{
    hasher.finalize().to_hex().to_string()
}

/// The digest of a block of bytes.
pub fn digest(bytes: &[u8]) -> (r: String)
    ensures
        r@ == digest_hex(bytes@),
        r@.len() == 64,
        forall|i: int| 0 <= i < 64 ==> is_hex_digit(#[trigger] r@[i]),
{
    let mut hasher = hasher_new();
    hasher_update(&mut hasher, bytes);
    proof {
        assert(Seq::<u8>::empty() + bytes@ =~= bytes@);
    }
    hasher_hex(&hasher)
}

/// The `width` low bytes of a number, lowest first.
pub open spec fn le_bytes(n: nat, width: nat) -> Seq<u8>
    decreases width,
{
    if width == 0 {
        Seq::empty()
    } else {
        seq![(n % 256) as u8] + le_bytes(n / 256, (width - 1) as nat)
    }
}

/// The eight bytes of a number, lowest first.
pub fn le_bytes_of(n: u64) -> (r: Vec<u8>)
    ensures
        r@ == le_bytes(n as nat, 8),
        r.len() == 8,
{
    let mut out: Vec<u8> = Vec::new();
    let mut rest: u64 = n;
    let mut i: usize = 0;
    while i < 8
        invariant
            i <= 8,
            out.len() == i,
            le_bytes(n as nat, 8) == out@ + le_bytes(rest as nat, (8 - i) as nat),
        decreases 8 - i,
    {
        let low: u8 = (rest % 256) as u8;
        proof {
            assert(le_bytes(rest as nat, (8 - i) as nat) =~= seq![low] + le_bytes(
                (rest / 256) as nat,
                (8 - i - 1) as nat,
            ));
            assert(out@ + (seq![low] + le_bytes((rest / 256) as nat, (8 - i - 1) as nat))
                =~= out@.push(low) + le_bytes((rest / 256) as nat, (8 - i - 1) as nat));
        }
        out.push(low);
        rest = rest / 256;
        i += 1;
    }
    proof {
        assert(out@ + le_bytes(rest as nat, 0) =~= out@);
    }
    out
}

/// Numbers below `256^width` have different bytes.
pub proof fn lemma_le_bytes_injective(a: nat, b: nat, width: nat)
    requires
        le_bytes(a, width) == le_bytes(b, width),
        a < vstd::arithmetic::power::pow(256, width),
        b < vstd::arithmetic::power::pow(256, width),
    ensures
        a == b,
    decreases width,
{
    if width == 0 {
        vstd::arithmetic::power::lemma_pow0(256);
    } else {
        vstd::arithmetic::power::lemma_pow1(256);
        reveal(vstd::arithmetic::power::pow);
        let w = (width - 1) as nat;
        let x = le_bytes(a, width);
        let y = le_bytes(b, width);
        assert(x[0] == (a % 256) as u8);
        assert(y[0] == (b % 256) as u8);
        assert(x.drop_first() =~= le_bytes(a / 256, w));
        assert(y.drop_first() =~= le_bytes(b / 256, w));
        assert(vstd::arithmetic::power::pow(256, width) == 256 * vstd::arithmetic::power::pow(256, w));
        lemma_le_bytes_injective(a / 256, b / 256, w);
    }
}

/// Fixed-width encodings have their width.
pub proof fn lemma_le_bytes_len(n: nat, width: nat)
    ensures
        le_bytes(n, width).len() == width,
    decreases width,
{
    if width > 0 {
        lemma_le_bytes_len(n / 256, (width - 1) as nat);
    }
}

/// Numbers are written lowest byte first.
pub proof fn law_lowest_byte_first(n: nat, low: nat, width: nat)
    requires
        low < 256,
        width > 0,
    ensures
        le_bytes(n * 256 + low, width) == seq![low as u8] + le_bytes(n, (width - 1) as nat),
        le_bytes(n, width).len() == width,
{
    lemma_le_bytes_len(n, width);
    assert((n * 256 + low) % 256 == low);
    assert((n * 256 + low) / 256 == n);
}

} // verus!
