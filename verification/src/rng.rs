//! Seeds for random number generators.
use vstd::prelude::*;

verus! {

/// The number whose little-endian bytes are `bytes`: the first byte is the least significant.
pub open spec fn le_value(bytes: Seq<u8>) -> nat
    decreases bytes.len(),
{
    if bytes.len() == 0 {
        0
    } else {
        bytes[0] as nat + 256 * le_value(bytes.drop_first())
    }
}

/// The largest number that `t` little-endian bytes can hold.
pub open spec fn le_max(t: nat) -> nat
    decreases t,
{
    if t == 0 {
        0
    } else {
        le_max((t - 1) as nat) * 256 + 255
    }
}

/// Sixteen bytes hold at most `u128::MAX`.
proof fn lemma_le_max_sixteen()
    ensures
        le_max(16) == u128::MAX,
{
    reveal_with_fuel(le_max, 17);
}

/// `le_max` grows with the number of bytes.
proof fn lemma_le_max_monotonic(s: nat, t: nat)
    requires
        s <= t,
    ensures
        le_max(s) <= le_max(t),
    decreases t,
{
    if s < t {
        lemma_le_max_monotonic(s, (t - 1) as nat);
    }
}

/// Reads sixteen bytes as a little-endian number, as `u128::from_le_bytes` does.
pub fn u128_from_le_bytes(bytes: [u8; 16]) -> (value: u128)
    ensures
        value == le_value(bytes@),
{
    let ghost s = bytes@;
    let mut acc: u128 = 0;
    let mut k: usize = 16;
    proof {
        assert(s.subrange(16, 16) =~= Seq::<u8>::empty());
        lemma_le_max_sixteen();
    }
    while k > 0
        invariant
            k <= 16,
            s == bytes@,
            s.len() == 16,
            acc == le_value(s.subrange(k as int, 16)),
            acc <= le_max((16 - k) as nat),
            le_max(16) == u128::MAX,
        decreases k,
    {
        let b = bytes[k - 1];
        proof {
            assert(s.subrange(k - 1, 16).drop_first() =~= s.subrange(k as int, 16));
            assert(s.subrange(k - 1, 16)[0] == b);
            lemma_le_max_monotonic((16 - k + 1) as nat, 16);
        }
        acc = acc * 256 + b as u128;
        k = k - 1;
    }
    assert(s.subrange(0, 16) =~= s);
    acc
}

/// Sixteen bytes from the operating system's random source, by `getrandom::getrandom`.
/// Nothing is claimed of them: they depend on chance. Where the call fails, the error is
/// ignored and the bytes stay zero.
#[verifier::external_body]
fn os_random_bytes() -> (bytes: [u8; 16]) {
    let mut buf = [0u8; 16];
    let _res = getrandom::getrandom(&mut buf);
    buf
}

/// Returns a seed drawn from the operating system's random source:
/// sixteen random bytes read as a little-endian number.
pub fn os_random_seed() -> (seed: u128) {
    let bytes = os_random_bytes();
    u128_from_le_bytes(bytes)
}

} // verus!
