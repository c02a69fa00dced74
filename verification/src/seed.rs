use vstd::prelude::*;

use rand_chacha::rand_core::SeedableRng;
use rand_chacha::ChaCha20Rng;

verus! {

/// The random-number generator that the TLS session draws its keys from.
#[verifier::external_type_specification]
#[verifier::external_body]
pub struct ExChaCha20Rng(ChaCha20Rng);

/// Byte `j` (0 the lowest) of the little-endian encoding of `w`.
pub open spec fn le_byte(w: u32, j: int) -> u8 {
    let scale: int = if j == 0 {
        1
    } else if j == 1 {
        0x100
    } else if j == 2 {
        0x1_0000
    } else {
        0x100_0000
    };
    ((w as int / scale) % 0x100) as u8
}

/// The 32 bytes of the TLS seed made of the words `words`: byte `k` is byte
/// `k % 4` of word `k / 4`, little-endian.
pub open spec fn tls_seed_bytes(words: Seq<u32>) -> Seq<u8> {
    Seq::new(32, |k: int| le_byte(words[k / 4], k % 4))
}

/// The seed of the network stack: two random words, the first one in the
/// high half.
pub fn net_stack_seed(high: u32, low: u32) -> (seed: u64)
    ensures
        seed == high as int * 0x1_0000_0000 + low as int,
{
    let seed = (high as u64) << 32 | low as u64;
    assert(((high as u64) << 32 | low as u64) == high as int * 0x1_0000_0000 + low as int)
        by (bit_vector);
    seed
}

/// The 32-byte seed of the TLS generator: the little-endian bytes of eight
/// random words, in order.
pub fn tls_rng_seed(words: &[u32; 8]) -> (seed: [u8; 32])
    ensures
        forall|k: int| 0 <= k < 32 ==> #[trigger] seed@[k] == le_byte(words@[k / 4], k % 4),
        seed@ == tls_seed_bytes(words@),
{
    let mut seed = [0u8; 32];
    let mut i: usize = 0;
    while i < 8
        invariant
            i <= 8,
            seed@.len() == 32,
            forall|k: int| 0 <= k < 4 * i ==> #[trigger] seed@[k] == le_byte(words@[k / 4], k % 4),
        decreases 8 - i,
    {
        let w = words[i];
        let b0 = (w & 0xff) as u8;
        let b1 = ((w >> 8) & 0xff) as u8;
        let b2 = ((w >> 16) & 0xff) as u8;
        let b3 = ((w >> 24) & 0xff) as u8;
        assert(b0 == le_byte(w, 0) && b1 == le_byte(w, 1) && b2 == le_byte(w, 2) && b3 == le_byte(
            w,
            3,
        )) by {
            assert((w & 0xff) as u8 == ((w as int / 1) % 0x100) as u8) by (bit_vector);
            assert(((w >> 8) & 0xff) as u8 == ((w as int / 0x100) % 0x100) as u8) by (bit_vector);
            assert(((w >> 16) & 0xff) as u8 == ((w as int / 0x1_0000) % 0x100) as u8)
                by (bit_vector);
            assert(((w >> 24) & 0xff) as u8 == ((w as int / 0x100_0000) % 0x100) as u8)
                by (bit_vector);
        }
        seed[4 * i] = b0;
        seed[4 * i + 1] = b1;
        seed[4 * i + 2] = b2;
        seed[4 * i + 3] = b3;
        assert forall|k: int| 0 <= k < 4 * (i + 1) implies #[trigger] seed@[k] == le_byte(
            words@[k / 4],
            k % 4,
        ) by {
            if k >= 4 * i {
                assert(k / 4 == i as int);
            }
        }
        i = i + 1;
    }
    assert(seed@ =~= tls_seed_bytes(words@));
    seed
}

/// The ChaCha20 generator that `SeedableRng::from_seed` makes of the
/// 32-byte seed `seed`: a function of the seed alone.
pub uninterp spec fn chacha20_seeded(seed: Seq<u8>) -> ChaCha20Rng;

/// Seeds a ChaCha20 generator with `seed` (`SeedableRng::from_seed`), which
/// keys the cipher with the seed and starts at stream 0, position 0; the
/// result is the one generator that this seed gives.
#[verifier::external_body]
fn chacha20_from_seed(seed: [u8; 32]) -> (rng: ChaCha20Rng)
    ensures
        rng == chacha20_seeded(seed@),
{
    ChaCha20Rng::from_seed(seed)
}

/// The generator for the TLS session: the ChaCha20 generator seeded with
/// the eight random words laid out as [`tls_rng_seed`] lays them out.
pub fn tls_rng(words: &[u32; 8]) -> (rng: ChaCha20Rng)
    ensures
        rng == chacha20_seeded(tls_seed_bytes(words@)),
{
    chacha20_from_seed(tls_rng_seed(words))
}

/// The TLS seed keeps every random word whole, low byte first: the four
/// bytes of word `i`, weighted by 1, 256, 65536 and 16777216, add up to the
/// word.
pub proof fn lemma_tls_seed_keeps_words(words: Seq<u32>, i: int)
    requires
        0 <= i < 8,
        words.len() == 8,
    ensures
        ({
            let seed = tls_seed_bytes(words);
            seed[4 * i] as int + 0x100 * seed[4 * i + 1] as int + 0x1_0000 * seed[4 * i + 2] as int
                + 0x100_0000 * seed[4 * i + 3] as int == words[i] as int
        }),
{
    let seed = tls_seed_bytes(words);
    let w = words[i];
    assert((4 * i) / 4 == i && (4 * i) % 4 == 0);
    assert((4 * i + 1) / 4 == i && (4 * i + 1) % 4 == 1);
    assert((4 * i + 2) / 4 == i && (4 * i + 2) % 4 == 2);
    assert((4 * i + 3) / 4 == i && (4 * i + 3) % 4 == 3);
    assert(seed[4 * i] == le_byte(w, 0));
    assert(seed[4 * i + 1] == le_byte(w, 1));
    assert(seed[4 * i + 2] == le_byte(w, 2));
    assert(seed[4 * i + 3] == le_byte(w, 3));
    let x = w as int;
    assert(((x / 1) % 0x100) + 0x100 * ((x / 0x100) % 0x100) + 0x1_0000 * ((x / 0x1_0000) % 0x100)
        + 0x100_0000 * ((x / 0x100_0000) % 0x100) == x) by (nonlinear_arith)
        requires
            0 <= x < 0x1_0000_0000,
    ;
}

} // verus!
