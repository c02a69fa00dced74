use mutual_watchdog::seed::{net_stack_seed, tls_rng, tls_rng_seed};

#[test]
fn net_seed_puts_first_word_high() {
    assert_eq!(net_stack_seed(1, 2), 0x0000_0001_0000_0002);
    assert_eq!(net_stack_seed(u32::MAX, 0), 0xFFFF_FFFF_0000_0000);
    assert_eq!(net_stack_seed(0, u32::MAX), 0x0000_0000_FFFF_FFFF);
}

#[test]
fn tls_seed_is_little_endian_words() {
    let words = [
        0x0403_0201u32, 0x0807_0605, 0xDEAD_BEEF, 0, u32::MAX, 0x1234_5678, 1, 0x8000_0000,
    ];
    let seed = tls_rng_seed(&words);
    let mut expected = [0u8; 32];
    for (chunk, w) in expected.chunks_mut(4).zip(words.iter()) {
        chunk.copy_from_slice(&w.to_le_bytes());
    }
    assert_eq!(seed, expected);
    assert_eq!(&seed[..8], &[1, 2, 3, 4, 5, 6, 7, 8]);
}

#[test]
fn tls_rng_is_seeded_with_the_words() {
    let words = [1u32, 2, 3, 4, 5, 6, 7, 8];
    let rng = tls_rng(&words);
    assert_eq!(rng.get_seed(), tls_rng_seed(&words));
    assert!(rng == tls_rng(&words));
    assert!(rng != tls_rng(&[8, 7, 6, 5, 4, 3, 2, 1]));
}
