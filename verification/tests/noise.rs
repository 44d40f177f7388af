use polysynth::dsp::noise::Noise;

fn reference_step(mut x: u32) -> u32 {
    x ^= x << 13;
    x ^= x >> 17;
    x ^= x << 5;
    x
}

#[test]
fn zero_seed_counts_as_one() {
    let mut a = Noise::new(0);
    let mut b = Noise::new(1);
    for _ in 0..100 {
        assert_eq!(a.next_u32(), b.next_u32());
    }
}

#[test]
fn first_value_from_seed_one() {
    let mut n = Noise::new(1);
    // 1 -> 0x2001 -> 0x2001 -> 0x42021
    assert_eq!(n.next_u32(), 0x0004_2021);
    assert_eq!(n.next_u32(), reference_step(0x0004_2021));
}

#[test]
fn follows_xorshift32_and_never_hits_zero() {
    let mut n = Noise::new(0xDEAD_BEEF);
    let mut x = 0xDEAD_BEEFu32;
    for _ in 0..100_000 {
        x = reference_step(x);
        let y = n.next_u32();
        assert_eq!(y, x);
        assert_ne!(y, 0);
    }
}

#[test]
fn equal_seeds_give_equal_sequences() {
    let mut a = Noise::new(0xC0FF_EE00);
    let mut b = Noise::new(0xC0FF_EE00);
    let mut c = Noise::new(0x1234_5678);
    let mut differs = false;
    for _ in 0..64 {
        let (x, y, z) = (a.next_u32(), b.next_u32(), c.next_u32());
        assert_eq!(x, y);
        differs |= x != z;
    }
    assert!(differs);
}
