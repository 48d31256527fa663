use kraster2d::rand::{range_from_draw, Krand, Pcg32, SplitMix64};

#[test]
fn range_u32_basic_cases() {
    let mut rng = Krand::new(7);
    for _ in 0..100 {
        assert_eq!(rng.range_u32(0..1), 0);
        let v = rng.range_u32(0..2);
        assert!(v == 0 || v == 1);
        let w = rng.range_u32(10..100);
        assert!((10..100).contains(&w));
    }
}

#[test]
fn integration_reproducible_sequence_u32() {
    let mut a = Krand::new(123);
    let mut b = Krand::new(123);
    for _ in 0..16 {
        assert_eq!(a.next_u32(), b.next_u32());
    }
}

#[test]
fn same_seed_stream_same_sequence() {
    let inc = 0xDA3E_39CB_94B9_5BDBu64 | 1;
    let mut a = Pcg32::seed(0x4d595df4d0f33173, inc);
    let mut b = Pcg32::seed(0x4d595df4d0f33173, inc);
    for _ in 0..8 {
        assert_eq!(a.next_u32(), b.next_u32());
    }
}

#[test]
fn different_streams_different_sequences() {
    let mut a = Pcg32::seed(123456789, (1u64 << 1) | 1);
    let mut b = Pcg32::seed(123456789, (3u64 << 1) | 1);
    assert_ne!(a.next_u32(), b.next_u32());
}

#[test]
fn same_seed_same_sequence() {
    let mut a = SplitMix64::new(123456789);
    let mut b = SplitMix64::new(123456789);

    for _ in 0..10 {
        assert_eq!(a.next_u64(), b.next_u64());
    }
}

#[test]
fn different_seeds_different_first_value() {
    let mut a = SplitMix64::new(1);
    let mut b = SplitMix64::new(2);
    assert_ne!(a.next_u64(), b.next_u64());
}

#[test]
fn progresses_and_changes_values() {
    let mut sm = SplitMix64::new(0);
    let v1 = sm.next_u64();
    let v2 = sm.next_u64();
    let v3 = sm.next_u64();
    assert_ne!(v1, v2);
    assert_ne!(v2, v3);
    assert_ne!(v1, v3);
}

#[test]
fn splitmix_known_values() {
    // an output is made from the state before it moves on, so the seed 0
    // gives 0 first
    let mut sm = SplitMix64::new(0);
    assert_eq!(sm.next_u64(), 0);
    assert_eq!(sm.next_u64(), 0xE220A8397B1DCDAF);
    assert_eq!(sm.next_u64(), 0x6E789E6AA1B965F4);
    assert_eq!(sm.next_u64(), 0x06C45D188009454F);
    let mut sm = SplitMix64::new(1234567);
    assert_eq!(sm.next_u64(), 15550326404697827096);
    assert_eq!(sm.next_u64(), 6457827717110365317);
    assert_eq!(sm.next_u64(), 3203168211198807973);
}

#[test]
fn krand_known_values() {
    let mut g = Krand::new(42);
    let got: Vec<u32> = (0..4).map(|_| g.next_u32()).collect();
    assert_eq!(got, vec![4045629022, 3491446916, 1884545931, 3794326271]);
    let mut z = Krand::from_seed(0);
    assert_eq!(z.next_u32(), 2489713799);
    assert_eq!(z.next_u32(), 3909064955);
}

#[test]
fn pcg32_known_values() {
    // the reference demo of PCG32: seed 42, sequence 54
    let mut g = Pcg32::seed(42, (54u64 << 1) | 1);
    let got: Vec<u32> = (0..6).map(|_| g.next_u32()).collect();
    assert_eq!(
        got,
        vec![0xa15c02b7, 0x7b47f409, 0xba1d3330, 0x83d2f293, 0xbfa4784b, 0xcbed606e]
    );
}

#[test]
fn lemire_step() {
    // a power of two never rejects
    assert_eq!(range_from_draw(0, 0, 4), Some(0));
    assert_eq!(range_from_draw(u32::MAX, 0, 4), Some(3));
    assert_eq!(range_from_draw(0x8000_0000, 10, 12), Some(11));
    // bound 3: 2^32 % 3 == 1, so only a low half of 0 is rejected
    assert_eq!(range_from_draw(0, 5, 8), None);
    assert_eq!(range_from_draw(1, 5, 8), Some(5));
    assert_eq!(range_from_draw(0x5555_5556, 5, 8), Some(6));
    assert_eq!(range_from_draw(u32::MAX, 5, 8), Some(7));
    // the whole range of u32 but one
    assert_eq!(range_from_draw(7, 0, u32::MAX), Some(6));
    let mut rng = Krand::from_seed(99);
    let mut seen = [false; 5];
    for _ in 0..200 {
        seen[(rng.range_u32(20..25) - 20) as usize] = true;
    }
    assert!(seen.iter().all(|&b| b));
}
