use fluids::num::{div_ceil, next_multiple_of, next_multiple_of_4, next_power_of_two};

#[test]
fn quotients_round_up() {
    assert_eq!(div_ceil(0, 256), 0);
    assert_eq!(div_ceil(1, 256), 1);
    assert_eq!(div_ceil(256, 256), 1);
    assert_eq!(div_ceil(257, 256), 2);
    assert_eq!(div_ceil(u32::MAX, 1), u32::MAX);
    assert_eq!(div_ceil(u32::MAX, 256), 1 << 24);
}

#[test]
fn sizes_round_up_to_multiples() {
    assert_eq!(next_multiple_of(0, 8), 0);
    assert_eq!(next_multiple_of(41, 8), 48);
    assert_eq!(next_multiple_of(48, 8), 48);
    assert_eq!(next_multiple_of_4(5), 8);
    assert_eq!(next_multiple_of_4(8), 8);
}

#[test]
fn powers_of_two_are_the_least() {
    for (n, p) in [
        (0u32, 1u32),
        (1, 1),
        (2, 2),
        (3, 4),
        (1025, 2048),
        (0x8000_0000, 0x8000_0000),
    ] {
        assert_eq!(next_power_of_two(n), p, "{n}");
    }
}
