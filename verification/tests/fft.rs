use yscale::pow2::{bit_reverse_permute, next_pow2, reverse_bits};

#[test]
fn next_pow2_works() {
    assert_eq!(next_pow2(1), 1);
    assert_eq!(next_pow2(1000), 1024);
    assert_eq!(next_pow2(1024), 1024);
    assert_eq!(next_pow2(1025), 2048);
}

#[test]
fn next_pow2_of_zero_is_one() {
    assert_eq!(next_pow2(0), 1);
    assert_eq!(next_pow2(2), 2);
    assert_eq!(next_pow2(3), 4);
}

#[test]
fn next_pow2_is_idempotent() {
    for n in [1usize, 5, 64, 100, 4097] {
        let p = next_pow2(n);
        assert_eq!(next_pow2(p), p);
    }
}

#[test]
fn reverse_bits_values() {
    assert_eq!(reverse_bits(1, 3), 4);
    assert_eq!(reverse_bits(6, 3), 3);
    assert_eq!(reverse_bits(0b0001, 4), 0b1000);
    assert_eq!(reverse_bits(0b1011, 4), 0b1101);
    assert_eq!(reverse_bits(0, 0), 0);
}

#[test]
fn reverse_bits_is_involution() {
    for x in 0..64usize {
        assert_eq!(reverse_bits(reverse_bits(x, 6), 6), x);
    }
}

#[test]
fn bit_reverse_permute_of_eight() {
    let mut v: Vec<usize> = (0..8).collect();
    bit_reverse_permute(&mut v);
    assert_eq!(v, vec![0, 4, 2, 6, 1, 5, 3, 7]);
    bit_reverse_permute(&mut v);
    assert_eq!(v, (0..8).collect::<Vec<_>>());
}

#[test]
fn bit_reverse_permute_small_lengths() {
    let mut one = vec![7.5f64];
    bit_reverse_permute(&mut one);
    assert_eq!(one, vec![7.5]);
    let mut two = vec![1, 2];
    bit_reverse_permute(&mut two);
    assert_eq!(two, vec![1, 2]);
}
