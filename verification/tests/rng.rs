use snowhead::rng::Prng;
use snowhead::zobrist::Zobrist;

fn step(mut s: u64) -> u64 {
    s ^= s >> 12;
    s ^= s << 25;
    s ^= s >> 27;
    s
}

#[test]
fn rand_follows_xorshift64star() {
    let mut r = Prng::new(1070372);
    let s1 = step(1070372);
    assert_eq!(r.rand(), s1.wrapping_mul(2685821657736338717));
    let s2 = step(s1);
    assert_eq!(r.rand(), s2.wrapping_mul(2685821657736338717));
}

#[test]
fn sparse_rand_ands_three_outputs() {
    let mut a = Prng::new(42);
    let mut b = Prng::new(42);
    let x = b.rand() & b.rand() & b.rand();
    assert_eq!(a.sparse_rand(), x);
    assert_eq!(a.rand(), b.rand());
}

#[test]
fn zobrist_init_draws_in_order() {
    let mut z = Zobrist::new();
    assert_eq!(z.side, 0);
    z.init();
    let mut r = Prng::new(1070372);
    let first = r.rand();
    assert_eq!(z.psq[1][0], first);
    assert_eq!(z.psq[0][5], 0);
    assert_eq!(z.psq[7][5], 0);
    for _ in 1..(64 * 6) {
        r.rand();
    }
    assert_eq!(z.psq[9][0], r.rand());
    let mut r2 = Prng::new(1070372);
    for _ in 0..792 {
        r2.rand();
    }
    assert_eq!(z.side, r2.rand());
    assert_eq!(z.no_pawns, r2.rand());
    assert_ne!(z.side, z.no_pawns);
}
