//! Powers of two and the bit-reversal reordering used by the radix-2 FFT.

use vstd::prelude::*;

verus! {

/// `2^k`.
pub open spec fn two_pow(k: nat) -> nat
    decreases k,
{
    if k == 0 {
        1
    } else {
        2 * two_pow((k - 1) as nat)
    }
}

/// `n` is a positive power of two.
pub open spec fn is_power_of_two(n: int) -> bool {
    exists|k: nat| two_pow(k) == n
}

/// What `next_pow2(n)` is: the smallest power of two that is `>= max(n, 1)`.
pub open spec fn is_next_pow2(n: int, p: int) -> bool {
    &&& is_power_of_two(p)
    &&& p >= n
    &&& (p == 1 || p / 2 < n)
}

pub proof fn lemma_two_pow_pos(k: nat)
    ensures
        two_pow(k) >= 1,
    decreases k,
{
    if k > 0 {
        lemma_two_pow_pos((k - 1) as nat);
    }
}

pub proof fn lemma_two_pow_monotone(a: nat, b: nat)
    requires
        a <= b,
    ensures
        two_pow(a) <= two_pow(b),
    decreases b,
{
    if a < b {
        lemma_two_pow_monotone(a, (b - 1) as nat);
        lemma_two_pow_pos((b - 1) as nat);
    }
}

proof fn lemma_two_pow_injective(a: nat, b: nat)
    requires
        two_pow(a) == two_pow(b),
    ensures
        a == b,
{
    if a < b {
        lemma_two_pow_monotone(a + 1, b);
        lemma_two_pow_pos(a);
    } else if b < a {
        lemma_two_pow_monotone(b + 1, a);
        lemma_two_pow_pos(b);
    }
}

/// Two powers of two with `a < b` are at least a factor of two apart.
proof fn lemma_two_pow_gap(a: nat, b: nat)
    requires
        two_pow(a) < two_pow(b),
    ensures
        2 * two_pow(a) <= two_pow(b),
        a < b,
{
    if b <= a {
        lemma_two_pow_monotone(b, a);
    }
    lemma_two_pow_monotone(a + 1, b);
}

/// Smallest power of two that is at least `max(n, 1)`.
pub fn next_pow2(n: usize) -> (p: usize)
    requires
        n <= usize::MAX / 2 + 1,
    ensures
        is_next_pow2(n as int, p as int),
{
    let mut p: usize = 1;
    let ghost mut k: nat = 0;
    while p < n
        invariant
            two_pow(k) == p,
            p >= 1,
            p == 1 || p / 2 < n,
            n <= usize::MAX / 2 + 1,
        decreases usize::MAX - p,
    {
        p = p * 2;
        proof {
            k = k + 1;
        }
    }
    p
}

/// Law: the result of `next_pow2` is unique; for a power of two `n` it is `n`
/// itself, and it never changes when applied a second time.
pub proof fn law_next_pow2_unique(n: int, p: int, q: int)
    requires
        is_next_pow2(n, p),
        is_next_pow2(n, q),
    ensures
        p == q,
        is_power_of_two(n) ==> p == n,
        is_next_pow2(p, p),
{
    let kp = choose|k: nat| two_pow(k) == p;
    let kq = choose|k: nat| two_pow(k) == q;
    if p < q {
        lemma_two_pow_gap(kp, kq);
    } else if q < p {
        lemma_two_pow_gap(kq, kp);
    }
    if is_power_of_two(n) {
        let kn = choose|k: nat| two_pow(k) == n;
        if n < p {
            lemma_two_pow_gap(kn, kp);
        }
    }
}

// ----- bit reversal -----

/// The `k`-bit reversal of `x`: bit `i` of the result is bit `k - 1 - i` of `x`.
pub open spec fn rev_bits(x: nat, k: nat) -> nat
    decreases k,
{
    if k == 0 {
        0
    } else {
        rev_bits(x / 2, (k - 1) as nat) + (x % 2) * two_pow((k - 1) as nat)
    }
}

proof fn lemma_rev_bits_bound(x: nat, k: nat)
    ensures
        rev_bits(x, k) < two_pow(k),
    decreases k,
{
    if k > 0 {
        let h = two_pow((k - 1) as nat);
        lemma_rev_bits_bound(x / 2, (k - 1) as nat);
        assert((x % 2) * h <= h) by (nonlinear_arith)
            requires
                x % 2 <= 1,
                h >= 0,
        ;
    }
}

/// The lowest bit of the reversal is the top bit of `x`, and the rest of the
/// reversal is the reversal of the lower `k - 1` bits of `x`.
proof fn lemma_rev_bits_low(x: nat, k: nat)
    requires
        k >= 1,
        x < two_pow(k),
    ensures
        rev_bits(x, k) % 2 == x / two_pow((k - 1) as nat),
        rev_bits(x, k) / 2 == rev_bits(x % two_pow((k - 1) as nat), (k - 1) as nat),
    decreases k,
{
    let h = two_pow((k - 1) as nat);
    lemma_two_pow_pos((k - 1) as nat);
    if k == 1 {
        assert(h == 1);
        assert(rev_bits(x / 2, 0) == 0);
        assert(rev_bits(x, 1) == rev_bits(x / 2, 0) + (x % 2) * h);
        assert(x < 2);
        assert((x % 2) * h == x % 2) by (nonlinear_arith)
            requires
                h == 1,
        ;
        assert(x % 2 == x);
        assert(rev_bits(x, 1) == x);
        assert(x % 1 == 0);
        assert(rev_bits(0, 0) == 0);
    } else {
        let k1 = (k - 1) as nat;
        let k2 = (k - 2) as nat;
        let h2 = two_pow(k2);
        lemma_two_pow_pos(k2);
        assert(h == 2 * h2);
        let y = x / 2;
        assert(y < h);
        lemma_rev_bits_low(y, k1);
        let r = rev_bits(y, k1);
        let b = x % 2;
        assert(rev_bits(x, k) == r + b * h);
        assert(r + b * h == (r / 2 + b * h2) * 2 + r % 2) by (nonlinear_arith)
            requires
                h == 2 * h2,
                r == (r / 2) * 2 + r % 2,
        ;
        assert((r + b * h) % 2 == r % 2 && (r + b * h) / 2 == r / 2 + b * h2) by {
            vstd::arithmetic::div_mod::lemma_fundamental_div_mod_converse(
                (r + b * h) as int,
                2,
                (r / 2 + b * h2) as int,
                (r % 2) as int,
            );
        }
        assert(y / h2 == x / h) by {
            vstd::arithmetic::div_mod::lemma_div_denominator(x as int, 2, h2 as int);
        }
        let z = x % h;
        assert(x % (2 * h2) == 2 * (y % h2) + b) by {
            vstd::arithmetic::div_mod::lemma_mod_breakdown(x as int, 2, h2 as int);
        }
        assert(z / 2 == y % h2 && z % 2 == b) by {
            vstd::arithmetic::div_mod::lemma_fundamental_div_mod_converse(
                z as int,
                2,
                (y % h2) as int,
                b as int,
            );
        }
        assert(rev_bits(z, k1) == rev_bits(z / 2, k2) + (z % 2) * h2);
        assert(r == rev_bits(y, k1));
        assert(r / 2 == rev_bits(y % h2, k2));
    }
}

/// Law: bit reversal is an involution on `k`-bit numbers.
pub proof fn law_rev_bits_involution(x: nat, k: nat)
    requires
        x < two_pow(k),
    ensures
        rev_bits(x, k) < two_pow(k),
        rev_bits(rev_bits(x, k), k) == x,
    decreases k,
{
    lemma_rev_bits_bound(x, k);
    if k > 0 {
        let k1 = (k - 1) as nat;
        let h = two_pow(k1);
        lemma_two_pow_pos(k1);
        let y = rev_bits(x, k);
        lemma_rev_bits_low(x, k);
        law_rev_bits_involution(x % h, k1);
        assert(x / h < 2) by {
            vstd::arithmetic::div_mod::lemma_div_by_multiple_is_strongly_ordered(
                x as int,
                (2 * h) as int,
                2,
                h as int,
            );
        }
        vstd::arithmetic::div_mod::lemma_fundamental_div_mod(x as int, h as int);
        assert(rev_bits(y, k) == rev_bits(y / 2, k1) + (y % 2) * h);
        assert(x == h * (x / h) + x % h);
        assert((x / h) * h == h * (x / h)) by (nonlinear_arith);
    }
}

proof fn lemma_two_pow_exceeds(k: nat)
    ensures
        k < two_pow(k),
    decreases k,
{
    if k > 0 {
        lemma_two_pow_exceeds((k - 1) as nat);
    }
}

/// Number of bits `k` with `2^k == n`, for a power of two `n`.
fn log2_exact(n: usize) -> (k: usize)
    requires
        is_power_of_two(n as int),
    ensures
        two_pow(k as nat) == n,
{
    let ghost e = choose|e: nat| two_pow(e) == n;
    proof {
        lemma_two_pow_exceeds(e);
    }
    let mut m: usize = n;
    let mut k: usize = 0;
    while m > 1
        invariant
            m >= 1,
            k as nat <= e,
            e < n,
            two_pow((e - k) as nat) == m,
            two_pow(e) == n,
        decreases m,
    {
        proof {
            if e == k {
                assert(m == 1);
            }
            assert(two_pow((e - k) as nat) == 2 * two_pow((e - k - 1) as nat));
        }
        m = m / 2;
        k = k + 1;
    }
    proof {
        if e > k {
            lemma_two_pow_monotone(1, (e - k) as nat);
        }
    }
    k
}

/// The `bits`-bit reversal of `x`.
pub fn reverse_bits(x: usize, bits: usize) -> (r: usize)
    requires
        (x as nat) < two_pow(bits as nat),
        two_pow(bits as nat) <= usize::MAX + 1,
    ensures
        r as nat == rev_bits(x as nat, bits as nat),
{
    let mut r: usize = 0;
    let mut y: usize = x;
    let mut i: usize = 0;
    let ghost top = two_pow(bits as nat);
    proof {
        lemma_rev_bits_bound(x as nat, bits as nat);
        assert(two_pow(0) == 1);
        assert((x as nat) / 1 == x as nat);
        assert(rev_bits(x as nat, bits as nat) == 0 * two_pow(bits as nat) + rev_bits(x as nat, bits as nat));
    }
    while i < bits
        invariant
            i <= bits,
            top == two_pow(bits as nat),
            top <= usize::MAX + 1,
            (y as nat) == (x as nat) / two_pow(i as nat),
            // r holds the reversal of the i low bits of x, shifted up.
            rev_bits(x as nat, bits as nat) == r as nat * two_pow((bits - i) as nat) + rev_bits(
                y as nat,
                (bits - i) as nat,
            ),
            (r as nat) < two_pow(i as nat),
        decreases bits - i,
    {
        let ghost k = (bits - i) as nat;
        proof {
            lemma_two_pow_pos((k - 1) as nat);
            lemma_two_pow_monotone(i as nat + 1, bits as nat);
            assert(two_pow(k) == 2 * two_pow((k - 1) as nat));
            assert(rev_bits(y as nat, k) == rev_bits((y / 2) as nat, (k - 1) as nat) + (y as nat
                % 2) * two_pow((k - 1) as nat));
            assert(r as nat * two_pow(k) == (2 * r as nat) * two_pow((k - 1) as nat))
                by (nonlinear_arith)
                requires
                    two_pow(k) == 2 * two_pow((k - 1) as nat),
            ;
            assert((2 * r as nat + y as nat % 2) * two_pow((k - 1) as nat) == (2 * r as nat)
                * two_pow((k - 1) as nat) + (y as nat % 2) * two_pow((k - 1) as nat))
                by (nonlinear_arith);
            vstd::arithmetic::div_mod::lemma_div_denominator(
                x as int,
                two_pow(i as nat) as int,
                2,
            );
            assert(two_pow(i as nat + 1) == two_pow(i as nat) * 2);
        }
        r = 2 * r + y % 2;
        y = y / 2;
        i = i + 1;
    }
    proof {
        assert(i == bits);
        assert(two_pow((bits - i) as nat) == 1);
        assert(rev_bits(y as nat, (bits - i) as nat) == 0);
        assert(r as nat * 1 == r as nat);
    }
    r
}

/// Reorder `data` into bit-reversed index order (the first stage of an
/// in-place radix-2 FFT): afterwards `data[i]` is the old `data[rev(i)]`.
pub fn bit_reverse_permute<T: Copy>(data: &mut Vec<T>)
    requires
        is_power_of_two(old(data)@.len() as int),
    ensures
        final(data)@.len() == old(data)@.len(),
        forall|i: int|
            0 <= i < old(data)@.len() ==> #[trigger] final(data)@[i] == old(data)@[
                rev_bits(
                    i as nat,
                    choose|k: nat| two_pow(k) == old(data)@.len(),
                ) as int
            ],
{
    let n = data.len();
    let bits = log2_exact(n);
    let ghost k = bits as nat;
    let ghost orig = data@;
    proof {
        let e = choose|e: nat| two_pow(e) == orig.len();
        lemma_two_pow_injective(e, k);
    }
    let mut i: usize = 0;
    while i < n
        invariant
            n == data@.len(),
            n == orig.len(),
            two_pow(k) == n,
            k == bits as nat,
            0 <= i <= n,
            forall|p: int|
                0 <= p < n ==> #[trigger] data@[p] == if p < i || rev_bits(p as nat, k) < i {
                    orig[rev_bits(p as nat, k) as int]
                } else {
                    orig[p]
                },
        decreases n - i,
    {
        let j = reverse_bits(i, bits);
        proof {
            law_rev_bits_involution(i as nat, k);
        }
        if i < j {
            let a = data[i];
            let b = data[j];
            data.set(i, b);
            data.set(j, a);
        }
        proof {
            assert forall|p: int| 0 <= p < n implies #[trigger] data@[p] == if p < i + 1
                || rev_bits(p as nat, k) < i + 1 {
                orig[rev_bits(p as nat, k) as int]
            } else {
                orig[p]
            } by {
                law_rev_bits_involution(p as nat, k);
                if p == j as int {
                } else if p == i as int {
                }
            }
        }
        i = i + 1;
    }
}

/// Law: bit-reversal reordering undoes itself. Given the contract of
/// `bit_reverse_permute` for two successive calls (`once` from `data`, then
/// `twice` from `once`), `twice` is `data` again.
pub proof fn law_bit_reverse_twice<T>(data: Seq<T>, once: Seq<T>, twice: Seq<T>, k: nat)
    requires
        data.len() == two_pow(k),
        once.len() == data.len(),
        twice.len() == data.len(),
        forall|i: int| 0 <= i < data.len() ==> #[trigger] once[i] == data[rev_bits(i as nat, k) as int],
        forall|i: int| 0 <= i < data.len() ==> #[trigger] twice[i] == once[rev_bits(i as nat, k) as int],
    ensures
        twice == data,
{
    assert forall|i: int| 0 <= i < data.len() implies #[trigger] twice[i] == data[i] by {
        law_rev_bits_involution(i as nat, k);
        let j = rev_bits(i as nat, k) as int;
        assert(once[j] == data[rev_bits(j as nat, k) as int]);
    }
    assert(twice =~= data);
}

} // verus!
