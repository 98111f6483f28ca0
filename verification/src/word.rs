use vstd::prelude::*;

verus! {

/// The signed 16-bit value of the little-endian byte pair `lo`, `hi`
/// (two's complement).
pub open spec fn le16(lo: u8, hi: u8) -> i16 {
    let u = lo as int + 256 * hi as int;
    (if u >= 0x8000 {
        u - 0x1_0000
    } else {
        u
    }) as i16
}

/// `t` with the little-endian two's-complement bytes of `v` at `off`, `off + 1`.
pub open spec fn put16(t: Seq<u8>, off: int, v: i16) -> Seq<u8> {
    let u = if v < 0 {
        v + 0x1_0000
    } else {
        v as int
    };
    t.update(off, (u % 256) as u8).update(off + 1, (u / 256) as u8)
}

/// The value of i16 that `x` wraps around to: the one that differs from it
/// by a multiple of 2^16.
pub open spec fn wrap16(x: int) -> int {
    (x + 0x8000) % 0x1_0000 - 0x8000
}

/// The wrapping operations of i16 give the wrapped true result.
pub proof fn lemma_wrapping16(x: i16, y: i16)
    ensures
        x.wrapping_add(y) as int == wrap16(x + y),
        x.wrapping_sub(y) as int == wrap16(x - y),
        x.wrapping_mul(y) as int == wrap16(x * y),
{
    let p = x * y;
    let r = p % 0x1_0000;
    vstd::arithmetic::div_mod::lemma_fundamental_div_mod(p, 0x1_0000);
    vstd::arithmetic::div_mod::lemma_fundamental_div_mod(p + 0x8000, 0x1_0000);
    let q1 = p / 0x1_0000;
    let q2 = (p + 0x8000) / 0x1_0000;
    assert(0 <= r < 0x1_0000);
    assert(0 <= (p + 0x8000) % 0x1_0000 < 0x1_0000);
    // the two quotients differ by at most one
    assert(q2 == q1 || q2 == q1 + 1) by (nonlinear_arith)
        requires
            p == 0x1_0000 * q1 + r,
            p + 0x8000 == 0x1_0000 * q2 + (p + 0x8000) % 0x1_0000,
            0 <= r < 0x1_0000,
            0 <= (p + 0x8000) % 0x1_0000 < 0x1_0000,
    ;
}

/// Wrapping one term of a sum first does not change the wrapped sum.
pub proof fn lemma_wrap16_add(a: int, b: int)
    ensures
        wrap16(a + wrap16(b)) == wrap16(a + b),
{
    let k = (b + 0x8000) / 0x1_0000;
    vstd::arithmetic::div_mod::lemma_fundamental_div_mod(b + 0x8000, 0x1_0000);
    assert(wrap16(b) == b - 0x1_0000 * k);
    vstd::arithmetic::div_mod::lemma_mod_multiples_vanish(-k, a + b + 0x8000, 0x1_0000);
    assert(a + b + 0x8000 + 0x1_0000 * (-k) == a + wrap16(b) + 0x8000);
}

/// Byte arithmetic: the wrapping operations of u8 give the true result mod
/// 256, and a byte read as i8 is itself less 256 from 128 on.
pub proof fn lemma_byte_arith(x: u8, y: u8, sum: u8, diff: u8)
    requires
        sum == x.wrapping_add(y),
        diff == x.wrapping_sub(y),
    ensures
        sum as int == (x as int + y as int) % 256,
        diff as int == (x as int + 256 - y as int) % 256,
        (x as i8) as int == if x >= 128 { x as int - 256 } else { x as int },
        (x as i8 <= 0) == (x == 0 || x >= 128),
{
    assert(sum as int == (x as int + y as int) % 256 && diff as int == (x as int + 256 - y as int)
        % 256 && (x as i8) as int == (if x >= 128 { x as int - 256 } else { x as int }) && (x as i8
        <= 0) == (x == 0 || x >= 128)) by (bit_vector)
        requires
            sum == x.wrapping_add(y),
            diff == x.wrapping_sub(y),
    ;
}

/// The value of i32 that `x` wraps around to: the one that differs from it
/// by a multiple of 2^32.
pub open spec fn wrap32(x: int) -> int {
    (x + 0x8000_0000) % 0x1_0000_0000 - 0x8000_0000
}

/// Wrapping addition and subtraction of i32 give the wrapped true result.
pub proof fn lemma_wrapping32(x: i32, y: i32)
    ensures
        x.wrapping_add(y) as int == wrap32(x + y),
        x.wrapping_sub(y) as int == wrap32(x - y),
{
}

/// A 32-bit word written with `put32` reads back as itself, and the other
/// bytes of the tape are untouched.
pub proof fn lemma_put32_reads_back(t: Seq<u8>, off: int, v: i32)
    requires
        0 <= off,
        off + 3 < t.len(),
    ensures
        ({
            let t2 = put32(t, off, v);
            &&& t2.len() == t.len()
            &&& le32(t2[off], t2[off + 1], t2[off + 2], t2[off + 3]) == v
            &&& forall|i: int| 0 <= i < t.len() && (i < off || i > off + 3) ==> t2[i] == t[i]
        }),
{
    let u = if v < 0 {
        v + 0x1_0000_0000
    } else {
        v as int
    };
    assert(0 <= u < 0x1_0000_0000);
    vstd::arithmetic::div_mod::lemma_div_denominator(u, 0x100, 0x100);
    vstd::arithmetic::div_mod::lemma_div_denominator(u, 0x1_0000, 0x100);
    let q1 = u / 0x100;
    let q2 = u / 0x1_0000;
    let q3 = u / 0x100_0000;
    assert(q1 / 0x100 == q2);
    assert(q2 / 0x100 == q3);
    assert(u == u % 0x100 + 0x100 * q1);
    assert(q1 == q1 % 0x100 + 0x100 * q2);
    assert(q2 == q2 % 0x100 + 0x100 * q3);
    assert(0 <= q3 < 0x100);
    assert(u % 0x100 + 0x100 * (q1 % 0x100) + 0x1_0000 * (q2 % 0x100) + 0x100_0000 * q3 == u)
        by (nonlinear_arith)
        requires
            u == u % 0x100 + 0x100 * q1,
            q1 == q1 % 0x100 + 0x100 * q2,
            q2 == q2 % 0x100 + 0x100 * q3,
    ;
}

/// `x` doubled `k` times, wrapping around to i16 each time.
pub open spec fn doubled16(x: int, k: nat) -> int
    decreases k,
{
    if k == 0 {
        x
    } else {
        wrap16(2 * doubled16(x, (k - 1) as nat))
    }
}

/// `x` halved `k` times, rounding down each time.
pub open spec fn halved(x: int, k: nat) -> int
    decreases k,
{
    if k == 0 {
        x
    } else {
        halved(x, (k - 1) as nat) / 2
    }
}

/// Shifting an i16 left by `k` (below 16) doubles it `k` times with
/// wrap-around; shifting it right (arithmetically) halves it `k` times,
/// rounding down.
pub proof fn lemma_shifts16(x: i16, k: u32)
    requires
        k < 16,
    ensures
        x.wrapping_shl(k) as int == doubled16(x as int, k as nat),
        x.wrapping_shr(k) as int == halved(x as int, k as nat),
    decreases k,
{
    if k == 0 {
        assert(x << 0u32 == x && x >> 0u32 == x) by (bit_vector);
    } else {
        lemma_shifts16(x, (k - 1) as u32);
        let j = (k - 1) as u32;
        let l = x << j;
        let r = x >> j;
        assert(x << k == l << 1u32 && x >> k == r >> 1u32 && ((l << 1u32) as int == if l >= 0x4000 {
            2 * l - 0x1_0000
        } else if l < -0x4000 {
            2 * l + 0x1_0000
        } else {
            2 * l
        }) && (2 * ((r >> 1u32) as int) == r || 2 * ((r >> 1u32) as int) == r - 1)) by (bit_vector)
            requires
                0 < k < 16,
                j == k - 1,
                l == x << j,
                r == x >> j,
        ;
    }
}

/// `x` doubled `k` times, mod 256 each time.
pub open spec fn doubled8(x: int, k: nat) -> int
    decreases k,
{
    if k == 0 {
        x
    } else {
        (2 * doubled8(x, (k - 1) as nat)) % 256
    }
}

/// Shifting a byte left by `k` (below 8) doubles it `k` times mod 256;
/// shifting it right halves it `k` times, rounding down.
pub proof fn lemma_shifts8(x: u8, k: u8)
    requires
        k < 8,
    ensures
        (x << k) as int == doubled8(x as int, k as nat),
        (x >> k) as int == halved(x as int, k as nat),
    decreases k,
{
    if k == 0 {
        assert(x << 0u8 == x && x >> 0u8 == x) by (bit_vector);
    } else {
        lemma_shifts8(x, (k - 1) as u8);
        let j = (k - 1) as u8;
        let l = x << j;
        let r = x >> j;
        assert(x << k == l << 1u8 && x >> k == r >> 1u8 && (l << 1u8) as int == (2 * l as int) % 256
            && (r >> 1u8) as int == r as int / 2) by (bit_vector)
            requires
                0 < k < 8,
                j == k - 1,
                l == x << j,
                r == x >> j,
        ;
    }
}

/// The nibbles of a byte: `& 0x0F` keeps its value mod 16, `>> 4` divides it
/// by 16.
pub proof fn lemma_nibbles(x: u8)
    ensures
        x & 0x0F == x % 16,
        x >> 4 == x / 16,
{
    assert(x & 0x0F == x % 16 && x >> 4 == x / 16) by (bit_vector);
}

/// A 16-bit word written with `put16` reads back as itself, and the other
/// bytes of the tape are untouched.
pub proof fn lemma_put16_reads_back(t: Seq<u8>, off: int, v: i16)
    requires
        0 <= off,
        off + 1 < t.len(),
    ensures
        ({
            let t2 = put16(t, off, v);
            &&& t2.len() == t.len()
            &&& le16(t2[off], t2[off + 1]) == v
            &&& forall|i: int| 0 <= i < t.len() && i != off && i != off + 1 ==> t2[i] == t[i]
        }),
{
    let u = if v < 0 {
        v + 0x1_0000
    } else {
        v as int
    };
    assert(0 <= u < 0x1_0000);
    assert(u % 256 + 256 * (u / 256) == u);
    assert((v < 0) == (u >= 0x8000));
}

/// The signed 32-bit value of four little-endian bytes (two's complement).
pub open spec fn le32(b0: u8, b1: u8, b2: u8, b3: u8) -> i32 {
    let u = b0 as int + 0x100 * b1 as int + 0x1_0000 * b2 as int + 0x100_0000 * b3 as int;
    (if u >= 0x8000_0000 {
        u - 0x1_0000_0000
    } else {
        u
    }) as i32
}

/// `t` with the four little-endian two's-complement bytes of `v` at `off`.
pub open spec fn put32(t: Seq<u8>, off: int, v: i32) -> Seq<u8> {
    let u = if v < 0 {
        v + 0x1_0000_0000
    } else {
        v as int
    };
    t.update(off, (u % 0x100) as u8).update(off + 1, ((u / 0x100) % 0x100) as u8).update(
        off + 2,
        ((u / 0x1_0000) % 0x100) as u8,
    ).update(off + 3, (u / 0x100_0000) as u8)
}

/// Read the little-endian i16 at byte offset `off`.
pub fn read_i16(tape: &[u8], off: usize) -> (v: i16)
    requires
        off + 1 < tape@.len(),
    ensures
        v == le16(tape@[off as int], tape@[off + 1]),
{
    let u: i32 = tape[off] as i32 + 256 * tape[off + 1] as i32;
    if u >= 0x8000 {
        (u - 0x1_0000) as i16
    } else {
        u as i16
    }
}

/// Write `v` as a little-endian i16 at byte offset `off`.
pub fn write_i16(tape: &mut [u8], off: usize, v: i16)
    requires
        off + 1 < old(tape)@.len(),
    ensures
        final(tape)@ == put16(old(tape)@, off as int, v),
{
    let u: i32 = if v < 0 {
        v as i32 + 0x1_0000
    } else {
        v as i32
    };
    tape[off] = (u % 256) as u8;
    tape[off + 1] = (u / 256) as u8;
}

/// Read the little-endian i32 at byte offset `off`.
pub fn read_i32(tape: &[u8], off: usize) -> (v: i32)
    requires
        off + 3 < tape@.len(),
    ensures
        v == le32(tape@[off as int], tape@[off + 1], tape@[off + 2], tape@[off + 3]),
{
    let u: i64 = tape[off] as i64 + 0x100 * tape[off + 1] as i64 + 0x1_0000 * tape[off + 2] as i64
        + 0x100_0000 * tape[off + 3] as i64;
    if u >= 0x8000_0000 {
        (u - 0x1_0000_0000) as i32
    } else {
        u as i32
    }
}

/// Write `v` as a little-endian i32 at byte offset `off`.
pub fn write_i32(tape: &mut [u8], off: usize, v: i32)
    requires
        off + 3 < old(tape)@.len(),
    ensures
        final(tape)@ == put32(old(tape)@, off as int, v),
{
    let u: i64 = if v < 0 {
        v as i64 + 0x1_0000_0000
    } else {
        v as i64
    };
    tape[off] = (u % 0x100) as u8;
    tape[off + 1] = ((u / 0x100) % 0x100) as u8;
    tape[off + 2] = ((u / 0x1_0000) % 0x100) as u8;
    tape[off + 3] = (u / 0x100_0000) as u8;
}

/// The absolute value of an integer.
pub open spec fn abs(a: int) -> int {
    if a < 0 {
        -a
    } else {
        a
    }
}

/// Division rounding toward zero, as Rust's `/` on signed integers does.
pub open spec fn trunc_div(a: int, b: int) -> int {
    let q = abs(a) / abs(b);
    if (a < 0) == (b < 0) {
        q
    } else {
        -q
    }
}

/// `i16::wrapping_neg`.
pub open spec fn neg16(a: i16) -> i16 {
    0i16.wrapping_sub(a)
}

/// `i16::wrapping_abs`: the absolute value, except that `i16::MIN` stays.
pub open spec fn abs16(a: i16) -> i16 {
    if a == i16::MIN {
        a
    } else {
        abs(a as int) as i16
    }
}

/// `i16::wrapping_div` for a nonzero divisor.
pub open spec fn div16(a: i16, b: i16) -> i16 {
    if a == i16::MIN && b == -1 {
        i16::MIN
    } else {
        trunc_div(a as int, b as int) as i16
    }
}

/// `i16::wrapping_rem` for a nonzero divisor.
pub open spec fn rem16(a: i16, b: i16) -> i16 {
    if a == i16::MIN && b == -1 {
        0
    } else {
        (a - b * trunc_div(a as int, b as int)) as i16
    }
}

/// `i16::wrapping_neg`.
pub fn wrapping_neg16(a: i16) -> (r: i16)
    ensures
        r == neg16(a),
{
    0i16.wrapping_sub(a)
}

/// `i16::wrapping_abs`.
pub fn wrapping_abs16(a: i16) -> (r: i16)
    ensures
        r == abs16(a),
{
    if a == i16::MIN {
        a
    } else if a < 0 {
        -a
    } else {
        a
    }
}

proof fn lemma_trunc_div_bounds(a: int, b: int)
    requires
        -0x8000 <= a < 0x8000,
        -0x8000 <= b < 0x8000,
        b != 0,
        !(a == -0x8000 && b == -1),
    ensures
        -0x8000 <= trunc_div(a, b) < 0x8000,
        abs(a - b * trunc_div(a, b)) < abs(b),
        -0x8000 <= a - b * trunc_div(a, b) < 0x8000,
{
    let q = abs(a) / abs(b);
    let ua = abs(a);
    let ub = abs(b);
    assert(q <= ua && ua - ub * q < ub && ua - ub * q >= 0 && q >= 0) by (nonlinear_arith)
        requires
            ub >= 1,
            ua >= 0,
            q == ua / ub,
    ;
    assert(q == ua ==> ub == 1 || ua == 0) by (nonlinear_arith)
        requires
            ub >= 1,
            ua >= 0,
            ua - ub * q >= 0,
    ;
    let t = trunc_div(a, b);
    if a >= 0 && b > 0 {
        assert(b * t == ub * q);
    } else if a >= 0 && b < 0 {
        assert(b * t == ub * q) by (nonlinear_arith)
            requires
                b == -ub,
                t == -q,
        ;
    } else if a < 0 && b > 0 {
        assert(b * t == -(ub * q)) by (nonlinear_arith)
            requires
                b == ub,
                t == -q,
        ;
    } else {
        assert(b * t == -(ub * q)) by (nonlinear_arith)
            requires
                b == -ub,
                t == q,
        ;
    }
}

/// Truncating division of i16: quotient times divisor plus remainder gives
/// the dividend back, the remainder is smaller than the divisor in size and
/// is zero or has the dividend's sign. (The one overflowing case, i16::MIN
/// by -1, is left out.)
pub proof fn lemma_div16_rem16(a: i16, b: i16)
    requires
        b != 0,
        !(a == i16::MIN && b == -1),
    ensures
        div16(a, b) * b + rem16(a, b) == a,
        abs(rem16(a, b) as int) < abs(b as int),
        rem16(a, b) == 0 || (rem16(a, b) < 0) == (a < 0),
{
    lemma_trunc_div_bounds(a as int, b as int);
    let ua = abs(a as int);
    let ub = abs(b as int);
    let q = ua / ub;
    let r = ua - ub * q;
    assert(0 <= r < ub) by (nonlinear_arith)
        requires
            ub >= 1,
            ua >= 0,
            q == ua / ub,
            r == ua - ub * q,
    ;
    let t = trunc_div(a as int, b as int);
    let rr = a - b * t;
    if a >= 0 {
        if b > 0 {
            assert(b * t == ub * q);
        } else {
            assert(b * t == ub * q) by (nonlinear_arith)
                requires
                    b == -ub,
                    t == -q,
            ;
        }
        assert(rr == r);
    } else {
        if b > 0 {
            assert(b * t == -(ub * q)) by (nonlinear_arith)
                requires
                    b == ub,
                    t == -q,
            ;
        } else {
            assert(b * t == -(ub * q)) by (nonlinear_arith)
                requires
                    b == -ub,
                    t == q,
            ;
        }
        assert(rr == -r);
    }
    assert(t * b == b * t) by (nonlinear_arith);
}

/// `i16::wrapping_div` for a nonzero divisor.
pub fn wrapping_div16(a: i16, b: i16) -> (r: i16)
    requires
        b != 0,
    ensures
        r == div16(a, b),
{
    if a == i16::MIN && b == -1 {
        return i16::MIN;
    }
    proof {
        lemma_trunc_div_bounds(a as int, b as int);
    }
    let ua: i32 = if a < 0 {
        -(a as i32)
    } else {
        a as i32
    };
    let ub: i32 = if b < 0 {
        -(b as i32)
    } else {
        b as i32
    };
    let q: i32 = ua / ub;
    if (a < 0) == (b < 0) {
        q as i16
    } else {
        (-q) as i16
    }
}

/// `i16::wrapping_rem` for a nonzero divisor.
pub fn wrapping_rem16(a: i16, b: i16) -> (r: i16)
    requires
        b != 0,
    ensures
        r == rem16(a, b),
{
    if a == i16::MIN && b == -1 {
        return 0;
    }
    proof {
        lemma_trunc_div_bounds(a as int, b as int);
    }
    let q = wrapping_div16(a, b) as i32;
    (a as i32 - b as i32 * q) as i16
}

/// The integer square root: the largest `r` with `r * r <= n`.
pub open spec fn is_isqrt(n: nat, r: nat) -> bool {
    r * r <= n < (r + 1) * (r + 1)
}

/// The integer square root of `n` (at most `0x1_0000`).
pub fn isqrt_u32(n: u32) -> (r: u32)
    requires
        n <= 0x1_0000,
    ensures
        is_isqrt(n as nat, r as nat),
        r <= 0x100,
{
    let mut r: u32 = 0;
    while (r + 1) * (r + 1) <= n
        invariant
            r * r <= n <= 0x1_0000,
            r <= 0x100,
            (r + 1) * (r + 1) <= 0x1_0201,
        decreases n - r * r,
    {
        assert((r + 1) <= 0x100) by (nonlinear_arith)
            requires
                (r + 1) * (r + 1) <= 0x1_0000,
                r >= 0,
        ;
        assert((r + 1) * (r + 1) > r * r) by (nonlinear_arith)
            requires
                r >= 0,
        ;
        assert((r + 2) * (r + 2) <= 0x1_0201) by (nonlinear_arith)
            requires
                r + 1 <= 0x100,
                r >= 0,
        ;
        r = r + 1;
    }
    r
}

/// `u16::rotate_left` by `shift` (below 16).
pub open spec fn rotl16(x: u16, shift: u32) -> u16 {
    if shift == 0 {
        x
    } else {
        (x << shift) | (x >> (16 - shift))
    }
}

/// `u` rotated left by one bit `k` times: each time the top bit comes round
/// to the bottom.
pub open spec fn rotated16(u: int, k: nat) -> int
    decreases k,
{
    if k == 0 {
        u
    } else {
        let p = rotated16(u, (k - 1) as nat);
        (2 * p) % 0x1_0000 + p / 0x8000
    }
}

/// Rotating a 16-bit word left by `k` (below 16) is rotating it by one bit
/// `k` times.
pub proof fn lemma_rotl16(x: u16, k: u32)
    requires
        k < 16,
    ensures
        rotl16(x, k) as int == rotated16(x as int, k as nat),
    decreases k,
{
    if k > 0 {
        lemma_rotl16(x, (k - 1) as u32);
        let j = (k - 1) as u32;
        let jc = (16 - j) as u32;
        let kc = (16 - k) as u32;
        let y = rotl16(x, j);
        let r = rotl16(x, k);
        assert(r as int == (2 * y as int) % 0x1_0000 + y as int / 0x8000) by (bit_vector)
            requires
                0 < k < 16,
                j == k - 1,
                jc == 16 - j,
                kc == 16 - k,
                y == (if j == 0 { x } else { (x << j) | (x >> jc) }),
                r == (x << k) | (x >> kc),
        ;
    }
}

/// Rotate `x` left by `shift` (below 16) bits.
pub fn rotate_left16(x: u16, shift: u32) -> (r: u16)
    requires
        shift < 16,
    ensures
        r == rotl16(x, shift),
{
    if shift == 0 {
        x
    } else {
        (x << shift) | (x >> (16 - shift))
    }
}

} // verus!
