//! The field arithmetic unit: GF(256) with the reduction polynomial
//! x^8 + x^4 + x^3 + x + 1 (0x11b).
//!
//! Addition is bytewise XOR. Multiplication is carry-less (polynomial)
//! multiplication reduced modulo the polynomial, computed bit by bit from the
//! right operand. Every row combination in the codec goes through this
//! module; no other module touches raw byte arithmetic.

use vstd::prelude::*;

verus! {

/// Field addition: XOR.
pub open spec fn gf_add_spec(a: u8, b: u8) -> u8 {
    a ^ b
}

/// One doubling step: multiply by x and reduce modulo the field polynomial.
pub open spec fn gf_double_spec(a: u8) -> u8 {
    if a & 0x80 != 0 {
        (a << 1) ^ 0x1b
    } else {
        a << 1
    }
}

/// `k` remaining steps of the shift-and-add product scan: if the low bit of
/// `bb` is set, the current partial product `aa` joins the accumulator; then
/// `aa` doubles and `bb` shifts right.
pub open spec fn gf_mul_rec(aa: u8, bb: u8, acc: u8, k: nat) -> u8
    decreases k,
{
    if k == 0 {
        acc
    } else {
        let acc2 = if bb & 1 != 0 { acc ^ aa } else { acc };
        gf_mul_rec(gf_double_spec(aa), bb >> 1, acc2, (k - 1) as nat)
    }
}

/// Field multiplication: eight shift-and-add steps over the bits of `b`.
pub open spec fn gf_mul_spec(a: u8, b: u8) -> u8 {
    gf_mul_rec(a, b, 0, 8)
}

/// Field addition.
pub fn gf_add(a: u8, b: u8) -> (r: u8)
    ensures
        r == gf_add_spec(a, b),
{
    a ^ b
}

/// Field multiplication.
pub fn gf_mul(a: u8, b: u8) -> (r: u8)
    ensures
        r == gf_mul_spec(a, b),
{
    let mut aa: u8 = a;
    let mut bb: u8 = b;
    let mut acc: u8 = 0;
    let mut k: usize = 0;
    while k < 8
        invariant
            k <= 8,
            gf_mul_rec(aa, bb, acc, (8 - k) as nat) == gf_mul_spec(a, b),
        decreases 8 - k,
    {
        if bb & 1 != 0 {
            acc = acc ^ aa;
        }
        let hi = aa & 0x80;
        aa = aa << 1;
        if hi != 0 {
            aa = aa ^ 0x1b;
        }
        bb = bb >> 1;
        k = k + 1;
    }
    acc
}

/// Scanning the bits of zero adds nothing to the accumulator.
pub proof fn lemma_mul_rec_zero_b(aa: u8, acc: u8, k: nat)
    ensures
        gf_mul_rec(aa, 0, acc, k) == acc,
    decreases k,
{
    if k > 0 {
        assert(0u8 & 1 == 0) by (bit_vector);
        assert(0u8 >> 1 == 0) by (bit_vector);
        lemma_mul_rec_zero_b(gf_double_spec(aa), acc, (k - 1) as nat);
    }
}

/// A zero partial product leaves the accumulator unchanged at every step.
pub proof fn lemma_mul_rec_zero_a(bb: u8, acc: u8, k: nat)
    ensures
        gf_mul_rec(0, bb, acc, k) == acc,
    decreases k,
{
    if k > 0 {
        assert(acc ^ 0u8 == acc) by (bit_vector);
        assert(0u8 & 0x80 == 0 && 0u8 << 1 == 0) by (bit_vector);
        lemma_mul_rec_zero_a(bb >> 1, acc, (k - 1) as nat);
    }
}

/// Zero annihilates on the right.
pub proof fn lemma_mul_zero_right(a: u8)
    ensures
        gf_mul_spec(a, 0) == 0,
{
    lemma_mul_rec_zero_b(a, 0, 8);
}

/// Zero annihilates on the left.
pub proof fn lemma_mul_zero_left(b: u8)
    ensures
        gf_mul_spec(0, b) == 0,
{
    lemma_mul_rec_zero_a(b, 0, 8);
}

/// One is a right identity of multiplication.
pub proof fn lemma_mul_one_right(a: u8)
    ensures
        gf_mul_spec(a, 1) == a,
{
    assert(1u8 & 1 == 1) by (bit_vector);
    assert(1u8 >> 1 == 0) by (bit_vector);
    assert(0u8 ^ a == a) by (bit_vector);
    lemma_mul_rec_zero_b(gf_double_spec(a), a, 7);
}

/// Doubling distributes over addition: both reductions cancel or combine.
pub proof fn lemma_double_distributes(a1: u8, a2: u8)
    ensures
        gf_double_spec(a1 ^ a2) == gf_double_spec(a1) ^ gf_double_spec(a2),
{
    assert((if (a1 ^ a2) & 0x80 != 0 {
        ((a1 ^ a2) << 1) ^ 0x1b
    } else {
        (a1 ^ a2) << 1
    }) == (if a1 & 0x80 != 0 {
        (a1 << 1) ^ 0x1b
    } else {
        a1 << 1
    }) ^ (if a2 & 0x80 != 0 {
        (a2 << 1) ^ 0x1b
    } else {
        a2 << 1
    })) by (bit_vector);
}

/// The product scan distributes over addition of partial products and
/// accumulators.
pub proof fn lemma_mul_rec_distributes(aa1: u8, aa2: u8, bb: u8, acc1: u8, acc2: u8, k: nat)
    ensures
        gf_mul_rec(aa1 ^ aa2, bb, acc1 ^ acc2, k) == gf_mul_rec(aa1, bb, acc1, k) ^ gf_mul_rec(aa2, bb, acc2, k),
    decreases k,
{
    if k > 0 {
        lemma_double_distributes(aa1, aa2);
        assert((acc1 ^ acc2) ^ (aa1 ^ aa2) == (acc1 ^ aa1) ^ (acc2 ^ aa2)) by (bit_vector);
        if bb & 1 != 0 {
            lemma_mul_rec_distributes(
                gf_double_spec(aa1),
                gf_double_spec(aa2),
                bb >> 1,
                acc1 ^ aa1,
                acc2 ^ aa2,
                (k - 1) as nat,
            );
        } else {
            lemma_mul_rec_distributes(
                gf_double_spec(aa1),
                gf_double_spec(aa2),
                bb >> 1,
                acc1,
                acc2,
                (k - 1) as nat,
            );
        }
    }
}

/// Multiplication distributes over addition in the left operand.
pub proof fn lemma_mul_distributes_left(a1: u8, a2: u8, b: u8)
    ensures
        gf_mul_spec(a1 ^ a2, b) == gf_mul_spec(a1, b) ^ gf_mul_spec(a2, b),
{
    assert(0u8 ^ 0u8 == 0u8) by (bit_vector);
    lemma_mul_rec_distributes(a1, a2, b, 0, 0, 8);
}

/// Right-distributivity at the scan level: scanning the sum of two right
/// operands splits over both accumulators.
pub proof fn lemma_mul_rec_distributes_right(aa: u8, b1: u8, b2: u8, acc1: u8, acc2: u8, k: nat)
    ensures
        gf_mul_rec(aa, b1 ^ b2, acc1 ^ acc2, k) == gf_mul_rec(aa, b1, acc1, k) ^ gf_mul_rec(aa, b2, acc2, k),
    decreases k,
{
    if k > 0 {
        assert((b1 ^ b2) >> 1 == (b1 >> 1) ^ (b2 >> 1)) by (bit_vector);
        assert((if (b1 ^ b2) & 1 != 0 {
            (acc1 ^ acc2) ^ aa
        } else {
            acc1 ^ acc2
        }) == (if b1 & 1 != 0 {
            acc1 ^ aa
        } else {
            acc1
        }) ^ (if b2 & 1 != 0 {
            acc2 ^ aa
        } else {
            acc2
        })) by (bit_vector);
        lemma_mul_rec_distributes_right(
            gf_double_spec(aa),
            b1 >> 1,
            b2 >> 1,
            if b1 & 1 != 0 { acc1 ^ aa } else { acc1 },
            if b2 & 1 != 0 { acc2 ^ aa } else { acc2 },
            (k - 1) as nat,
        );
    }
}

/// Multiplication distributes over addition in the right operand.
pub proof fn lemma_mul_distributes_right(a: u8, b1: u8, b2: u8)
    ensures
        gf_mul_spec(a, b1 ^ b2) == gf_mul_spec(a, b1) ^ gf_mul_spec(a, b2),
{
    assert(0u8 ^ 0u8 == 0u8) by (bit_vector);
    lemma_mul_rec_distributes_right(a, b1, b2, 0, 0, 8);
}

/// The accumulator rides through the scan untouched by the partial products.
pub proof fn lemma_rec_acc_split(aa: u8, bb: u8, acc: u8, k: nat)
    ensures
        gf_mul_rec(aa, bb, acc, k) == acc ^ gf_mul_rec(aa, bb, 0, k),
{
    assert(0u8 ^ aa == aa && acc ^ 0u8 == acc) by (bit_vector);
    lemma_mul_rec_zero_a(bb, acc, k);
    lemma_mul_rec_distributes(0, aa, bb, acc, 0, k);
}

/// Doubling the partial product and the accumulator doubles the whole scan.
pub proof fn lemma_rec_double(aa: u8, bb: u8, acc: u8, k: nat)
    ensures
        gf_mul_rec(gf_double_spec(aa), bb, gf_double_spec(acc), k) == gf_double_spec(gf_mul_rec(aa, bb, acc, k)),
    decreases k,
{
    if k > 0 {
        lemma_double_distributes(acc, aa);
        lemma_rec_double(
            gf_double_spec(aa),
            bb >> 1,
            if bb & 1 != 0 { acc ^ aa } else { acc },
            (k - 1) as nat,
        );
    }
}

/// Doubling the left operand doubles the product.
pub proof fn lemma_mul_double_left(a: u8, b: u8)
    ensures
        gf_mul_spec(gf_double_spec(a), b) == gf_double_spec(gf_mul_spec(a, b)),
{
    assert(0u8 & 0x80 == 0 && 0u8 << 1 == 0) by (bit_vector);
    lemma_rec_double(a, b, 0, 8);
}

/// An eighth scan step is idle once the right operand fits in seven bits.
pub proof fn lemma_rec_seven(aa: u8, bb: u8, acc: u8)
    requires
        bb >> 7 == 0,
    ensures
        gf_mul_rec(aa, bb, acc, 8) == gf_mul_rec(aa, bb, acc, 7),
{
    let a1 = gf_double_spec(aa);
    let c1 = if bb & 1 != 0 { acc ^ aa } else { acc };
    let b1 = bb >> 1;
    let a2 = gf_double_spec(a1);
    let c2 = if b1 & 1 != 0 { c1 ^ a1 } else { c1 };
    let b2 = b1 >> 1;
    let a3 = gf_double_spec(a2);
    let c3 = if b2 & 1 != 0 { c2 ^ a2 } else { c2 };
    let b3 = b2 >> 1;
    let a4 = gf_double_spec(a3);
    let c4 = if b3 & 1 != 0 { c3 ^ a3 } else { c3 };
    let b4 = b3 >> 1;
    let a5 = gf_double_spec(a4);
    let c5 = if b4 & 1 != 0 { c4 ^ a4 } else { c4 };
    let b5 = b4 >> 1;
    let a6 = gf_double_spec(a5);
    let c6 = if b5 & 1 != 0 { c5 ^ a5 } else { c5 };
    let b6 = b5 >> 1;
    let a7 = gf_double_spec(a6);
    let c7 = if b6 & 1 != 0 { c6 ^ a6 } else { c6 };
    let b7 = b6 >> 1;
    assert(b7 == 0) by (bit_vector)
        requires
            bb >> 7 == 0,
            b1 == bb >> 1,
            b2 == b1 >> 1,
            b3 == b2 >> 1,
            b4 == b3 >> 1,
            b5 == b4 >> 1,
            b6 == b5 >> 1,
            b7 == b6 >> 1,
    ;
    assert(gf_mul_rec(aa, bb, acc, 8) == gf_mul_rec(a1, b1, c1, 7));
    assert(gf_mul_rec(a1, b1, c1, 7) == gf_mul_rec(a2, b2, c2, 6));
    assert(gf_mul_rec(a2, b2, c2, 6) == gf_mul_rec(a3, b3, c3, 5));
    assert(gf_mul_rec(a3, b3, c3, 5) == gf_mul_rec(a4, b4, c4, 4));
    assert(gf_mul_rec(a4, b4, c4, 4) == gf_mul_rec(a5, b5, c5, 3));
    assert(gf_mul_rec(a5, b5, c5, 3) == gf_mul_rec(a6, b6, c6, 2));
    assert(gf_mul_rec(a6, b6, c6, 2) == gf_mul_rec(a7, b7, c7, 1));
    lemma_mul_rec_zero_b(a7, c7, 1);
    assert(gf_mul_rec(aa, bb, acc, 7) == gf_mul_rec(a1, b1, c1, 6));
    assert(gf_mul_rec(a1, b1, c1, 6) == gf_mul_rec(a2, b2, c2, 5));
    assert(gf_mul_rec(a2, b2, c2, 5) == gf_mul_rec(a3, b3, c3, 4));
    assert(gf_mul_rec(a3, b3, c3, 4) == gf_mul_rec(a4, b4, c4, 3));
    assert(gf_mul_rec(a4, b4, c4, 3) == gf_mul_rec(a5, b5, c5, 2));
    assert(gf_mul_rec(a5, b5, c5, 2) == gf_mul_rec(a6, b6, c6, 1));
    assert(gf_mul_rec(a6, b6, c6, 1) == gf_mul_rec(a7, b7, c7, 0));
}

/// The product in closed form for one step: the low-bit contribution plus
/// the doubled product with the remaining bits.
pub proof fn lemma_mul_unfold(x: u8, y: u8)
    ensures
        gf_mul_spec(x, y) == (if y & 1 != 0 { x } else { 0 }) ^ gf_mul_spec(gf_double_spec(x), y >> 1),
{
    assert((y >> 1) >> 7 == 0) by (bit_vector);
    assert(0u8 ^ x == x) by (bit_vector);
    lemma_rec_acc_split(gf_double_spec(x), y >> 1, if y & 1 != 0 { x } else { 0 }, 7);
    lemma_rec_seven(gf_double_spec(x), y >> 1, 0);
    assert((if y & 1 != 0 { x } else { 0 }) ^ gf_mul_rec(gf_double_spec(x), y >> 1, 0, 7)
        == (if y & 1 != 0 { x } else { 0 }) ^ gf_mul_spec(gf_double_spec(x), y >> 1));
}

/// One is a left identity of multiplication.
pub proof fn lemma_mul_one_left(b: u8)
    ensures
        gf_mul_spec(1, b) == b,
    decreases b,
{
    if b == 0 {
        lemma_mul_rec_zero_b(1, 0, 8);
    } else {
        lemma_mul_unfold(1, b);
        assert(1u8 & 0x80 == 0 && 1u8 << 1 == 2) by (bit_vector);
        assert(gf_double_spec(1) == 2);
        assert(2u8 == gf_double_spec(1));
        lemma_mul_double_left(1, b >> 1);
        assert(b >> 1 < b) by (bit_vector)
            requires b != 0,
        ;
        lemma_mul_one_left(b >> 1);
        assert((b >> 1) & 0x80 == 0) by (bit_vector);
        assert(gf_double_spec(b >> 1) == (b >> 1) << 1);
        assert((if b & 1 != 0 { 1u8 } else { 0u8 }) ^ ((b >> 1) << 1) == b) by (bit_vector);
    }
}

/// Multiplication commutes.
pub proof fn lemma_mul_comm(a: u8, b: u8)
    ensures
        gf_mul_spec(a, b) == gf_mul_spec(b, a),
    decreases a,
{
    if a == 0 {
        lemma_mul_zero_left(b);
        lemma_mul_zero_right(b);
    } else {
        let ah = a >> 1;
        assert(ah < a && (a & 1) ^ (ah << 1) == a && ah & 0x80 == 0) by (bit_vector)
            requires
                a != 0,
                ah == a >> 1,
        ;
        assert(gf_double_spec(ah) == ah << 1);
        // Split the left operand into its low bit and its doubled rest.
        lemma_mul_distributes_left((a & 1) as u8, (ah << 1) as u8, b);
        assert(gf_mul_spec(a, b) == gf_mul_spec((a & 1) as u8, b) ^ gf_mul_spec((ah << 1) as u8, b));
        if a & 1 != 0 {
            assert(a & 1 == 1) by (bit_vector)
                requires a & 1 != 0,
            ;
            lemma_mul_one_left(b);
        } else {
            lemma_mul_zero_left(b);
        }
        assert(gf_mul_spec((a & 1) as u8, b) == (if a & 1 != 0 { b } else { 0u8 }));
        lemma_mul_double_left(ah, b);
        lemma_mul_comm(ah, b);
        assert(gf_mul_spec((ah << 1) as u8, b) == gf_double_spec(gf_mul_spec(b, ah)));
        // The same split falls out of scanning `a` on the right.
        lemma_mul_unfold(b, a);
        lemma_mul_double_left(b, ah);
        assert(gf_mul_spec(b, a) == (if a & 1 != 0 { b } else { 0u8 }) ^ gf_double_spec(gf_mul_spec(b, ah)));
    }
}

/// Multiplication associates.
pub proof fn lemma_mul_assoc(a: u8, b: u8, c: u8)
    ensures
        gf_mul_spec(gf_mul_spec(a, b), c) == gf_mul_spec(a, gf_mul_spec(b, c)),
    decreases c,
{
    if c == 0 {
        lemma_mul_zero_right(gf_mul_spec(a, b));
        lemma_mul_zero_right(b);
        lemma_mul_zero_right(a);
    } else {
        let ch = c >> 1;
        assert(ch < c) by (bit_vector)
            requires
                c != 0,
                ch == c >> 1,
        ;
        let y = gf_mul_spec(b, ch);
        // Unfold both scans over the low bit of `c`.
        lemma_mul_unfold(gf_mul_spec(a, b), c);
        lemma_mul_unfold(b, c);
        // Left side: double moves from the product onto `a`, the induction
        // hypothesis reassociates, and double moves back out.
        lemma_mul_double_left(a, b);
        assert(gf_double_spec(gf_mul_spec(a, b)) == gf_mul_spec(gf_double_spec(a), b));
        lemma_mul_assoc(gf_double_spec(a), b, ch);
        lemma_mul_double_left(a, y);
        assert(gf_mul_spec(gf_mul_spec(a, b), c)
            == (if c & 1 != 0 { gf_mul_spec(a, b) } else { 0u8 }) ^ gf_double_spec(gf_mul_spec(a, y)));
        // Right side: distribute `a` over the unfolded factor, then move the
        // doubling out of the right operand via commutativity.
        lemma_mul_double_left(b, ch);
        lemma_mul_distributes_right(
            a,
            if c & 1 != 0 { b } else { 0 },
            gf_mul_spec(gf_double_spec(b), ch),
        );
        lemma_mul_comm(a, gf_double_spec(y));
        lemma_mul_double_left(y, a);
        lemma_mul_comm(y, a);
        assert(gf_mul_spec(a, gf_double_spec(y)) == gf_double_spec(gf_mul_spec(a, y)));
        if c & 1 == 0 {
            lemma_mul_zero_right(a);
        }
        assert(gf_mul_spec(a, (if c & 1 != 0 { b } else { 0u8 }))
            == (if c & 1 != 0 { gf_mul_spec(a, b) } else { 0u8 }));
        assert(gf_mul_spec(a, gf_mul_spec(b, c))
            == (if c & 1 != 0 { gf_mul_spec(a, b) } else { 0u8 }) ^ gf_mul_spec(a, gf_double_spec(y)));
    }
}

/// Swapping the two right factors of a double product changes nothing.
pub proof fn lemma_mul_exchange(a: u8, b: u8, c: u8)
    ensures
        gf_mul_spec(gf_mul_spec(a, b), c) == gf_mul_spec(gf_mul_spec(a, c), b),
{
    lemma_mul_assoc(a, b, c);
    lemma_mul_comm(b, c);
    lemma_mul_assoc(a, c, b);
}

/// A right inverse of `b`: the least `c` with `b * c == 1`, if one exists.
pub fn gf_inv(b: u8) -> (r: Option<u8>)
    ensures
        match r {
            Some(c) => gf_mul_spec(b, c) == 1,
            None => forall|c: u8| gf_mul_spec(b, c) != 1,
        },
{
    let mut c: usize = 0;
    while c < 256
        invariant
            c <= 256,
            forall|d: u8| (d as int) < (c as int) ==> gf_mul_spec(b, d) != 1,
        decreases 256 - c,
    {
        let cc = c as u8;
        if gf_mul(b, cc) == 1 {
            return Some(cc);
        }
        c = c + 1;
    }
    None
}

/// The least quotient `q` with `q * b == a`, if one exists. Division by the
/// zero element finds no quotient unless `a` is itself zero.
pub fn gf_div(a: u8, b: u8) -> (r: Option<u8>)
    ensures
        match r {
            Some(q) => gf_mul_spec(q, b) == a,
            None => forall|q: u8| gf_mul_spec(q, b) != a,
        },
{
    let mut q: usize = 0;
    while q < 256
        invariant
            q <= 256,
            forall|d: u8| (d as int) < (q as int) ==> gf_mul_spec(d, b) != a,
        decreases 256 - q,
    {
        let qq = q as u8;
        if gf_mul(qq, b) == a {
            return Some(qq);
        }
        q = q + 1;
    }
    None
}

/// The row `dst` with `coeff` times `src` added into it, position by
/// position: `dst[j] + coeff * src[j]`.
pub open spec fn mul_add_spec(dst: Seq<u8>, src: Seq<u8>, coeff: u8) -> Seq<u8> {
    Seq::new(dst.len(), |j: int| dst[j] ^ gf_mul_spec(coeff, src[j]))
}

/// Multiply-accumulate over a whole row: `dst[j] ^= coeff * src[j]` for every
/// byte position. The single place where rows are combined.
pub fn mul_add_row(dst: &mut Vec<u8>, src: &Vec<u8>, coeff: u8)
    requires
        old(dst).len() == src.len(),
    ensures
        final(dst)@ == mul_add_spec(old(dst)@, src@, coeff),
{
    let len = dst.len();
    let mut j: usize = 0;
    while j < len
        invariant
            len == old(dst).len(),
            dst.len() == len,
            src.len() == len,
            j <= len,
            forall|i: int| 0 <= i < j ==> dst@[i] == old(dst)@[i] ^ gf_mul_spec(coeff, src@[i]),
            forall|i: int| j <= i < len ==> dst@[i] == old(dst)@[i],
        decreases len - j,
    {
        let m = gf_mul(coeff, src[j]);
        let v = dst[j] ^ m;
        dst.set(j, v);
        j = j + 1;
    }
    assert(dst@ =~= mul_add_spec(old(dst)@, src@, coeff));
}

/// A private copy of a byte row.
pub(crate) fn copy_vec(src: &Vec<u8>) -> (r: Vec<u8>)
    ensures
        r@ == src@,
{
    let mut r: Vec<u8> = Vec::new();
    let mut i: usize = 0;
    while i < src.len()
        invariant
            i <= src@.len(),
            r@ == src@.take(i as int),
        decreases src@.len() - i,
    {
        r.push(src[i]);
        proof {
            assert(r@ =~= src@.take(i + 1));
        }
        i = i + 1;
    }
    proof {
        assert(src@.take(src@.len() as int) =~= src@);
    }
    r
}

/// The row scaled by `factor`, position by position.
pub open spec fn scale_spec(row: Seq<u8>, factor: u8) -> Seq<u8> {
    Seq::new(row.len(), |j: int| gf_mul_spec(row[j], factor))
}

/// Scale a whole row in place: `row[j] *= factor` for every byte position.
pub fn scale_row(row: &mut Vec<u8>, factor: u8)
    ensures
        final(row)@ == scale_spec(old(row)@, factor),
{
    let len = row.len();
    let mut j: usize = 0;
    while j < len
        invariant
            len == old(row).len(),
            row.len() == len,
            j <= len,
            forall|i: int| 0 <= i < j ==> row@[i] == gf_mul_spec(old(row)@[i], factor),
            forall|i: int| j <= i < len ==> row@[i] == old(row)@[i],
        decreases len - j,
    {
        let m = gf_mul(row[j], factor);
        row.set(j, m);
        j = j + 1;
    }
    assert(row@ =~= scale_spec(old(row)@, factor));
}

} // verus!
