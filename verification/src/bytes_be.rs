//! Big-endian byte strings read as natural numbers.
//!
//! Field elements of the BLS12-381 base field travel through this crate as
//! fixed-width big-endian byte strings.  This module gives them their
//! mathematical meaning (`be_nat`), the constants of the base field, and the
//! few exact byte-level operations the verifier needs: comparison, zero
//! test, and subtraction from the field modulus.

use vstd::prelude::*;

verus! {

/// 256 raised to the power `k`: the weight of a byte `k` places from the end.
pub open spec fn pow256(k: nat) -> nat
    decreases k,
{
    if k == 0 {
        1
    } else {
        256 * pow256((k - 1) as nat)
    }
}

/// The natural number that a big-endian byte string denotes.
pub open spec fn be_nat(s: Seq<u8>) -> nat
    decreases s.len(),
{
    if s.len() == 0 {
        0
    } else {
        (s[0] as nat) * pow256((s.len() - 1) as nat) + be_nat(s.skip(1))
    }
}

pub proof fn lemma_pow256_pos(k: nat)
    ensures
        pow256(k) >= 1,
    decreases k,
{
    if k > 0 {
        lemma_pow256_pos((k - 1) as nat);
    }
}

pub proof fn lemma_pow256_mono(i: nat, j: nat)
    requires
        i <= j,
    ensures
        pow256(i) <= pow256(j),
    decreases j,
{
    if i < j {
        lemma_pow256_mono(i, (j - 1) as nat);
        lemma_pow256_pos((j - 1) as nat);
    }
}

/// A byte string of length `n` denotes a number below `pow256(n)`.
pub proof fn lemma_be_nat_bound(s: Seq<u8>)
    ensures
        be_nat(s) < pow256(s.len()),
    decreases s.len(),
{
    if s.len() > 0 {
        lemma_be_nat_bound(s.skip(1));
        let p = pow256((s.len() - 1) as nat);
        lemma_pow256_pos((s.len() - 1) as nat);
        assert((s[0] as nat) * p + p <= 256 * p) by (nonlinear_arith)
            requires
                s[0] < 256,
                p >= 1,
        ;
    }
}

/// A byte string denotes zero exactly when every byte is zero.
pub proof fn lemma_be_nat_zero(s: Seq<u8>)
    ensures
        (be_nat(s) == 0) <==> (forall|i: int| 0 <= i < s.len() ==> s[i] == 0),
    decreases s.len(),
{
    if s.len() > 0 {
        lemma_be_nat_zero(s.skip(1));
        lemma_pow256_pos((s.len() - 1) as nat);
        if be_nat(s) == 0 {
            assert((s[0] as nat) * pow256((s.len() - 1) as nat) == 0);
            assert(s[0] == 0) by (nonlinear_arith)
                requires
                    (s[0] as nat) * pow256((s.len() - 1) as nat) == 0,
                    pow256((s.len() - 1) as nat) >= 1,
            ;
            assert(forall|i: int| 0 <= i < s.len() ==> s[i] == 0) by {
                assert(forall|i: int| 1 <= i < s.len() ==> s[i] == s.skip(1)[i - 1]);
            }
        }
        if forall|i: int| 0 <= i < s.len() ==> s[i] == 0 {
            assert(forall|i: int| 0 <= i < s.skip(1).len() ==> s.skip(1)[i] == s[i + 1]);
            assert(be_nat(s.skip(1)) == 0);
        }
    }
}

/// Reading the head byte off a suffix.
pub proof fn lemma_be_nat_skip_head(s: Seq<u8>, i: int)
    requires
        0 <= i < s.len(),
    ensures
        be_nat(s.skip(i)) == (s[i] as nat) * pow256((s.len() - i - 1) as nat) + be_nat(
            s.skip(i + 1),
        ),
{
    assert(s.skip(i).len() == s.len() - i);
    assert(s.skip(i)[0] == s[i]);
    assert(s.skip(i).skip(1) =~= s.skip(i + 1));
}

/// A byte string splits at any position into prefix and suffix weight.
pub proof fn lemma_be_nat_split(s: Seq<u8>, i: int)
    requires
        0 <= i <= s.len(),
    ensures
        be_nat(s) == be_nat(s.take(i)) * pow256((s.len() - i) as nat) + be_nat(s.skip(i)),
    decreases i,
{
    if i == 0 {
        assert(s.take(0).len() == 0);
        assert(be_nat(s.take(0)) == 0);
        assert(s.skip(0) =~= s);
    } else {
        let n = s.len();
        lemma_be_nat_split(s, i - 1);
        lemma_be_nat_skip_head(s, i - 1);
        let pre = be_nat(s.take(i - 1));
        let b = s[i - 1] as nat;
        let w_pre = pow256((n - (i - 1)) as nat);
        let w = pow256((n - i) as nat);
        assert(w_pre == 256 * w);
        // so far: be_nat(s) == pre * w_pre + (b * w + be_nat(s.skip(i)))
        assert(be_nat(s) == pre * w_pre + b * w + be_nat(s.skip(i)));
        // the longer prefix ends in byte s[i - 1]
        assert(s.take(i).take(i - 1) =~= s.take(i - 1));
        assert(s.take(i).skip(i - 1) =~= seq![s[i - 1]]);
        lemma_be_nat_split(s.take(i), i - 1);
        assert(be_nat(seq![s[i - 1]]) == b) by {
            let single = seq![s[i - 1]];
            assert(single.skip(1) =~= Seq::<u8>::empty());
            assert(be_nat(Seq::<u8>::empty()) == 0);
            assert(pow256(0) == 1);
            assert(be_nat(single) == (s[i - 1] as nat) * pow256(0) + be_nat(single.skip(1)));
            assert((s[i - 1] as nat) * pow256(0) == b) by (nonlinear_arith)
                requires
                    pow256(0) == 1,
                    b == s[i - 1] as nat,
            ;
        }
        assert(pow256(1) == 256);
        assert(be_nat(s.take(i)) == pre * 256 + b);
        assert(be_nat(s.take(i)) * w == pre * (256 * w) + b * w) by (nonlinear_arith)
            requires
                be_nat(s.take(i)) == pre * 256 + b,
        ;
        assert(be_nat(s) == be_nat(s.take(i)) * w + be_nat(s.skip(i)));
    }
}

/// Equal values of equal width mean equal bytes.
pub proof fn lemma_be_nat_inj(a: Seq<u8>, b: Seq<u8>)
    requires
        a.len() == b.len(),
        be_nat(a) == be_nat(b),
    ensures
        a =~= b,
    decreases a.len(),
{
    if a.len() > 0 {
        let p = pow256((a.len() - 1) as nat);
        lemma_be_nat_bound(a.skip(1));
        lemma_be_nat_bound(b.skip(1));
        lemma_pow256_pos((a.len() - 1) as nat);
        assert(a[0] == b[0]) by (nonlinear_arith)
            requires
                (a[0] as nat) * p + be_nat(a.skip(1)) == (b[0] as nat) * p + be_nat(b.skip(1)),
                be_nat(a.skip(1)) < p,
                be_nat(b.skip(1)) < p,
                p >= 1,
        ;
        lemma_be_nat_inj(a.skip(1), b.skip(1));
        assert(forall|i: int| 1 <= i < a.len() ==> a[i] == a.skip(1)[i - 1] && b[i] == b.skip(1)[i
            - 1]);
    }
}

/// Strings that agree up to position `i` order by the byte at `i`.
pub proof fn lemma_be_nat_prefix_lt(a: Seq<u8>, b: Seq<u8>, i: int)
    requires
        a.len() == b.len(),
        0 <= i < a.len(),
        a.take(i) =~= b.take(i),
        a[i] < b[i],
    ensures
        be_nat(a) < be_nat(b),
{
    let n = a.len();
    lemma_be_nat_split(a, i);
    lemma_be_nat_split(b, i);
    lemma_be_nat_skip_head(a, i);
    lemma_be_nat_skip_head(b, i);
    let w = pow256((n - i - 1) as nat);
    lemma_be_nat_bound(a.skip(i + 1));
    lemma_pow256_pos((n - i - 1) as nat);
    assert((a[i] as nat) * w + be_nat(a.skip(i + 1)) < (b[i] as nat) * w) by (nonlinear_arith)
        requires
            a[i] < b[i],
            be_nat(a.skip(i + 1)) < w,
            w >= 1,
    ;
}

/// Leading zero bytes do not change the denoted value.
pub proof fn lemma_be_nat_drop_zeros(s: Seq<u8>, i: int)
    requires
        0 <= i <= s.len(),
        forall|j: int| 0 <= j < i ==> s[j] == 0,
    ensures
        be_nat(s) == be_nat(s.skip(i)),
{
    lemma_be_nat_split(s, i);
    lemma_be_nat_zero(s.take(i));
    assert(forall|j: int| 0 <= j < i ==> s.take(i)[j] == s[j]);
    assert(be_nat(s.take(i)) == 0);
}

/// The BLS12-381 base-field prime, as 48 big-endian bytes.
pub open spec fn modulus_seq() -> Seq<u8> {
    seq![
        0x1au8, 0x01, 0x11, 0xea, 0x39, 0x7f, 0xe6, 0x9a, 0x4b, 0x1b, 0xa7, 0xb6, 0x43, 0x4b,
        0xac, 0xd7, 0x64, 0x77, 0x4b, 0x84, 0xf3, 0x85, 0x12, 0xbf, 0x67, 0x30, 0xd2, 0xa0,
        0xf6, 0xb0, 0xf6, 0x24, 0x1e, 0xab, 0xff, 0xfe, 0xb1, 0x53, 0xff, 0xff, 0xb9, 0xfe,
        0xff, 0xff, 0xff, 0xff, 0xaa, 0xab,
    ]
}

/// The base-field prime as a natural number.
pub open spec fn p_nat() -> nat {
    be_nat(modulus_seq())
}

/// `(p - 1) / 2`, as 48 big-endian bytes: the threshold above which a
/// y-coordinate counts as the lexicographically larger of the two roots.
pub open spec fn half_seq() -> Seq<u8> {
    seq![
        0x0du8, 0x00, 0x88, 0xf5, 0x1c, 0xbf, 0xf3, 0x4d, 0x25, 0x8d, 0xd3, 0xdb, 0x21, 0xa5,
        0xd6, 0x6b, 0xb2, 0x3b, 0xa5, 0xc2, 0x79, 0xc2, 0x89, 0x5f, 0xb3, 0x98, 0x69, 0x50,
        0x7b, 0x58, 0x7b, 0x12, 0x0f, 0x55, 0xff, 0xff, 0x58, 0xa9, 0xff, 0xff, 0xdc, 0xff,
        0x7f, 0xff, 0xff, 0xff, 0xd5, 0x55,
    ]
}

pub open spec fn half_nat() -> nat {
    be_nat(half_seq())
}

/// Whether a y-coordinate is the lexicographically larger of `y` and `p - y`.
pub open spec fn y_is_larger_root(y: nat) -> bool {
    y > half_nat()
}

/// The modulus, as runnable bytes.
pub fn modulus_bytes() -> (r: Vec<u8>)
    ensures
        r@ =~= modulus_seq(),
{
    let r: Vec<u8> = vec![
        0x1au8, 0x01, 0x11, 0xea, 0x39, 0x7f, 0xe6, 0x9a, 0x4b, 0x1b, 0xa7, 0xb6, 0x43, 0x4b,
        0xac, 0xd7, 0x64, 0x77, 0x4b, 0x84, 0xf3, 0x85, 0x12, 0xbf, 0x67, 0x30, 0xd2, 0xa0,
        0xf6, 0xb0, 0xf6, 0x24, 0x1e, 0xab, 0xff, 0xfe, 0xb1, 0x53, 0xff, 0xff, 0xb9, 0xfe,
        0xff, 0xff, 0xff, 0xff, 0xaa, 0xab,
    ];
    r
}

/// `(p - 1) / 2`, as runnable bytes.
pub fn half_modulus_bytes() -> (r: Vec<u8>)
    ensures
        r@ =~= half_seq(),
{
    let r: Vec<u8> = vec![
        0x0du8, 0x00, 0x88, 0xf5, 0x1c, 0xbf, 0xf3, 0x4d, 0x25, 0x8d, 0xd3, 0xdb, 0x21, 0xa5,
        0xd6, 0x6b, 0xb2, 0x3b, 0xa5, 0xc2, 0x79, 0xc2, 0x89, 0x5f, 0xb3, 0x98, 0x69, 0x50,
        0x7b, 0x58, 0x7b, 0x12, 0x0f, 0x55, 0xff, 0xff, 0x58, 0xa9, 0xff, 0xff, 0xdc, 0xff,
        0x7f, 0xff, 0xff, 0xff, 0xd5, 0x55,
    ];
    r
}

/// A fresh copy of a byte string.
pub fn clone_bytes(a: &Vec<u8>) -> (r: Vec<u8>)
    ensures
        r@ =~= a@,
{
    let n = a.len();
    let mut r: Vec<u8> = Vec::new();
    let mut i: usize = 0;
    while i < n
        invariant
            0 <= i <= n,
            n == a@.len(),
            r@ =~= a@.take(i as int),
        decreases n - i,
    {
        r.push(a[i]);
        proof {
            assert(r@ =~= a@.take(i + 1));
        }
        i = i + 1;
    }
    proof {
        assert(a@.take(n as int) =~= a@);
    }
    r
}

/// A fresh copy of the bytes in positions `from..to`.
pub fn copy_range(a: &Vec<u8>, from: usize, to: usize) -> (r: Vec<u8>)
    requires
        from <= to <= a@.len(),
    ensures
        r@ =~= a@.subrange(from as int, to as int),
{
    let mut r: Vec<u8> = Vec::new();
    let mut i: usize = from;
    while i < to
        invariant
            from <= i <= to <= a@.len(),
            r@ =~= a@.subrange(from as int, i as int),
        decreases to - i,
    {
        r.push(a[i]);
        proof {
            assert(r@ =~= a@.subrange(from as int, i + 1));
        }
        i = i + 1;
    }
    r
}

/// Strict comparison of equal-width big-endian strings.
pub fn be_lt(a: &Vec<u8>, b: &Vec<u8>) -> (r: bool)
    requires
        a@.len() == b@.len(),
    ensures
        r == (be_nat(a@) < be_nat(b@)),
{
    let n = a.len();
    let mut i: usize = 0;
    while i < n
        invariant
            0 <= i <= n,
            n == a@.len(),
            n == b@.len(),
            a@.take(i as int) =~= b@.take(i as int),
        decreases n - i,
    {
        if a[i] < b[i] {
            proof {
                lemma_be_nat_prefix_lt(a@, b@, i as int);
            }
            return true;
        }
        if a[i] > b[i] {
            proof {
                lemma_be_nat_prefix_lt(b@, a@, i as int);
            }
            return false;
        }
        proof {
            assert(a@.take(i + 1) =~= b@.take(i + 1));
        }
        i = i + 1;
    }
    proof {
        assert(a@.take(n as int) =~= a@);
        assert(b@.take(n as int) =~= b@);
        assert(a@ =~= b@);
    }
    false
}

/// Equality of byte strings.
pub fn be_eq(a: &Vec<u8>, b: &Vec<u8>) -> (r: bool)
    ensures
        r == (a@ =~= b@),
{
    if a.len() != b.len() {
        return false;
    }
    let n = a.len();
    let mut i: usize = 0;
    while i < n
        invariant
            0 <= i <= n,
            n == a@.len(),
            n == b@.len(),
            forall|j: int| 0 <= j < i ==> a@[j] == b@[j],
        decreases n - i,
    {
        if a[i] != b[i] {
            return false;
        }
        i = i + 1;
    }
    true
}

/// Whether every byte is zero, that is, whether the string denotes zero.
pub fn be_is_zero(a: &Vec<u8>) -> (r: bool)
    ensures
        r == (be_nat(a@) == 0),
{
    let n = a.len();
    let mut i: usize = 0;
    while i < n
        invariant
            0 <= i <= n,
            n == a@.len(),
            forall|j: int| 0 <= j < i ==> a@[j] == 0,
        decreases n - i,
    {
        if a[i] != 0 {
            proof {
                lemma_be_nat_zero(a@);
            }
            return false;
        }
        i = i + 1;
    }
    proof {
        lemma_be_nat_zero(a@);
    }
    true
}

/// The same value without its leading zero bytes.
pub fn strip_leading_zeros(a: &Vec<u8>) -> (r: Vec<u8>)
    ensures
        r@.len() <= a@.len(),
        be_nat(r@) == be_nat(a@),
        r@.len() > 0 ==> r@[0] != 0,
{
    let n = a.len();
    let mut j: usize = 0;
    while j < n && a[j] == 0
        invariant
            0 <= j <= n,
            n == a@.len(),
            forall|i: int| 0 <= i < j ==> a@[i] == 0,
        decreases n - j,
    {
        j = j + 1;
    }
    let r = copy_range(a, j, n);
    proof {
        lemma_be_nat_drop_zeros(a@, j as int);
        assert(r@ =~= a@.skip(j as int));
    }
    r
}

/// A short string denotes a small number; a stripped long one a large one.
pub proof fn lemma_stripped_bound(s: Seq<u8>, k: nat)
    requires
        s.len() > 0 ==> s[0] != 0,
    ensures
        s.len() <= k ==> be_nat(s) < pow256(k),
        s.len() > k ==> be_nat(s) >= pow256(k),
{
    lemma_be_nat_bound(s);
    if s.len() <= k {
        lemma_pow256_mono(s.len(), k);
    } else {
        lemma_be_nat_skip_head(s, 0);
        lemma_pow256_mono(k, (s.len() - 1) as nat);
        lemma_pow256_pos((s.len() - 1) as nat);
        assert((s[0] as nat) * pow256((s.len() - 1) as nat) >= pow256((s.len() - 1) as nat))
            by (nonlinear_arith)
            requires
                s[0] >= 1,
                pow256((s.len() - 1) as nat) >= 1,
        ;
    }
}

/// The number a string of decimal digits denotes.
pub open spec fn decimal_val(s: Seq<char>) -> nat
    decreases s.len(),
{
    if s.len() == 0 {
        0
    } else {
        decimal_val(s.drop_last()) * 10 + (((s.last() as int) - 48) as nat)
    }
}

/// Whether every character is a decimal digit.
pub open spec fn all_digits(s: Seq<char>) -> bool {
    forall|i: int| 0 <= i < s.len() ==> 48 <= (#[trigger] s[i]) as int <= 57
}

/// A longer prefix of a digit string denotes no smaller a number.
pub proof fn lemma_decimal_prefix_le(s: Seq<char>, i: int)
    requires
        all_digits(s),
        0 <= i <= s.len(),
    ensures
        decimal_val(s.take(i)) <= decimal_val(s),
    decreases s.len() - i,
{
    if i == s.len() {
        assert(s.take(i) =~= s);
    } else {
        lemma_decimal_prefix_le(s, i + 1);
        assert(s.take(i + 1).drop_last() =~= s.take(i));
        assert(s.take(i + 1).last() == s[i]);
        let v = decimal_val(s.take(i));
        assert(v <= 10 * v) by (nonlinear_arith);
        assert(decimal_val(s.take(i + 1)) == v * 10 + (((s[i] as int) - 48) as nat));
    }
}

/// `10 * a + d`, byte by byte with carries.
fn mul10_plus(a: &Vec<u8>, d: u8) -> (r: Vec<u8>)
    requires
        a@.len() == 48,
        d < 10,
        10 * be_nat(a@) + d < pow256(48),
    ensures
        r@.len() == 48,
        be_nat(r@) == 10 * be_nat(a@) + d,
{
    let mut r: Vec<u8> = vec![0u8; 48];
    let mut carry: u32 = d as u32;
    let mut i: usize = 48;
    proof {
        assert(a@.skip(48) =~= Seq::<u8>::empty());
        assert(r@.skip(48) =~= Seq::<u8>::empty());
        assert(be_nat(Seq::<u8>::empty()) == 0);
        assert(pow256(0) == 1);
        assert((d as nat) * pow256(0) == d) by (nonlinear_arith)
            requires
                pow256(0) == 1,
        ;
    }
    while i > 0
        invariant
            0 <= i <= 48,
            a@.len() == 48,
            r@.len() == 48,
            carry <= 10,
            10 * be_nat(a@.skip(i as int)) + d == be_nat(r@.skip(i as int)) + (carry as nat)
                * pow256((48 - i) as nat),
        decreases i,
    {
        i = i - 1;
        let t: u32 = (a[i] as u32) * 10 + carry;
        let ghost old_r = r@;
        let ghost old_carry = carry as nat;
        r.set(i, (t % 256) as u8);
        carry = t / 256;
        proof {
            assert(r@.skip(i + 1) =~= old_r.skip(i + 1));
            lemma_be_nat_skip_head(r@, i as int);
            lemma_be_nat_skip_head(a@, i as int);
            let w = pow256((48 - i - 1) as nat);
            assert(pow256((48 - i) as nat) == 256 * w);
            let an = a@[i as int] as int;
            let rn = r@[i as int] as int;
            let cn = carry as int;
            assert(rn + 256 * cn == an * 10 + old_carry);
            assert((an * 10 + old_carry - 256 * cn) * w == an * 10 * w + old_carry * w - cn * (256
                * w)) by (nonlinear_arith);
            assert(10 * (an * w) == (an * 10) * w) by (nonlinear_arith);
        }
    }
    proof {
        assert(r@.skip(0) =~= r@);
        assert(a@.skip(0) =~= a@);
        if carry > 0 {
            lemma_pow256_pos(48);
            assert((carry as nat) * pow256(48) >= pow256(48)) by (nonlinear_arith)
                requires
                    carry >= 1,
                    pow256(48) >= 1,
            ;
            assert(false);
        }
    }
    r
}

/// Parse a decimal string into a base-field element, as 48 big-endian
/// bytes.  The string must consist of decimal digits and denote a number
/// below the field modulus.
pub fn parse_biguint_to_fq(value: &str) -> (r: Vec<u8>)
    requires
        all_digits(value@),
        decimal_val(value@) < p_nat(),
    ensures
        r@.len() == 48,
        be_nat(r@) == decimal_val(value@),
{
    proof {
        assert(vstd::string::is_ascii(value)) by {
            assert(forall|i: int|
                0 <= i < value@.len() ==> (#[trigger] value@[i]) as int <= 127);
        }
        vstd::string::is_ascii_spec_bytes(value);
        lemma_be_nat_bound(modulus_seq());
    }
    let bytes = vstd::slice::slice_to_vec(value.as_bytes());
    let n = bytes.len();
    let mut acc: Vec<u8> = vec![0u8; 48];
    proof {
        lemma_be_nat_zero(acc@);
        assert(value@.take(0).len() == 0);
    }
    let mut i: usize = 0;
    while i < n
        invariant
            0 <= i <= n,
            n == bytes@.len(),
            n == value@.len(),
            all_digits(value@),
            decimal_val(value@) < p_nat(),
            p_nat() < pow256(48),
            forall|k: int| 0 <= k < n ==> bytes@[k] == (#[trigger] value@[k]) as u8,
            acc@.len() == 48,
            be_nat(acc@) == decimal_val(value@.take(i as int)),
        decreases n - i,
    {
        let b = bytes[i];
        proof {
            lemma_decimal_prefix_le(value@, i + 1);
            assert(value@.take(i + 1).drop_last() =~= value@.take(i as int));
            assert(value@.take(i + 1).last() == value@[i as int]);
            assert(decimal_val(value@.take(i + 1)) == decimal_val(value@.take(i as int)) * 10 + ((
            value@[i as int] as int) - 48));
        }
        acc = mul10_plus(&acc, b - 48);
        i = i + 1;
    }
    proof {
        assert(value@.take(n as int) =~= value@);
    }
    acc
}

/// `p - y` for a nonzero field element `y`, byte by byte with borrows.
pub fn sub_from_modulus(y: &Vec<u8>) -> (r: Vec<u8>)
    requires
        y@.len() == 48,
        0 < be_nat(y@) < p_nat(),
    ensures
        r@.len() == 48,
        be_nat(r@) == p_nat() - be_nat(y@),
        0 < be_nat(r@) < p_nat(),
{
    let m = modulus_bytes();
    let mut r: Vec<u8> = vec![0u8; 48];
    let mut borrow: bool = false;
    let mut i: usize = 48;
    while i > 0
        invariant
            0 <= i <= 48,
            m@ =~= modulus_seq(),
            y@.len() == 48,
            r@.len() == 48,
            be_nat(r@.skip(i as int)) + be_nat(y@.skip(i as int)) == be_nat(
                m@.skip(i as int),
            ) + (if borrow {
                pow256((48 - i) as nat)
            } else {
                0
            }),
        decreases i,
    {
        i = i - 1;
        let mi = m[i] as i32;
        let yi = y[i] as i32;
        let bi: i32 = if borrow {
            1
        } else {
            0
        };
        let mut d: i32 = mi - yi - bi;
        let nb: bool = d < 0;
        if nb {
            d = d + 256;
        }
        let ghost old_r = r@;
        r.set(i, d as u8);
        proof {
            assert(r@.skip(i + 1) =~= old_r.skip(i + 1));
            lemma_be_nat_skip_head(r@, i as int);
            lemma_be_nat_skip_head(y@, i as int);
            lemma_be_nat_skip_head(m@, i as int);
            let w = pow256((48 - i - 1) as nat);
            assert(pow256((48 - i) as nat) == 256 * w);
            let rn = r@[i as int] as int;
            let mn = m@[i as int] as int;
            let yn = y@[i as int] as int;
            let bn: int = if borrow {
                1
            } else {
                0
            };
            let nbn: int = if nb {
                1
            } else {
                0
            };
            assert(rn == mn - yn - bn + nbn * 256);
            assert(rn * w == mn * w - yn * w - bn * w + nbn * (256 * w)) by (nonlinear_arith)
                requires
                    rn == mn - yn - bn + nbn * 256,
            ;
        }
        borrow = nb;
    }
    proof {
        assert(r@.skip(0) =~= r@);
        assert(y@.skip(0) =~= y@);
        assert(m@.skip(0) =~= m@);
        if borrow {
            lemma_be_nat_bound(r@);
            assert(false);
        }
    }
    r
}

} // verus!
