//! Field elements of the prime field used by the proof system, held as a
//! fixed-width big-endian byte array whose value is reduced modulo the prime.

use vstd::arithmetic::div_mod::{
    lemma_div_denominator, lemma_fundamental_div_mod, lemma_fundamental_div_mod_converse,
    lemma_multiply_divide_lt,
};
use vstd::arithmetic::mul::lemma_mul_inequality;
use vstd::prelude::*;

verus! {

/// The prime modulus of the field: 2^251 + 17 * 2^192 + 1.
pub open spec fn stark_prime() -> nat {
    0x800000000000011000000000000000000000000000000000000000000000001nat
}

/// 256 raised to the power `n`.
pub open spec fn pow256(n: nat) -> nat
    decreases n,
{
    if n == 0 {
        1
    } else {
        256 * pow256((n - 1) as nat)
    }
}

/// The unsigned integer denoted by a byte sequence read in big-endian order.
pub open spec fn be_val(s: Seq<u8>) -> nat
    decreases s.len(),
{
    if s.len() == 0 {
        0
    } else {
        be_val(s.drop_last()) * 256 + s.last() as nat
    }
}

pub proof fn lemma_be_val_push(s: Seq<u8>, b: u8)
    ensures
        be_val(s.push(b)) == be_val(s) * 256 + b,
{
    assert(s.push(b).drop_last() =~= s);
}

pub proof fn lemma_be_val_bound(s: Seq<u8>)
    ensures
        be_val(s) < pow256(s.len()),
    decreases s.len(),
{
    if s.len() > 0 {
        lemma_be_val_bound(s.drop_last());
        lemma_mul_inequality(
            be_val(s.drop_last()) as int,
            pow256((s.len() - 1) as nat) as int - 1,
            256,
        );
    }
}

/// A leading zero byte does not change the value a sequence denotes.
pub proof fn lemma_be_val_leading_zero(s: Seq<u8>)
    requires
        s.len() > 0,
        s[0] == 0,
    ensures
        be_val(s) == be_val(s.drop_first()),
    decreases s.len(),
{
    if s.len() == 1 {
        assert(s.drop_last() =~= Seq::<u8>::empty());
        assert(s.drop_first() =~= Seq::<u8>::empty());
    } else {
        lemma_be_val_leading_zero(s.drop_last());
        assert(s.drop_last().drop_first() =~= s.drop_first().drop_last());
        assert(s.last() == s.drop_first().last());
    }
}

/// Leading zero bytes do not change the value a sequence denotes.
pub proof fn lemma_be_val_skip_zeros(s: Seq<u8>, k: int)
    requires
        0 <= k <= s.len(),
        forall|j: int| 0 <= j < k ==> s[j] == 0,
    ensures
        be_val(s) == be_val(s.skip(k)),
    decreases k,
{
    if k == 0 {
        assert(s.skip(0) =~= s);
    } else {
        lemma_be_val_leading_zero(s);
        lemma_be_val_skip_zeros(s.drop_first(), k - 1);
        assert(s.drop_first().skip(k - 1) =~= s.skip(k));
    }
}

pub proof fn lemma_pow256_mono(a: nat, b: nat)
    requires
        a <= b,
    ensures
        pow256(a) <= pow256(b),
    decreases b,
{
    if a < b {
        lemma_pow256_mono(a, (b - 1) as nat);
        assert(pow256(b) == 256 * pow256((b - 1) as nat));
    }
}

/// The value denoted by a sequence splits at any position into a high and a
/// low part.
pub proof fn lemma_be_val_split(s: Seq<u8>, k: int)
    requires
        0 <= k <= s.len(),
    ensures
        be_val(s) == be_val(s.take(k)) * pow256((s.len() - k) as nat) + be_val(s.skip(k)),
    decreases s.len() - k,
{
    if k == s.len() {
        assert(s.take(k) =~= s);
        assert(s.skip(k) =~= Seq::<u8>::empty());
        assert(pow256((s.len() - k) as nat) == 1);
        assert(be_val(s.take(k)) * 1 == be_val(s.take(k))) by (nonlinear_arith);
        assert(be_val(s) == be_val(s.take(k)) * pow256((s.len() - k) as nat) + be_val(s.skip(k)));
    } else {
        let d = s.drop_last();
        lemma_be_val_split(d, k);
        assert(d.take(k) =~= s.take(k));
        assert(d.skip(k) =~= s.skip(k).drop_last());
        assert(s.skip(k).last() == s.last());
        let t = be_val(s.take(k));
        let x = be_val(d.skip(k));
        let p = pow256((s.len() - 1 - k) as nat);
        assert(pow256((s.len() - k) as nat) == 256 * p);
        assert(be_val(s) == (t * p + x) * 256 + s.last());
        assert((t * p + x) * 256 == t * (256 * p) + x * 256) by (nonlinear_arith);
        assert(be_val(s.skip(k)) == x * 256 + s.last());
        assert(t * pow256((s.len() - k) as nat) == t * (256 * p));
        assert(be_val(s) == t * pow256((s.len() - k) as nat) + be_val(s.skip(k)));
    }
}

/// Two equal-length sequences denoting the same value are identical: the
/// fixed-width big-endian form of a value is unique, so results of equal
/// value render and serialize byte for byte the same.
pub proof fn lemma_be_val_injective(a: Seq<u8>, b: Seq<u8>)
    requires
        a.len() == b.len(),
        be_val(a) == be_val(b),
    ensures
        a == b,
    decreases a.len(),
{
    if a.len() == 0 {
        assert(a =~= b);
    } else {
        lemma_fundamental_div_mod_converse(
            be_val(a) as int,
            256,
            be_val(a.drop_last()) as int,
            a.last() as int,
        );
        lemma_fundamental_div_mod_converse(
            be_val(b) as int,
            256,
            be_val(b.drop_last()) as int,
            b.last() as int,
        );
        lemma_be_val_injective(a.drop_last(), b.drop_last());
        assert forall|i: int| 0 <= i < a.len() implies a[i] == b[i] by {
            if i < a.len() - 1 {
                assert(a[i] == a.drop_last()[i]);
                assert(b[i] == b.drop_last()[i]);
            } else {
                assert(a[i] == a.last());
                assert(b[i] == b.last());
            }
        }
        assert(a =~= b);
    }
}

/// Of two equal-length sequences, the one that is smaller at the first
/// differing position denotes the smaller value.
pub proof fn lemma_be_val_lex(a: Seq<u8>, b: Seq<u8>, i: int)
    requires
        a.len() == b.len(),
        0 <= i < a.len(),
        forall|j: int| 0 <= j < i ==> a[j] == b[j],
        a[i] < b[i],
    ensures
        be_val(a) < be_val(b),
{
    let n = a.len() as int;
    let p = pow256((n - i - 1) as nat);
    lemma_be_val_split(a, i + 1);
    lemma_be_val_split(b, i + 1);
    assert(a.take(i + 1) =~= a.take(i).push(a[i]));
    assert(b.take(i + 1) =~= b.take(i).push(b[i]));
    lemma_be_val_push(a.take(i), a[i]);
    lemma_be_val_push(b.take(i), b[i]);
    assert(a.take(i) =~= b.take(i));
    let va = be_val(a.take(i + 1));
    let vb = be_val(b.take(i + 1));
    lemma_be_val_bound(a.skip(i + 1));
    lemma_mul_inequality(va as int + 1, vb as int, p as int);
    assert((va + 1) * p == va * p + p) by (nonlinear_arith);
}

/// An element of the field, as 32 big-endian bytes holding a value smaller
/// than the prime.
#[derive(Debug)]
pub struct Felt {
    bytes: Vec<u8>,
}

impl View for Felt {
    type V = nat;

    closed spec fn view(&self) -> nat {
        be_val(self.bytes@)
    }
}

impl DeepView for Felt {
    type V = nat;

    open spec fn deep_view(&self) -> nat {
        self.view()
    }
}

impl Felt {
    /// The representation is exactly 32 bytes and canonical: its value is
    /// reduced modulo the prime.
    pub closed spec fn wf(&self) -> bool {
        self.bytes@.len() == 32 && be_val(self.bytes@) < stark_prime()
    }

    /// The field element with the value of `x`.
    pub fn from_u64(x: u64) -> (r: Felt)
        ensures
            r.wf(),
            r@ == x as nat,
    {
        let mut bytes: Vec<u8> = Vec::new();
        let mut i: usize = 0;
        while i < 24
            invariant
                i <= 24,
                bytes@.len() == i,
                forall|j: int| 0 <= j < i ==> bytes@[j] == 0,
                be_val(bytes@) == 0,
            decreases 24 - i,
        {
            proof {
                lemma_be_val_push(bytes@, 0);
            }
            bytes.push(0u8);
            i = i + 1;
        }
        proof {
            lemma_multiply_divide_lt(x as int, 0x100000000000000, 256);
        }
        proof {
            lemma_be_val_push(bytes@, ((x / 0x100000000000000) % 256) as u8);
        }
        bytes.push(((x / 0x100000000000000) % 256) as u8);
        proof {
            lemma_div_denominator(x as int, 0x1000000000000, 256);
            lemma_fundamental_div_mod((x / 0x1000000000000) as int, 256);
            lemma_be_val_push(bytes@, ((x / 0x1000000000000) % 256) as u8);
        }
        bytes.push(((x / 0x1000000000000) % 256) as u8);
        proof {
            lemma_div_denominator(x as int, 0x10000000000, 256);
            lemma_fundamental_div_mod((x / 0x10000000000) as int, 256);
            lemma_be_val_push(bytes@, ((x / 0x10000000000) % 256) as u8);
        }
        bytes.push(((x / 0x10000000000) % 256) as u8);
        proof {
            lemma_div_denominator(x as int, 0x100000000, 256);
            lemma_fundamental_div_mod((x / 0x100000000) as int, 256);
            lemma_be_val_push(bytes@, ((x / 0x100000000) % 256) as u8);
        }
        bytes.push(((x / 0x100000000) % 256) as u8);
        proof {
            lemma_div_denominator(x as int, 0x1000000, 256);
            lemma_fundamental_div_mod((x / 0x1000000) as int, 256);
            lemma_be_val_push(bytes@, ((x / 0x1000000) % 256) as u8);
        }
        bytes.push(((x / 0x1000000) % 256) as u8);
        proof {
            lemma_div_denominator(x as int, 0x10000, 256);
            lemma_fundamental_div_mod((x / 0x10000) as int, 256);
            lemma_be_val_push(bytes@, ((x / 0x10000) % 256) as u8);
        }
        bytes.push(((x / 0x10000) % 256) as u8);
        proof {
            lemma_div_denominator(x as int, 0x100, 256);
            lemma_fundamental_div_mod((x / 0x100) as int, 256);
            lemma_be_val_push(bytes@, ((x / 0x100) % 256) as u8);
        }
        bytes.push(((x / 0x100) % 256) as u8);
        proof {
            lemma_fundamental_div_mod(x as int, 256);
            lemma_be_val_push(bytes@, (x % 256) as u8);
        }
        bytes.push((x % 256) as u8);
        Felt { bytes }
    }

    /// The field element with the value of `x`.
    pub fn from_usize(x: usize) -> (r: Felt)
        ensures
            r.wf(),
            r@ == x as nat,
    {
        Felt::from_u64(x as u64)
    }

    /// The element read from at most 31 big-endian bytes; short inputs stand
    /// for the same value with leading zeros. Every such value fits below the
    /// prime.
    pub fn from_be_digits(digits: &Vec<u8>) -> (r: Felt)
        requires
            digits@.len() <= 31,
        ensures
            r.wf(),
            r@ == be_val(digits@),
    {
        let pad = 32 - digits.len();
        let mut bytes: Vec<u8> = Vec::new();
        let mut i: usize = 0;
        while i < pad
            invariant
                i <= pad,
                bytes@.len() == i,
                forall|j: int| 0 <= j < i ==> bytes@[j] == 0,
            decreases pad - i,
        {
            bytes.push(0u8);
            i = i + 1;
        }
        let mut k: usize = 0;
        while k < digits.len()
            invariant
                k <= digits@.len(),
                digits@.len() <= 31,
                bytes@.len() == pad + k,
                pad == 32 - digits@.len(),
                forall|j: int| 0 <= j < pad ==> bytes@[j] == 0,
                bytes@.skip(pad as int) =~= digits@.take(k as int),
            decreases digits@.len() - k,
        {
            let b = digits[k];
            bytes.push(b);
            proof {
                assert(bytes@.skip(pad as int) =~= digits@.take(k + 1));
            }
            k = k + 1;
        }
        proof {
            assert(digits@.take(digits@.len() as int) =~= digits@);
            lemma_be_val_skip_zeros(bytes@, pad as int);
            lemma_be_val_bound(digits@);
            lemma_pow256_mono(digits@.len(), 31);
            assert(pow256(31) == 0x100000000000000000000000000000000000000000000000000000000000000)
                by {
                reveal_with_fuel(pow256, 32);
            }
        }
        Felt { bytes }
    }

    /// The element read from 32 big-endian bytes; `None` if the bytes are not
    /// the canonical form of a field element, that is, not 32 of them or a
    /// value at or above the prime.
    pub fn from_bytes_be(bytes: &Vec<u8>) -> (r: Option<Felt>)
        ensures
            r is Some <==> (bytes@.len() == 32 && be_val(bytes@) < stark_prime()),
            (r matches Some(f) ==> f.wf() && f@ == be_val(bytes@)),
    {
        if bytes.len() != 32 {
            return None;
        }
        let p = prime_bytes();
        if be_bytes_lt(bytes, &p) {
            Some(Felt { bytes: clone_bytes(bytes) })
        } else {
            None
        }
    }

    /// The canonical 32-byte big-endian form of the element.
    pub fn to_bytes_be(&self) -> (r: Vec<u8>)
        requires
            self.wf(),
        ensures
            r@.len() == 32,
            be_val(r@) == self@,
    {
        clone_bytes(&self.bytes)
    }

    /// The value as lowercase hexadecimal with a `0x` prefix and no padding.
    pub fn to_hex(&self) -> (r: String)
        requires
            self.wf(),
        ensures
            r@ == seq!['0', 'x'] + hex_of(self@),
    {
        let mut r = String::new();
        string_push(&mut r, '0');
        string_push(&mut r, 'x');
        let mut i: usize = 0;
        while i < 32 && *vec_u8_index(&self.bytes, i) == 0
            invariant
                self.wf(),
                i <= 32,
                forall|j: int| 0 <= j < i ==> self.bytes@[j] == 0,
                r@ == seq!['0', 'x'],
            decreases 32 - i,
        {
            i = i + 1;
        }
        proof {
            lemma_be_val_skip_zeros(self.bytes@, i as int);
        }
        if i == 32 {
            proof {
                assert(self.bytes@.skip(32) =~= Seq::<u8>::empty());
            }
            string_push(&mut r, '0');
            return r;
        }
        let ghost start = i as int;
        let b = *vec_u8_index(&self.bytes, i);
        proof {
            assert(self.bytes@.subrange(start, start + 1) =~= seq![b]);
            assert(seq![b].drop_last() =~= Seq::<u8>::empty());
            assert(be_val(Seq::<u8>::empty()) == 0);
            assert(be_val(seq![b]) == b);
        }
        if b >= 16 {
            string_push(&mut r, hex_char(b / 16));
            string_push(&mut r, hex_char(b % 16));
            proof {
                assert(hex_of((b / 16) as nat) == seq![hex_digit((b / 16) as nat)]);
                assert(r@ =~= seq!['0', 'x'] + hex_of(b as nat));
            }
        } else {
            string_push(&mut r, hex_char(b));
            proof {
                assert(hex_of(b as nat) == seq![hex_digit(b as nat)]);
                assert(r@ =~= seq!['0', 'x'] + hex_of(b as nat));
            }
        }
        i = i + 1;
        while i < 32
            invariant
                self.wf(),
                0 <= start < i <= 32,
                self.bytes@[start] != 0,
                be_val(self.bytes@.subrange(start, i as int)) >= 1,
                r@ == seq!['0', 'x'] + hex_of(be_val(self.bytes@.subrange(start, i as int))),
            decreases 32 - i,
        {
            let b = *vec_u8_index(&self.bytes, i);
            let ghost prefix = self.bytes@.subrange(start, i as int);
            proof {
                assert(self.bytes@.subrange(start, i + 1) =~= prefix.push(b));
                lemma_be_val_push(prefix, b);
                lemma_hex_of_byte(be_val(prefix), b);
                assert(be_val(prefix) * 256 + b >= 256) by (nonlinear_arith)
                    requires
                        be_val(prefix) >= 1,
                        b >= 0,
                ;
            }
            string_push(&mut r, hex_char(b / 16));
            string_push(&mut r, hex_char(b % 16));
            proof {
                assert(r@ =~= seq!['0', 'x'] + hex_of(be_val(prefix)).push(
                    hex_digit((b / 16) as nat),
                ).push(hex_digit((b % 16) as nat)));
            }
            i = i + 1;
        }
        proof {
            assert(self.bytes@.subrange(start, 32) =~= self.bytes@.skip(start));
        }
        r
    }
}

impl Clone for Felt {
    /// The clone denotes the same value as the original.
    fn clone(&self) -> (res: Felt)
        ensures
            res@ == self@,
            res.wf() == self.wf(),
    {
        Felt { bytes: clone_bytes(&self.bytes) }
    }
}

/// A copy of a byte vector, equal element for element.
pub(crate) fn clone_bytes(v: &Vec<u8>) -> (r: Vec<u8>)
    ensures
        r@ == v@,
{
    let r = v.clone();
    proof {
        assert(r@ =~= v@);
    }
    r
}

/// A borrow of the byte at index `i`.
fn vec_u8_index(v: &Vec<u8>, i: usize) -> (r: &u8)
    requires
        i < v@.len(),
    ensures
        *r == v@[i as int],
{
    &v[i]
}

/// The 32 big-endian bytes of the prime modulus.
fn prime_bytes() -> (r: Vec<u8>)
    ensures
        r@.len() == 32,
        be_val(r@) == stark_prime(),
{
    let mut v: Vec<u8> = Vec::new();
    proof {
        lemma_be_val_push(v@, 8);
    }
    v.push(8u8);
    let mut i: usize = 0;
    while i < 6
        invariant
            i <= 6,
            v@.len() == 1 + i,
            be_val(v@) == 8 * pow256(i as nat),
        decreases 6 - i,
    {
        proof {
            lemma_be_val_push(v@, 0);
            assert((8 * pow256(i as nat)) * 256 == 8 * (256 * pow256(i as nat)))
                by (nonlinear_arith);
        }
        v.push(0u8);
        i = i + 1;
    }
    proof {
        assert(pow256(6) == 0x1000000000000) by {
            reveal_with_fuel(pow256, 7);
        }
        lemma_be_val_push(v@, 0x11);
    }
    v.push(0x11u8);
    let mut j: usize = 0;
    while j < 23
        invariant
            j <= 23,
            v@.len() == 8 + j,
            be_val(v@) == 0x800000000000011 * pow256(j as nat),
        decreases 23 - j,
    {
        proof {
            lemma_be_val_push(v@, 0);
            assert((0x800000000000011 * pow256(j as nat)) * 256 == 0x800000000000011 * (256
                * pow256(j as nat))) by (nonlinear_arith);
        }
        v.push(0u8);
        j = j + 1;
    }
    proof {
        assert(pow256(23) == 0x10000000000000000000000000000000000000000000000) by {
            reveal_with_fuel(pow256, 24);
        }
        lemma_be_val_push(v@, 1);
    }
    v.push(1u8);
    v
}

/// True exactly when `a` denotes a smaller value than `b`, for equal lengths.
fn be_bytes_lt(a: &Vec<u8>, b: &Vec<u8>) -> (r: bool)
    requires
        a@.len() == b@.len(),
    ensures
        r <==> be_val(a@) < be_val(b@),
{
    let n = a.len();
    let mut i: usize = 0;
    while i < n
        invariant
            i <= n,
            n == a@.len(),
            n == b@.len(),
            forall|j: int| 0 <= j < i ==> a@[j] == b@[j],
        decreases n - i,
    {
        let x = *vec_u8_index(a, i);
        let y = *vec_u8_index(b, i);
        if x < y {
            proof {
                lemma_be_val_lex(a@, b@, i as int);
            }
            return true;
        }
        if x > y {
            proof {
                lemma_be_val_lex(b@, a@, i as int);
            }
            return false;
        }
        i = i + 1;
    }
    proof {
        assert(a@ =~= b@);
    }
    false
}

/// The lowercase hexadecimal digit for `d`, for `d` below 16.
pub open spec fn hex_digit(d: nat) -> char {
    if d == 0 {
        '0'
    } else if d == 1 {
        '1'
    } else if d == 2 {
        '2'
    } else if d == 3 {
        '3'
    } else if d == 4 {
        '4'
    } else if d == 5 {
        '5'
    } else if d == 6 {
        '6'
    } else if d == 7 {
        '7'
    } else if d == 8 {
        '8'
    } else if d == 9 {
        '9'
    } else if d == 10 {
        'a'
    } else if d == 11 {
        'b'
    } else if d == 12 {
        'c'
    } else if d == 13 {
        'd'
    } else if d == 14 {
        'e'
    } else {
        'f'
    }
}

/// The lowercase hexadecimal digits of `n`, most significant first, with no
/// leading zeros; zero itself is the single digit `0`.
pub open spec fn hex_of(n: nat) -> Seq<char>
    decreases n,
{
    if n < 16 {
        seq![hex_digit(n)]
    } else {
        hex_of(n / 16).push(hex_digit(n % 16))
    }
}

/// Appending one byte to a positive value appends exactly two hexadecimal
/// digits.
pub proof fn lemma_hex_of_byte(v: nat, b: u8)
    requires
        v >= 1,
    ensures
        hex_of(v * 256 + b as nat) == hex_of(v).push(hex_digit((b / 16) as nat)).push(
            hex_digit((b % 16) as nat),
        ),
{
    let m: int = v * 256 + b;
    let q: int = v * 16 + b as int / 16;
    assert(v * 256 + b >= 256 && v * 16 + b as int / 16 >= 16) by (nonlinear_arith)
        requires
            v >= 1,
            b >= 0,
    ;
    assert(v * 256 + b == (v * 16 + b as int / 16) * 16 + (b as int % 16)) by (nonlinear_arith)
        requires
            0 <= b < 256,
    ;
    lemma_fundamental_div_mod_converse(m, 16, q, b as int % 16);
    lemma_fundamental_div_mod_converse(q, 16, v as int, b as int / 16);
    assert(m / 16 == q && m % 16 == b as int % 16);
    assert(q / 16 == v && q % 16 == b as int / 16);
    let n: nat = v * 256 + b as nat;
    assert(hex_of(n) == hex_of((n / 16) as nat).push(hex_digit((n % 16) as nat)));
    assert(hex_of(q as nat) == hex_of(v).push(hex_digit((b / 16) as nat)));
}

/// The executable form of [`hex_digit`].
fn hex_char(d: u8) -> (c: char)
    requires
        d < 16,
    ensures
        c == hex_digit(d as nat),
{
    if d == 0 {
        '0'
    } else if d == 1 {
        '1'
    } else if d == 2 {
        '2'
    } else if d == 3 {
        '3'
    } else if d == 4 {
        '4'
    } else if d == 5 {
        '5'
    } else if d == 6 {
        '6'
    } else if d == 7 {
        '7'
    } else if d == 8 {
        '8'
    } else if d == 9 {
        '9'
    } else if d == 10 {
        'a'
    } else if d == 11 {
        'b'
    } else if d == 12 {
        'c'
    } else if d == 13 {
        'd'
    } else if d == 14 {
        'e'
    } else {
        'f'
    }
}

/// Relies on `String::push` of std: it appends the given character to the
/// end of the string.
#[verifier::external_body]
fn string_push(s: &mut String, c: char)
    ensures
        final(s)@ == old(s)@.push(c),
{
    s.push(c);
}

} // verus!
