//! Fixed-size big-endian byte strings: addresses, hashes and EVM words.
use vstd::prelude::*;

verus! {

/// A string of exactly `N` bytes, read as a big-endian unsigned number where arithmetic is done.
#[derive(Clone, Copy, Eq, Debug, Hash)]
pub struct FixedBytes<const N: usize> {
    pub bytes: [u8; N],
}

/// A 20-byte account address.
pub type Address = FixedBytes<20>;

/// A 32-byte hash.
pub type B256 = FixedBytes<32>;

/// A 256-bit EVM word, most significant byte first.
pub type Word = FixedBytes<32>;

/// 256 to the power `k`.
pub open spec fn pow256(k: nat) -> nat
    decreases k,
{
    if k == 0 {
        1
    } else {
        256 * pow256((k - 1) as nat)
    }
}

/// The number that the bytes of `s` from index `i` on spell in base 256.
pub open spec fn tail_value(s: Seq<u8>, i: int) -> nat
    decreases s.len() - i,
{
    if i < 0 || i >= s.len() {
        0
    } else {
        s[i] as nat * pow256((s.len() - 1 - i) as nat) + tail_value(s, i + 1)
    }
}

proof fn lemma_pow256_positive(k: nat)
    ensures
        pow256(k) > 0,
    decreases k,
{
    if k > 0 {
        lemma_pow256_positive((k - 1) as nat);
    }
}

proof fn lemma_pow256_monotone(j: nat, k: nat)
    requires
        j <= k,
    ensures
        pow256(j) <= pow256(k),
    decreases k - j,
{
    if j < k {
        lemma_pow256_monotone(j, (k - 1) as nat);
        lemma_pow256_positive((k - 1) as nat);
    }
}

/// `tail_value` from `i` on reads only the bytes from `i` on.
proof fn lemma_tail_value_frame(s: Seq<u8>, t: Seq<u8>, i: int)
    requires
        0 <= i,
        s.len() == t.len(),
        forall|j: int| i <= j < s.len() ==> s[j] == t[j],
    ensures
        tail_value(s, i) == tail_value(t, i),
    decreases s.len() - i,
{
    if i < s.len() {
        lemma_tail_value_frame(s, t, i + 1);
    }
}

proof fn lemma_tail_value_bound(s: Seq<u8>, i: int)
    requires
        0 <= i <= s.len(),
    ensures
        tail_value(s, i) < pow256((s.len() - i) as nat),
    decreases s.len() - i,
{
    if i < s.len() {
        lemma_tail_value_bound(s, i + 1);
        let p = pow256((s.len() - 1 - i) as nat);
        let d = s[i] as nat;
        assert(d * p + p <= 256 * p) by (nonlinear_arith)
            requires
                d <= 255,
        ;
    }
}

proof fn lemma_tail_value_zero(s: Seq<u8>, i: int)
    requires
        0 <= i <= s.len(),
    ensures
        tail_value(s, i) == 0 <==> forall|j: int| i <= j < s.len() ==> s[j] == 0,
    decreases s.len() - i,
{
    if i < s.len() {
        lemma_tail_value_zero(s, i + 1);
        let p = pow256((s.len() - 1 - i) as nat);
        lemma_pow256_positive((s.len() - 1 - i) as nat);
        let d = s[i] as nat;
        assert(d * p == 0 <==> d == 0) by (nonlinear_arith)
            requires
                p > 0,
        ;
        if tail_value(s, i) == 0 {
            assert forall|j: int| i <= j < s.len() implies s[j] == 0 by {
                if j > i {
                    assert(i + 1 <= j < s.len());
                }
            }
        }
    }
}

/// Two byte strings of one length that spell the same number are the same string.
proof fn lemma_tail_value_injective(s: Seq<u8>, t: Seq<u8>, i: int)
    requires
        0 <= i <= s.len(),
        s.len() == t.len(),
        tail_value(s, i) == tail_value(t, i),
    ensures
        forall|j: int| i <= j < s.len() ==> s[j] == t[j],
    decreases s.len() - i,
{
    if i < s.len() {
        let p = pow256((s.len() - 1 - i) as nat);
        let (a, b) = (s[i] as nat, t[i] as nat);
        let (x, y) = (tail_value(s, i + 1), tail_value(t, i + 1));
        lemma_tail_value_bound(s, i + 1);
        lemma_tail_value_bound(t, i + 1);
        assert(a == b) by (nonlinear_arith)
            requires
                a * p + x == b * p + y,
                x < p,
                y < p,
        ;
        lemma_tail_value_injective(s, t, i + 1);
        assert forall|j: int| i <= j < s.len() implies s[j] == t[j] by {
            if j > i {
                assert(i + 1 <= j < s.len());
            }
        }
    }
}

impl<const N: usize> View for FixedBytes<N> {
    type V = FixedBytes<N>;

    open spec fn view(&self) -> FixedBytes<N> {
        *self
    }
}

impl<const N: usize> PartialEq for FixedBytes<N> {
    fn eq(&self, other: &Self) -> (r: bool) {
        let mut i: usize = 0;
        while i < N
            invariant
                i <= N,
                forall|j: int| 0 <= j < i ==> self.bytes[j] == other.bytes[j],
            decreases N - i,
        {
            if self.bytes[i] != other.bytes[i] {
                return false;
            }
            i += 1;
        }
        assert(self.bytes =~= other.bytes);
        true
    }
}

impl<const N: usize> vstd::std_specs::cmp::PartialEqSpecImpl for FixedBytes<N> {
    open spec fn obeys_eq_spec() -> bool {
        true
    }

    open spec fn eq_spec(&self, other: &Self) -> bool {
        *self == *other
    }
}

impl<const N: usize> FixedBytes<N> {
    /// The number spelled by the bytes, most significant first.
    pub open spec fn value(self) -> nat {
        tail_value(self.bytes@, 0)
    }

    /// The string of `N` zero bytes.
    pub open spec fn spec_zero() -> Self {
        FixedBytes { bytes: [0u8; N] }
    }

    /// The string of `N` zero bytes.
    #[verifier::when_used_as_spec(spec_zero)]
    pub fn zero() -> (r: Self)
        ensures
            r == Self::spec_zero(),
            r.value() == 0,
    {
        let r = FixedBytes { bytes: [0u8; N] };
        proof {
            lemma_tail_value_zero(r.bytes@, 0);
        }
        r
    }

    /// Wraps `bytes`.
    pub fn new(bytes: [u8; N]) -> (r: Self)
        ensures
            r.bytes == bytes,
    {
        FixedBytes { bytes }
    }

    /// The number one past the largest that `N` bytes can spell.
    pub open spec fn modulus() -> nat {
        pow256(N as nat)
    }

    /// Zero bytes but for the last, which is `x`.
    pub open spec fn spec_with_last_byte(self, x: u8) -> bool {
        forall|j: int| 0 <= j < N ==> self.bytes[j] == if j == N - 1 { x } else { 0u8 }
    }

    /// Zero bytes but for the last, which is `x`.
    pub fn with_last_byte(x: u8) -> (r: Self)
        ensures
            forall|b: Self| #[trigger] b.spec_with_last_byte(x) <==> b == r,
            N > 0 ==> r.value() == x,
    {
        let mut bytes = [0u8; N];
        if N > 0 {
            bytes[N - 1] = x;
        }
        let r = FixedBytes { bytes };
        proof {
            if N > 0 {
                lemma_single_digit(r.bytes@, 0);
            }
            assert forall|b: Self| #[trigger] b.spec_with_last_byte(x) <==> b == r by {
                if b.spec_with_last_byte(x) {
                    assert(b.bytes =~= r.bytes);
                }
            }
        }
        r
    }

    /// Whether the bytes spell zero.
    pub fn is_zero(&self) -> (r: bool)
        ensures
            r == (self.value() == 0),
            r == (*self == Self::spec_zero()),
    {
        proof {
            lemma_tail_value_zero(self.bytes@, 0);
            lemma_tail_value_zero(Self::spec_zero().bytes@, 0);
            if self.value() == 0 {
                assert(self.bytes =~= Self::spec_zero().bytes);
            }
        }
        let zero: Self = FixedBytes { bytes: [0u8; N] };
        *self == zero
    }

    /// The difference, byte by byte from the least significant end, and whether it borrowed.
    fn overflowing_sub(&self, other: &Self) -> (r: (Self, bool))
        ensures
            r.1 <==> self.value() < other.value(),
            r.0.value() == self.value() - other.value() + if r.1 { Self::modulus() as int } else { 0 },
    {
        let mut bytes = [0u8; N];
        let mut borrow: bool = false;
        let mut i: usize = N;
        while i > 0
            invariant
                i <= N,
                tail_value(bytes@, i as int) - (if borrow { pow256((N - i) as nat) as int } else { 0 })
                    == tail_value(self.bytes@, i as int) - tail_value(other.bytes@, i as int),
            decreases i,
        {
            let j: usize = i - 1;
            let (x, y): (u8, u8) = (self.bytes[j], other.bytes[j]);
            let wide: u16 = 256 + x as u16 - y as u16 - (if borrow { 1 } else { 0 });
            let ghost before = bytes@;
            let ghost carried = borrow;
            bytes[j] = (wide % 256) as u8;
            borrow = wide < 256;
            proof {
                lemma_tail_value_frame(before, bytes@, i as int);
                let p = pow256((N - i) as nat) as int;
                let d = bytes@[j as int] as int;
                let c = if carried { 1int } else { 0int };
                let b = if borrow { 1int } else { 0int };
                assert(d * p - b * (256 * p) == x * p - y * p - c * p) by (nonlinear_arith)
                    requires
                        d - 256 * b == x - y - c,
                ;
                assert(b * (256 * p) == if borrow { 256 * p } else { 0 });
                assert(c * p == if carried { p } else { 0 });
                assert(pow256((N - j) as nat) == 256 * p);
            }
            i = j;
        }
        let r = FixedBytes { bytes };
        proof {
            lemma_tail_value_bound(bytes@, 0);
            lemma_tail_value_bound(self.bytes@, 0);
            lemma_tail_value_bound(other.bytes@, 0);
        }
        (r, borrow)
    }

    /// The sum modulo 256 to the power `N`, and whether it carried out of the top byte.
    fn overflowing_add(&self, other: &Self) -> (r: (Self, bool))
        ensures
            r.1 <==> self.value() + other.value() >= Self::modulus(),
            r.0.value() == self.value() + other.value() - if r.1 { Self::modulus() as int } else { 0 },
    {
        let mut bytes = [0u8; N];
        let mut carry: bool = false;
        let mut i: usize = N;
        while i > 0
            invariant
                i <= N,
                tail_value(bytes@, i as int) + (if carry { pow256((N - i) as nat) as int } else { 0 })
                    == tail_value(self.bytes@, i as int) + tail_value(other.bytes@, i as int),
            decreases i,
        {
            let j: usize = i - 1;
            let (x, y): (u8, u8) = (self.bytes[j], other.bytes[j]);
            let wide: u16 = x as u16 + y as u16 + (if carry { 1 } else { 0 });
            let ghost before = bytes@;
            let ghost carried = carry;
            bytes[j] = (wide % 256) as u8;
            carry = wide >= 256;
            proof {
                lemma_tail_value_frame(before, bytes@, i as int);
                let p = pow256((N - i) as nat) as int;
                let d = bytes@[j as int] as int;
                let c = if carried { 1int } else { 0int };
                let b = if carry { 1int } else { 0int };
                assert(d * p + b * (256 * p) == x * p + y * p + c * p) by (nonlinear_arith)
                    requires
                        d + 256 * b == x + y + c,
                ;
                assert(b * (256 * p) == if carry { 256 * p } else { 0 });
                assert(c * p == if carried { p } else { 0 });
                assert(pow256((N - j) as nat) == 256 * p);
            }
            i = j;
        }
        let r = FixedBytes { bytes };
        proof {
            lemma_tail_value_bound(bytes@, 0);
            lemma_tail_value_bound(self.bytes@, 0);
            lemma_tail_value_bound(other.bytes@, 0);
        }
        (r, carry)
    }

    /// Whether `self` spells a smaller number than `other`.
    pub fn less_than(&self, other: &Self) -> (r: bool)
        ensures
            r == (self.value() < other.value()),
    {
        let (_, borrowed) = self.overflowing_sub(other);
        borrowed
    }

    /// `self - other`, or `None` when `other` is larger.
    pub fn checked_sub(&self, other: &Self) -> (r: Option<Self>)
        ensures
            r is Some <==> other.value() <= self.value(),
            r matches Some(d) ==> d.value() == self.value() - other.value(),
    {
        let (difference, borrowed) = self.overflowing_sub(other);
        if borrowed {
            None
        } else {
            Some(difference)
        }
    }

    /// The sum modulo 256 to the power `N`.
    pub fn wrapping_add(&self, other: &Self) -> (r: Self)
        ensures
            r.value() == (self.value() + other.value()) % Self::modulus(),
    {
        let (sum, carried) = self.overflowing_add(other);
        proof {
            lemma_tail_value_bound(self.bytes@, 0);
            lemma_tail_value_bound(other.bytes@, 0);
            lemma_tail_value_bound(sum.bytes@, 0);
            let m = Self::modulus() as int;
            let total = self.value() + other.value();
            if carried {
                vstd::arithmetic::div_mod::lemma_fundamental_div_mod_converse(
                    total as int,
                    m,
                    1,
                    sum.value() as int,
                );
            } else {
                vstd::arithmetic::div_mod::lemma_small_mod(total, m as nat);
            }
        }
        sum
    }

    /// The sum, or the largest number that `N` bytes spell where the sum exceeds it.
    pub fn saturating_add(&self, other: &Self) -> (r: Self)
        ensures
            r.value() == if self.value() + other.value() < Self::modulus() {
                self.value() + other.value()
            } else {
                (Self::modulus() - 1) as nat
            },
    {
        let (sum, carried) = self.overflowing_add(other);
        if carried {
            let r = FixedBytes { bytes: [255u8; N] };
            proof {
                lemma_all_ones(r.bytes@, 0);
            }
            r
        } else {
            sum
        }
    }

    /// The string of zero bytes, and no other, spells zero.
    pub proof fn law_zero_value(self)
        ensures
            self.value() == 0 <==> self == Self::spec_zero(),
    {
        lemma_tail_value_zero(Self::spec_zero().bytes@, 0);
        self.law_value_injective(Self::spec_zero());
    }

    /// A string of `N` bytes spells a number below the modulus.
    pub proof fn law_value_bounded(self)
        ensures
            self.value() < Self::modulus(),
    {
        lemma_tail_value_bound(self.bytes@, 0);
    }

    /// Every number below the modulus is spelt by a string of `N` bytes.
    pub proof fn law_value_surjective(n: nat)
        requires
            n < Self::modulus(),
        ensures
            exists|s: Self| #[trigger] s.value() == n,
    {
        let bytes = lemma_spell::<N>(n, 0);
        let s = FixedBytes::<N> { bytes };
        assert(s.value() == n);
    }

    /// Strings of one length that spell the same number are the same string.
    pub proof fn law_value_injective(self, other: Self)
        ensures
            self.value() == other.value() <==> self == other,
    {
        if self.value() == other.value() {
            lemma_tail_value_injective(self.bytes@, other.bytes@, 0);
            assert(self.bytes =~= other.bytes);
        }
    }
}

/// Bytes whose end from position `i` on spells `n`.
proof fn lemma_spell<const N: usize>(n: nat, i: int) -> (r: [u8; N])
    requires
        0 <= i <= N,
        n < pow256((N - i) as nat),
    ensures
        tail_value(r@, i) == n,
    decreases N - i,
{
    if i == N {
        [0u8; N]
    } else {
        let p = pow256((N - 1 - i) as nat);
        lemma_pow256_positive((N - 1 - i) as nat);
        let digit = n / p;
        let rest = n % p;
        assert(digit <= 255 && rest < p && digit * p + rest == n) by (nonlinear_arith)
            requires
                n < 256 * p,
                p > 0,
                digit == n / p,
                rest == n % p,
        ;
        let shorter = lemma_spell::<N>(rest, i + 1);
        let r = vstd::array::spec_array_update(shorter, i, digit as u8);
        assert(r@ =~= shorter@.update(i, digit as u8));
        lemma_tail_value_frame(r@, shorter@, i + 1);
        assert(tail_value(r@, i) == r@[i] as nat * p + tail_value(r@, i + 1));
        r
    }
}

proof fn lemma_single_digit(s: Seq<u8>, i: int)
    requires
        0 <= i < s.len(),
        forall|j: int| i <= j < s.len() - 1 ==> s[j] == 0,
    ensures
        tail_value(s, i) == s.last(),
    decreases s.len() - i,
{
    if i < s.len() - 1 {
        lemma_single_digit(s, i + 1);
        assert(s[i] as nat * pow256((s.len() - 1 - i) as nat) == 0) by (nonlinear_arith)
            requires
                s[i] == 0,
        ;
    } else {
        assert(tail_value(s, i + 1) == 0);
        let (d, p) = (s[i] as nat, pow256(0));
        assert(d * p == d) by (nonlinear_arith)
            requires
                p == 1,
        ;
    }
}

proof fn lemma_all_ones(s: Seq<u8>, i: int)
    requires
        0 <= i <= s.len(),
        forall|j: int| i <= j < s.len() ==> s[j] == 255,
    ensures
        tail_value(s, i) == pow256((s.len() - i) as nat) - 1,
    decreases s.len() - i,
{
    if i < s.len() {
        lemma_all_ones(s, i + 1);
    }
}

impl From<u64> for FixedBytes<32> {
    fn from(x: u64) -> (r: Self) {
        word_from_u64(x)
    }
}

/// The 32-byte string that spells `x`.
pub open spec fn spec_word_from_u64(x: u64) -> Word {
    word_of(x as nat)
}

/// The word that spells `n`, where one does.
pub open spec fn word_of(n: nat) -> Word {
    choose|w: Word| #[trigger] w.value() == n
}

/// A word is the one that spells its number.
pub proof fn law_word_of(w: Word)
    ensures
        word_of(w.value()) == w,
{
    w.law_value_injective(word_of(w.value()));
}

impl vstd::std_specs::convert::FromSpecImpl<u64> for FixedBytes<32> {
    open spec fn obeys_from_spec() -> bool {
        true
    }

    open spec fn from_spec(x: u64) -> Self {
        spec_word_from_u64(x)
    }
}

/// The 32-byte string that spells `x`.
pub fn word_from_u64(x: u64) -> (r: Word)
    ensures
        r == spec_word_from_u64(x),
        r.value() == x,
{
    let mut bytes = [0u8; 32];
    let mut rest: u64 = x;
    let mut i: usize = 32;
    proof {
        let p = pow256(0);
        assert(rest * p == rest) by (nonlinear_arith)
            requires
                p == 1,
        ;
    }
    while i > 0
        invariant
            i <= 32,
            tail_value(bytes@, i as int) + rest * pow256((32 - i) as nat) == x,
        decreases i,
    {
        let j: usize = i - 1;
        let ghost before = bytes@;
        let ghost whole = rest;
        bytes[j] = (rest % 256) as u8;
        rest = rest / 256;
        proof {
            lemma_tail_value_frame(before, bytes@, i as int);
            let p = pow256((32 - i) as nat) as int;
            let d = bytes@[j as int] as int;
            assert(d * p + rest * (256 * p) == whole * p) by (nonlinear_arith)
                requires
                    d + 256 * rest == whole,
            ;
            assert(pow256((32 - j) as nat) == 256 * p);
        }
        i = j;
    }
    let r: Word = FixedBytes { bytes };
    proof {
        assert(pow256(8) == 0x1_0000_0000_0000_0000) by {
            reveal_with_fuel(pow256, 9);
        }
        lemma_pow256_monotone(8, 32);
        let p = pow256(32);
        assert(rest == 0) by (nonlinear_arith)
            requires
                rest * p <= x,
                p >= 0x1_0000_0000_0000_0000,
                x <= 0xffff_ffff_ffff_ffff,
        ;
        spec_word_from_u64(x).law_value_injective(r);
    }
    r
}

} // verus!
