//! Field elements of the machine: scalars modulo the Stark prime, held as 32
//! big-endian bytes.

use vstd::prelude::*;
use cairo_vm::Felt252;

verus! {

/// The modulus of the machine's scalar field, 2^251 + 17 * 2^192 + 1.
pub open spec fn prime() -> nat {
    0x800000000000011000000000000000000000000000000000000000000000001nat
}

/// 256 to the power `k`.
pub open spec fn pow256(k: nat) -> nat
    decreases k,
{
    if k == 0 {
        1
    } else {
        256 * pow256((k - 1) as nat)
    }
}

/// The number that a sequence of bytes spells, most significant byte first.
pub open spec fn be_value(s: Seq<u8>) -> nat
    decreases s.len(),
{
    if s.len() == 0 {
        0
    } else {
        be_value(s.drop_last()) * 256 + s.last() as nat
    }
}

/// A decimal digit as its ASCII byte.
pub open spec fn digit_byte(d: nat) -> u8 {
    (48 + d) as u8
}

/// Whether a byte is an ASCII decimal digit.
pub open spec fn is_digit(b: u8) -> bool {
    48 <= b <= 57
}

/// Whether every byte of `s` is an ASCII decimal digit.
pub open spec fn all_digits(s: Seq<u8>) -> bool {
    forall|i: int| 0 <= i < s.len() ==> is_digit(#[trigger] s[i])
}

/// The number that a sequence of ASCII digits spells in base ten.
pub open spec fn digits_value(s: Seq<u8>) -> nat
    decreases s.len(),
{
    if s.len() == 0 {
        0
    } else {
        digits_value(s.drop_last()) * 10 + (s.last() - 48) as nat
    }
}

/// The shortest decimal spelling of `n`, as ASCII digits.
pub open spec fn decimal(n: nat) -> Seq<u8>
    decreases n,
{
    if n < 10 {
        seq![digit_byte(n)]
    } else {
        decimal(n / 10).push(digit_byte(n % 10))
    }
}

/// The scalar that a decimal token denotes, if it denotes one: a non-empty run
/// of digits, optionally preceded by a minus sign, taken modulo the prime.
pub open spec fn parse_decimal(token: Seq<u8>) -> Option<nat> {
    if token.len() > 0 && token[0] == 45 {
        let digits = token.skip(1);
        if digits.len() > 0 && all_digits(digits) {
            Some(((prime() - digits_value(digits) % prime()) % (prime() as int)) as nat)
        } else {
            None
        }
    } else if token.len() > 0 && all_digits(token) {
        Some(digits_value(token) % prime())
    } else {
        None
    }
}

/// The longest token handed to the decimal parser. Every run of this many
/// digits is below 2^256, the parser's working range.
pub const MAX_TOKEN_LEN: usize = 77;

/// A scalar of the machine: a number below the prime.
#[derive(Clone, Copy, Debug, PartialEq, Eq, Hash)]
pub struct Felt {
    pub(crate) bytes: [u8; 32],
}

impl View for Felt {
    type V = nat;

    closed spec fn view(&self) -> nat {
        be_value(self.bytes@)
    }
}

/// The values of a sequence of scalars.
pub open spec fn felt_values(s: Seq<Felt>) -> Seq<nat> {
    s.map_values(|f: Felt| f@)
}

/// Changing one byte changes the number that the bytes spell by the change
/// of the byte, shifted to its place.
pub proof fn lemma_be_value_update(s: Seq<u8>, k: int, b: u8)
    requires
        0 <= k < s.len(),
    ensures
        be_value(s.update(k, b)) + s[k] as nat * pow256((s.len() - 1 - k) as nat) == be_value(s)
            + b as nat * pow256((s.len() - 1 - k) as nat),
    decreases s.len(),
{
    let t = s.update(k, b);
    if k == s.len() - 1 {
        assert(t.drop_last() =~= s.drop_last());
        assert(pow256(0) == 1);
        assert(s[k] as nat * 1 == s[k] as nat && b as nat * 1 == b as nat);
    } else {
        assert(t.drop_last() =~= s.drop_last().update(k, b));
        lemma_be_value_update(s.drop_last(), k, b);
        let w = pow256((s.len() - 2 - k) as nat);
        assert(pow256((s.len() - 1 - k) as nat) == 256 * w);
        assert(be_value(t.drop_last()) + s[k] as nat * w == be_value(s.drop_last()) + b as nat
            * w);
        assert(be_value(t.drop_last()) * 256 + s[k] as nat * (256 * w) == be_value(s.drop_last())
            * 256 + b as nat * (256 * w)) by (nonlinear_arith)
            requires
                be_value(t.drop_last()) + s[k] as nat * w == be_value(s.drop_last()) + b as nat
                    * w,
        ;
    }
}

/// Eight bytes hold the numbers below 2^64.
proof fn lemma_pow256_8()
    ensures
        pow256(8) == 0x1_0000_0000_0000_0000nat,
{
    reveal_with_fuel(pow256, 9);
}

/// Bytes spell zero exactly when all of them are zero.
pub proof fn lemma_be_value_zero(s: Seq<u8>)
    ensures
        be_value(s) == 0 <==> (forall|i: int| 0 <= i < s.len() ==> s[i] == 0),
    decreases s.len(),
{
    if s.len() > 0 {
        lemma_be_value_zero(s.drop_last());
        if be_value(s) == 0 {
            assert forall|i: int| 0 <= i < s.len() implies s[i] == 0 by {
                if i < s.len() - 1 {
                    assert(s.drop_last()[i] == s[i]);
                }
            }
        }
        if forall|i: int| 0 <= i < s.len() ==> s[i] == 0 {
            assert forall|i: int| 0 <= i < s.drop_last().len() implies s.drop_last()[i] == 0 by {
                assert(s.drop_last()[i] == s[i]);
            }
        }
    }
}

/// Ten to the power `k`.
pub open spec fn pow10(k: nat) -> nat
    decreases k,
{
    if k == 0 {
        1
    } else {
        10 * pow10((k - 1) as nat)
    }
}

/// The decimal spelling of a number is a non-empty run of digits that
/// spells the number.
pub proof fn lemma_decimal_spells(n: nat)
    ensures
        decimal(n).len() >= 1,
        all_digits(decimal(n)),
        digits_value(decimal(n)) == n,
    decreases n,
{
    if n < 10 {
        let d = decimal(n);
        assert(d.drop_last() =~= Seq::<u8>::empty());
        assert(digits_value(d.drop_last()) == 0);
    } else {
        lemma_decimal_spells(n / 10);
        let d = decimal(n);
        assert(d.drop_last() =~= decimal(n / 10));
        assert(d.last() == digit_byte(n % 10));
        assert forall|i: int| 0 <= i < d.len() implies is_digit(#[trigger] d[i]) by {
            if i < d.len() - 1 {
                assert(d[i] == decimal(n / 10)[i]);
            }
        }
    }
}

/// A number below ten to the `k` has at most `k` digits.
pub proof fn lemma_decimal_len(n: nat, k: nat)
    requires
        k >= 1,
        n < pow10(k),
    ensures
        decimal(n).len() <= k,
    decreases k,
{
    if n >= 10 {
        reveal_with_fuel(pow10, 2);
        if k == 1 {
            assert(pow10(1) == 10);
        } else {
            assert(pow10(k) == 10 * pow10((k - 1) as nat));
            lemma_decimal_len(n / 10, (k - 1) as nat);
        }
    }
}

/// The prime has 76 digits.
pub proof fn lemma_prime_below_pow10()
    ensures
        prime() < pow10(76),
{
    reveal_with_fuel(pow10, 20);
    assert(pow10(19) == 10000000000000000000nat);
    assert(pow10(38) == pow10(19) * pow10(19)) by {
        lemma_pow10_add(19, 19);
    }
    assert(pow10(76) == pow10(38) * pow10(38)) by {
        lemma_pow10_add(38, 38);
    }
    assert(pow10(38) == 100000000000000000000000000000000000000nat);
    assert(pow10(76)
        == 10000000000000000000000000000000000000000000000000000000000000000000000000000nat);
}

/// Ten to a sum is the product of the powers.
pub proof fn lemma_pow10_add(a: nat, b: nat)
    ensures
        pow10(a + b) == pow10(a) * pow10(b),
    decreases b,
{
    if b == 0 {
        assert(pow10(a) * 1 == pow10(a));
    } else {
        lemma_pow10_add(a, (b - 1) as nat);
        assert(pow10(a + b) == 10 * pow10((a + b - 1) as nat));
        assert(10 * (pow10(a) * pow10((b - 1) as nat)) == pow10(a) * (10 * pow10((b - 1) as nat)))
            by (nonlinear_arith);
    }
}

/// The decimal spelling of a scalar of the field is a token that denotes
/// that scalar.
pub proof fn lemma_decimal_parses(n: nat)
    requires
        n < prime(),
    ensures
        decimal(n).len() <= MAX_TOKEN_LEN,
        parse_decimal(decimal(n)) == Some(n),
{
    lemma_decimal_spells(n);
    lemma_prime_below_pow10();
    lemma_decimal_len(n, 76);
    assert(is_digit(decimal(n)[0]));
    assert(n % prime() == n) by (nonlinear_arith)
        requires
            n < prime(),
            prime() > 0,
    ;
}

/// The eight most significant bytes of the prime, as a number.
pub const PRIME_TOP: u64 = 0x0800_0000_0000_0011;

/// The number that bytes spell is the number of the leading ones, shifted,
/// plus the number of the others.
pub proof fn lemma_be_value_split(s: Seq<u8>, k: int)
    requires
        0 <= k <= s.len(),
    ensures
        be_value(s) == be_value(s.take(k)) * pow256((s.len() - k) as nat) + be_value(s.skip(k)),
    decreases s.len() - k,
{
    if k == s.len() {
        assert(s.take(k) =~= s);
        assert(s.skip(k) =~= Seq::<u8>::empty());
        assert(be_value(s) * 1 == be_value(s));
    } else {
        lemma_be_value_split(s.drop_last(), k);
        assert(s.drop_last().take(k) =~= s.take(k));
        assert(s.skip(k).drop_last() =~= s.drop_last().skip(k));
        assert(s.skip(k).last() == s.last());
        let w = pow256((s.len() - 1 - k) as nat);
        assert(pow256((s.len() - k) as nat) == 256 * w);
        assert((be_value(s.take(k)) * w + be_value(s.drop_last().skip(k))) * 256 == be_value(
            s.take(k),
        ) * (256 * w) + be_value(s.drop_last().skip(k)) * 256) by (nonlinear_arith);
    }
}

/// The number that bytes spell takes no more room than the bytes.
pub proof fn lemma_be_value_bound(s: Seq<u8>)
    ensures
        be_value(s) < pow256(s.len()),
    decreases s.len(),
{
    if s.len() > 0 {
        lemma_be_value_bound(s.drop_last());
        assert(pow256(s.len()) == 256 * pow256((s.len() - 1) as nat));
    }
}

/// The prime is its eight leading bytes, shifted over 24 bytes, plus one.
proof fn lemma_pow256_24()
    ensures
        pow256(24) == 0x1_0000_0000_0000_0000_0000_0000_0000_0000_0000_0000_0000_0000nat,
        prime() == PRIME_TOP * pow256(24) + 1,
{
    reveal_with_fuel(pow256, 25);
}

/// Whether 32 bytes spell a number below the prime.
fn below_prime(bytes: &[u8; 32]) -> (r: bool)
    ensures
        r == (be_value(bytes@) < prime()),
{
    let mut top: u64 = 0;
    let mut i: usize = 0;
    assert(bytes@.take(0) =~= Seq::<u8>::empty());
    while i < 8
        invariant
            i <= 8,
            top == be_value(bytes@.take(i as int)),
        decreases 8 - i,
    {
        proof {
            lemma_be_value_bound(bytes@.take(i as int));
            lemma_pow256_8();
            reveal_with_fuel(pow256, 9);
            assert(pow256(i as nat) <= pow256(7)) by {
                lemma_pow256_monotone(i as nat, 7);
            }
            assert(bytes@.take(i + 1).drop_last() =~= bytes@.take(i as int));
            assert(bytes@.take(i + 1).last() == bytes@[i as int]);
        }
        top = top * 256 + bytes[i] as u64;
        i = i + 1;
    }
    let mut low_is_zero: bool = true;
    let mut j: usize = 8;
    while j < 32
        invariant
            8 <= j <= 32,
            low_is_zero == (forall|k: int| 8 <= k < j ==> bytes@[k] == 0),
        decreases 32 - j,
    {
        if bytes[j] != 0 {
            low_is_zero = false;
        }
        j = j + 1;
    }
    proof {
        let low = bytes@.skip(8);
        lemma_be_value_split(bytes@, 8);
        lemma_be_value_bound(low);
        lemma_be_value_zero(low);
        lemma_pow256_24();
        assert(low_is_zero == (be_value(low) == 0)) by {
            if low_is_zero {
                assert forall|k: int| 0 <= k < low.len() implies low[k] == 0 by {
                    assert(low[k] == bytes@[k + 8]);
                }
            } else {
                let k = choose|k: int| 8 <= k < 32 && bytes@[k] != 0;
                assert(low[k - 8] == bytes@[k]);
            }
        }
        let w = pow256(24);
        let value = be_value(bytes@);
        assert(value == top * w + be_value(low));
        if top < PRIME_TOP {
            assert(top * w + w <= PRIME_TOP * w) by (nonlinear_arith)
                requires
                    top + 1 <= PRIME_TOP,
                    w > 0,
            ;
        } else if top > PRIME_TOP {
            assert(top * w >= PRIME_TOP * w + w) by (nonlinear_arith)
                requires
                    top >= PRIME_TOP + 1,
                    w > 0,
            ;
        }
    }
    top < PRIME_TOP || (top == PRIME_TOP && low_is_zero)
}

/// A larger power of 256 is no smaller.
proof fn lemma_pow256_monotone(a: nat, b: nat)
    requires
        a <= b,
    ensures
        1 <= pow256(a) <= pow256(b),
    decreases b,
{
    if a < b {
        lemma_pow256_monotone(a, (b - 1) as nat);
    } else if a > 0 {
        lemma_pow256_monotone((a - 1) as nat, (a - 1) as nat);
    }
}

impl Felt {
    /// Every scalar lies below the prime.
    #[verifier::type_invariant]
    spec fn in_field(&self) -> bool {
        be_value(self.bytes@) < prime()
    }

    /// The scalar spelled by 32 bytes, most significant first, if they
    /// spell a number below the prime.
    pub fn from_bytes_be(bytes: [u8; 32]) -> (r: Option<Felt>)
        ensures
            match r {
                Some(f) => f@ == be_value(bytes@) && f@ < prime(),
                None => be_value(bytes@) >= prime(),
            },
    {
        if below_prime(&bytes) {
            Some(Felt { bytes })
        } else {
            None
        }
    }

    /// The 32 bytes of the scalar, most significant first.
    pub fn to_bytes_be(&self) -> (r: [u8; 32])
        ensures
            be_value(r@) == self@,
            self@ < prime(),
    {
        proof {
            use_type_invariant(self);
        }
        self.bytes
    }

    /// The scalar zero.
    pub fn zero() -> (r: Felt)
        ensures
            r@ == 0,
            r@ < prime(),
    {
        let bytes: [u8; 32] = [0u8; 32];
        proof {
            assert(forall|j: int| 0 <= j < 32 ==> bytes@[j] == 0);
            lemma_be_value_zero(bytes@);
        }
        Felt { bytes }
    }

    /// The scalar with the value of a machine word.
    pub fn from_usize(n: usize) -> (r: Felt)
        ensures
            r@ == n,
            r@ < prime(),
    {
        let mut bytes: [u8; 32] = [0u8; 32];
        let mut rest: u64 = n as u64;
        let mut i: usize = 0;
        proof {
            assert(forall|j: int| 0 <= j < 32 ==> bytes@[j] == 0);
            lemma_be_value_zero(bytes@);
            assert(pow256(0) == 1);
        }
        while i < 8
            invariant
                i <= 8,
                forall|j: int| 0 <= j < 32 - i ==> bytes@[j] == 0,
                be_value(bytes@) + rest as nat * pow256(i as nat) == n,
            decreases 8 - i,
        {
            let b: u8 = (rest % 256) as u8;
            proof {
                lemma_be_value_update(bytes@, 31 - i, b);
                assert(pow256((i + 1) as nat) == 256 * pow256(i as nat));
                assert(rest as nat * pow256(i as nat) == b as nat * pow256(i as nat) + (rest
                    / 256) as nat * (256 * pow256(i as nat))) by (nonlinear_arith)
                    requires
                        rest == 256 * (rest / 256) + b,
                ;
            }
            bytes[31 - i] = b;
            rest = rest / 256;
            i = i + 1;
        }
        proof {
            lemma_pow256_8();
            assert(rest == 0) by (nonlinear_arith)
                requires
                    rest as nat * 0x1_0000_0000_0000_0000nat <= n,
                    n < 0x1_0000_0000_0000_0000nat,
            ;
        }
        Felt { bytes }
    }

    /// Whether the scalar is zero.
    pub fn is_zero(&self) -> (r: bool)
        ensures
            r == (self@ == 0),
    {
        let mut i: usize = 0;
        proof {
            lemma_be_value_zero(self.bytes@);
        }
        while i < 32
            invariant
                i <= 32,
                forall|j: int| 0 <= j < i ==> self.bytes@[j] == 0,
                be_value(self.bytes@) == 0 <==> (forall|j: int|
                    0 <= j < self.bytes@.len() ==> self.bytes@[j] == 0),
            decreases 32 - i,
        {
            if self.bytes[i] != 0 {
                return false;
            }
            i = i + 1;
        }
        true
    }

    /// The scalar in decimal.
    pub fn to_dec_string(&self) -> (s: String)
        ensures
            s@ == decimal_text(self@),
    {
        felt_display(self)
    }
}

/// The decimal spelling of a number as text.
pub open spec fn decimal_text(value: nat) -> Seq<char> {
    decimal(value).map_values(|b: u8| b as char)
}

/// Parses a decimal token with `Felt252::from_dec_str`. That parser reads the
/// bytes of its argument: after an optional minus sign every byte must be a
/// digit and there must be at least one, the digits are read in base ten, and
/// the number is reduced modulo the prime (and negated there after a minus
/// sign). It works in 256 bits; the bound on the token's length keeps every
/// run of digits below that. The scalar is taken over as the 32 bytes that
/// `Felt252::to_bytes_be` gives, which spell the reduced number.
#[verifier::external_body]
pub(crate) fn felt_from_dec_bytes(token: &[u8]) -> (r: Option<Felt>)
    requires
        token@.len() <= MAX_TOKEN_LEN,
    ensures
        r matches Some(f) ==> parse_decimal(token@) == Some(f@) && f@ < prime(),
        r is None ==> parse_decimal(token@) is None,
{
    match core::str::from_utf8(token) {
        Ok(text) => match Felt252::from_dec_str(text) {
            Ok(f) => Some(Felt { bytes: f.to_bytes_be() }),
            Err(_) => None,
        },
        Err(_) => None,
    }
}

/// Prints a scalar with the `Display` of `Felt252`, which writes the number
/// in base ten, without padding. The scalar is handed over with
/// `Felt252::from_bytes_be`.
#[verifier::external_body]
pub(crate) fn felt_display(f: &Felt) -> (s: String)
    ensures
        s@ == decimal_text(f@),
{
    format!("{}", Felt252::from_bytes_be(&f.bytes))
}

} // verus!
