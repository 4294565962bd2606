//! Residues modulo the core size, and the arithmetic on them.

use std::ops::Range;
use vstd::arithmetic::div_mod::*;
use vstd::arithmetic::mul::*;
use vstd::prelude::*;
use vstd::std_specs::ops::{AddSpec, SubSpec};

verus! {

/// The residue of `dividend` modulo `divisor`, in `[0, divisor)`.
pub fn modulo(dividend: i128, divisor: usize) -> (r: usize)
    requires
        divisor > 0,
    ensures
        r == dividend as int % divisor as int,
{
    let m: u128 = divisor as u128;
    if dividend >= 0 {
        let d: u128 = dividend as u128;
        (d % m) as usize
    } else {
        // dividend = -(below + 1) with below >= 0, so no negation overflows
        let below: u128 = (-(dividend + 1)) as u128;
        let k: u128 = below % m;
        proof {
            lemma_mod_below(dividend as int, below as int, m as int);
        }
        (m - 1 - k) as usize
    }
}

/// For a negative `v = -(below + 1)`, the residue of `v` counts down from `m - 1`.
proof fn lemma_mod_below(v: int, below: int, m: int)
    requires
        m > 0,
        below >= 0,
        v == -(below + 1),
    ensures
        v % m == m - 1 - below % m,
{
    let q = below / m;
    let k = below % m;
    lemma_fundamental_div_mod(below, m);
    // v = -(m * q + k + 1) = m * (-q - 1) + (m - 1 - k)
    assert(v == (-q - 1) * m + (m - 1 - k)) by {
        lemma_mul_is_distributive_add(m, -q, -1);
        lemma_mul_unary_negation(m, q);
        lemma_mul_is_commutative(m, -q - 1);
    }
    lemma_fundamental_div_mod_converse(v, m, -q - 1, m - 1 - k);
}

/// The product of two machine words fits in 128 bits.
proof fn lemma_word_product(a: int, b: int)
    requires
        0 <= a <= u64::MAX,
        0 <= b <= u64::MAX,
    ensures
        0 <= a * b <= u128::MAX,
{
    lemma_mul_nonnegative(a, b);
    lemma_mul_upper_bound(a, u64::MAX as int, b, u64::MAX as int);
}

/// The product of a machine word and a signed machine word fits in 128 signed bits.
proof fn lemma_signed_word_product(a: int, b: int)
    requires
        0 <= a <= u64::MAX,
        i64::MIN <= b <= i64::MAX,
    ensures
        i128::MIN <= a * b <= i128::MAX,
{
    if b >= 0 {
        lemma_mul_nonnegative(a, b);
        lemma_mul_upper_bound(a, u64::MAX as int, b, i64::MAX as int);
    } else {
        lemma_mul_nonnegative(a, -b);
        lemma_mul_upper_bound(a, u64::MAX as int, -b, -(i64::MIN as int));
        lemma_mul_unary_negation(a, b);
    }
}

/// The size of a signed machine word: `|x|`, which always fits in an unsigned one.
fn magnitude(x: isize) -> (r: usize)
    ensures
        r == if x < 0 {
            -(x as int)
        } else {
            x as int
        },
{
    if x < 0 {
        (-(x + 1)) as usize + 1
    } else {
        x as usize
    }
}

/// The character that writes the decimal digit `d`.
pub open spec fn digit_char(d: int) -> char {
    if d == 0 {
        '0'
    } else if d == 1 {
        '1'
    } else if d == 2 {
        '2'
    } else if d == 3 {
        '3'
    } else if d == 4 {
        '4'
    } else if d == 5 {
        '5'
    } else if d == 6 {
        '6'
    } else if d == 7 {
        '7'
    } else if d == 8 {
        '8'
    } else {
        '9'
    }
}

/// The decimal digits of a natural number, the highest first and without
/// leading zeros; zero is written `0`.
pub open spec fn digits_text(n: nat) -> Seq<char>
    decreases n,
{
    if n < 10 {
        seq![digit_char(n as int)]
    } else {
        digits_text(n / 10).push(digit_char((n % 10) as int))
    }
}

/// The decimal text of an integer: a minus sign for a negative number, then
/// the digits of its size.
pub open spec fn decimal_text(v: int) -> Seq<char> {
    if v < 0 {
        seq!['-'] + digits_text((-v) as nat)
    } else {
        digits_text(v as nat)
    }
}

/// The character that writes the decimal digit `d`.
fn digit(d: u128) -> (c: char)
    requires
        d < 10,
    ensures
        c == digit_char(d as int),
{
    if d == 0 {
        '0'
    } else if d == 1 {
        '1'
    } else if d == 2 {
        '2'
    } else if d == 3 {
        '3'
    } else if d == 4 {
        '4'
    } else if d == 5 {
        '5'
    } else if d == 6 {
        '6'
    } else if d == 7 {
        '7'
    } else if d == 8 {
        '8'
    } else {
        '9'
    }
}

/// Writes the decimal digits of `n` behind what `out` holds.
fn push_digits(out: &mut String, n: u128)
    ensures
        final(out)@ == old(out)@ + digits_text(n as nat),
    decreases n,
{
    if n >= 10 {
        push_digits(out, n / 10);
    }
    out.push(digit(n % 10));
    proof {
        if n >= 10 {
            assert(final(out)@ =~= old(out)@ + digits_text((n / 10) as nat).push(
                digit_char((n % 10) as int),
            ));
        } else {
            assert(final(out)@ =~= old(out)@ + seq![digit_char(n as int)]);
        }
    }
}

/// The decimal text of `v`.
pub(crate) fn format_decimal(v: i128) -> (r: String)
    ensures
        r@ == decimal_text(v as int),
{
    let mut r = String::new();
    if v < 0 {
        r.push('-');
        // v = -(below + 1) with below >= 0, so no negation overflows
        let size: u128 = (-(v + 1)) as u128 + 1;
        push_digits(&mut r, size);
        assert(r@ =~= seq!['-'] + digits_text((-v) as nat));
    } else {
        push_digits(&mut r, v as u128);
        assert(r@ =~= digits_text(v as nat));
    }
    r
}

/// Draws a number with `rand::Rng::gen_range` on the thread-local generator.
/// The source shows that the draw lies in `[low, high)` whatever the generator's
/// state, and that an empty range panics, which `requires` leaves out.
#[verifier::external_body]
pub(crate) fn gen_range(low: usize, high: usize) -> (r: usize)
    requires
        low < high,
    ensures
        low <= r < high,
{
    rand::Rng::gen_range(&mut rand::thread_rng(), low..high)
}

/// Picks one of `items` with `rand::seq::SliceRandom::choose` on the
/// thread-local generator. The source shows that the pick is an element of
/// the slice, and `None` for an empty slice only, which `requires` leaves out.
#[verifier::external_body]
pub(crate) fn pick<T: Copy>(items: &[T]) -> (r: T)
    requires
        items@.len() > 0,
    ensures
        items@.contains(r),
{
    *rand::seq::SliceRandom::choose(items, &mut rand::thread_rng()).unwrap()
}

/// `after` is `before` with one slot rewritten: the slot held `picked` and
/// now holds `left`.
pub open spec fn one_slot_rewritten<T>(before: Seq<T>, picked: T, after: Seq<T>, left: T) -> bool {
    exists|i: int| 0 <= i < before.len() && picked == before[i] && after == before.update(i, left)
}

/// Picks one of `items`, to be written, with
/// `rand::seq::SliceRandom::choose_mut` on the thread-local generator. The
/// source shows that the pick is a slot of the slice, and `None` for an empty
/// slice only, which `requires` leaves out: afterwards the items differ from
/// those before in that one slot, which holds what the caller left there.
#[verifier::external_body]
pub(crate) fn pick_mut<T>(items: &mut Vec<T>) -> (r: &mut T)
    requires
        old(items)@.len() > 0,
    ensures
        old(items)@.contains(*r),
        one_slot_rewritten(old(items)@, *r, final(items)@, *final(r)),
{
    rand::seq::SliceRandom::choose_mut(items.as_mut_slice(), &mut rand::thread_rng()).unwrap()
}

/// Draws a machine word with `rand::random`: any word may come.
#[verifier::external_body]
pub(crate) fn random_word() -> (r: usize) {
    rand::random::<usize>()
}

/// An address or a cell value of the core: a residue modulo the core size.
#[derive(Clone, Copy, Debug, PartialEq, Eq, Structural)]
pub struct ModUsize {
    /// The representative, kept in `[0, congruence)`.
    pub val: usize,
    /// The modulus: the size of the core that the value lives in.
    pub congruence: usize,
}

impl ModUsize {
    /// The invariant of every value inside the engine: the modulus is positive
    /// and the representative is reduced.
    pub open spec fn wf(&self) -> bool {
        self.val < self.congruence
    }

    /// The residue of the integer `v` modulo `m`.
    pub open spec fn residue(v: int, m: usize) -> ModUsize {
        ModUsize { val: (v % m as int) as usize, congruence: m }
    }

    /// The value moved `by` cells forward round the core, backward for a negative `by`.
    pub open spec fn moved(self, by: int) -> ModUsize {
        Self::residue(self.val + by, self.congruence)
    }

    /// The signed representative nearest to zero: values above half the modulus
    /// stand for negative numbers.
    pub open spec fn centered_spec(&self) -> int {
        if self.val > self.congruence / 2 {
            self.val - self.congruence
        } else {
            self.val as int
        }
    }

    /// The residue of `val` modulo `core_size`.
    pub fn new(val: isize, core_size: usize) -> (r: ModUsize)
        requires
            core_size > 0,
        ensures
            r == Self::residue(val as int, core_size),
            r.wf(),
    {
        ModUsize { val: modulo(val as i128, core_size), congruence: core_size }
    }

    /// The value moved `x` cells forward (backward for a negative `x`) round the core.
    pub fn inc(&self, x: isize) -> (r: ModUsize)
        requires
            self.wf(),
        ensures
            r == self.moved(x as int),
            r.wf(),
    {
        ModUsize {
            val: modulo(self.val as i128 + x as i128, self.congruence),
            congruence: self.congruence,
        }
    }

    /// Moves the value `rhs` cells forward, in place.
    pub fn add_assign(&mut self, rhs: isize)
        requires
            old(self).wf(),
        ensures
            *final(self) == old(self).moved(rhs as int),
            final(self).wf(),
    {
        self.val = modulo(self.val as i128 + rhs as i128, self.congruence);
    }

    /// Moves the value `rhs` cells backward, in place.
    pub fn sub_assign(&mut self, rhs: isize)
        requires
            old(self).wf(),
        ensures
            *final(self) == old(self).moved(-(rhs as int)),
            final(self).wf(),
    {
        self.val = modulo(self.val as i128 - rhs as i128, self.congruence);
    }

    /// A random value modulo `congruence` whose representative is drawn from `range`.
    pub(crate) fn rand(congruence: usize, range: Range<usize>) -> (r: ModUsize)
        requires
            range.start < range.end,
        ensures
            range.start <= r.val < range.end,
            r.congruence == congruence,
    {
        ModUsize { val: gen_range(range.start, range.end), congruence }
    }

    /// The signed representative nearest to zero.
    pub fn centered(&self) -> (r: isize)
        requires
            self.wf(),
        ensures
            r == self.centered_spec(),
    {
        if self.val > self.congruence / 2 {
            let below: usize = self.congruence - self.val;
            -(below as isize)
        } else {
            self.val as isize
        }
    }

    /// The display form: the signed representative nearest to zero, in decimal.
    pub fn to_string(&self) -> (r: String)
        requires
            self.wf(),
        ensures
            r@ == decimal_text(self.centered_spec()),
    {
        format_decimal(self.centered() as i128)
    }
}

impl vstd::std_specs::ops::AddSpecImpl for ModUsize {
    open spec fn obeys_add_spec() -> bool {
        true
    }

    open spec fn add_req(self, rhs: ModUsize) -> bool {
        self.wf() && rhs.wf() && self.congruence == rhs.congruence
    }

    open spec fn add_spec(self, rhs: ModUsize) -> ModUsize {
        Self::residue(self.val + rhs.val, self.congruence)
    }
}

impl std::ops::Add for ModUsize {
    type Output = ModUsize;

    fn add(self, rhs: ModUsize) -> ModUsize {
        ModUsize {
            val: modulo(self.val as i128 + rhs.val as i128, self.congruence),
            congruence: self.congruence,
        }
    }
}

impl vstd::std_specs::ops::AddSpecImpl<usize> for ModUsize {
    open spec fn obeys_add_spec() -> bool {
        true
    }

    open spec fn add_req(self, rhs: usize) -> bool {
        self.wf()
    }

    open spec fn add_spec(self, rhs: usize) -> ModUsize {
        Self::residue(self.val + rhs, self.congruence)
    }
}

impl std::ops::Add<usize> for ModUsize {
    type Output = ModUsize;

    fn add(self, rhs: usize) -> ModUsize {
        ModUsize {
            val: modulo(self.val as i128 + rhs as i128, self.congruence),
            congruence: self.congruence,
        }
    }
}

impl vstd::std_specs::ops::AddSpecImpl<isize> for ModUsize {
    open spec fn obeys_add_spec() -> bool {
        true
    }

    open spec fn add_req(self, rhs: isize) -> bool {
        self.wf()
    }

    open spec fn add_spec(self, rhs: isize) -> ModUsize {
        Self::residue(self.val + rhs, self.congruence)
    }
}

impl std::ops::Add<isize> for ModUsize {
    type Output = ModUsize;

    fn add(self, rhs: isize) -> ModUsize {
        ModUsize {
            val: modulo(self.val as i128 + rhs as i128, self.congruence),
            congruence: self.congruence,
        }
    }
}

impl vstd::std_specs::ops::SubSpecImpl for ModUsize {
    open spec fn obeys_sub_spec() -> bool {
        true
    }

    open spec fn sub_req(self, rhs: ModUsize) -> bool {
        self.wf() && rhs.wf() && self.congruence == rhs.congruence
    }

    open spec fn sub_spec(self, rhs: ModUsize) -> ModUsize {
        Self::residue(self.val - rhs.val, self.congruence)
    }
}

impl std::ops::Sub for ModUsize {
    type Output = ModUsize;

    fn sub(self, rhs: ModUsize) -> ModUsize {
        ModUsize {
            val: modulo(self.val as i128 - rhs.val as i128, self.congruence),
            congruence: self.congruence,
        }
    }
}

impl vstd::std_specs::ops::SubSpecImpl<usize> for ModUsize {
    open spec fn obeys_sub_spec() -> bool {
        true
    }

    open spec fn sub_req(self, rhs: usize) -> bool {
        self.wf()
    }

    open spec fn sub_spec(self, rhs: usize) -> ModUsize {
        Self::residue(self.val - rhs, self.congruence)
    }
}

impl std::ops::Sub<usize> for ModUsize {
    type Output = ModUsize;

    fn sub(self, rhs: usize) -> ModUsize {
        ModUsize {
            val: modulo(self.val as i128 - rhs as i128, self.congruence),
            congruence: self.congruence,
        }
    }
}

impl vstd::std_specs::ops::SubSpecImpl<isize> for ModUsize {
    open spec fn obeys_sub_spec() -> bool {
        true
    }

    open spec fn sub_req(self, rhs: isize) -> bool {
        self.wf()
    }

    open spec fn sub_spec(self, rhs: isize) -> ModUsize {
        Self::residue(self.val - rhs, self.congruence)
    }
}

impl std::ops::Sub<isize> for ModUsize {
    type Output = ModUsize;

    fn sub(self, rhs: isize) -> ModUsize {
        ModUsize {
            val: modulo(self.val as i128 - rhs as i128, self.congruence),
            congruence: self.congruence,
        }
    }
}

impl vstd::std_specs::ops::MulSpecImpl for ModUsize {
    open spec fn obeys_mul_spec() -> bool {
        true
    }

    open spec fn mul_req(self, rhs: ModUsize) -> bool {
        self.wf() && rhs.wf() && self.congruence == rhs.congruence
    }

    open spec fn mul_spec(self, rhs: ModUsize) -> ModUsize {
        Self::residue(self.val * rhs.val, self.congruence)
    }
}

impl std::ops::Mul for ModUsize {
    type Output = ModUsize;

    fn mul(self, rhs: ModUsize) -> ModUsize {
        proof {
            lemma_word_product(self.val as int, rhs.val as int);
        }
        let product: u128 = self.val as u128 * rhs.val as u128;
        ModUsize { val: (product % self.congruence as u128) as usize, congruence: self.congruence }
    }
}

impl vstd::std_specs::ops::MulSpecImpl<usize> for ModUsize {
    open spec fn obeys_mul_spec() -> bool {
        true
    }

    open spec fn mul_req(self, rhs: usize) -> bool {
        self.wf()
    }

    open spec fn mul_spec(self, rhs: usize) -> ModUsize {
        Self::residue(self.val * rhs, self.congruence)
    }
}

impl std::ops::Mul<usize> for ModUsize {
    type Output = ModUsize;

    fn mul(self, rhs: usize) -> ModUsize {
        proof {
            lemma_word_product(self.val as int, rhs as int);
        }
        let product: u128 = self.val as u128 * rhs as u128;
        ModUsize { val: (product % self.congruence as u128) as usize, congruence: self.congruence }
    }
}

impl vstd::std_specs::ops::MulSpecImpl<isize> for ModUsize {
    open spec fn obeys_mul_spec() -> bool {
        true
    }

    open spec fn mul_req(self, rhs: isize) -> bool {
        self.wf()
    }

    open spec fn mul_spec(self, rhs: isize) -> ModUsize {
        Self::residue(self.val * rhs, self.congruence)
    }
}

impl std::ops::Mul<isize> for ModUsize {
    type Output = ModUsize;

    fn mul(self, rhs: isize) -> ModUsize {
        proof {
            lemma_signed_word_product(self.val as int, rhs as int);
        }
        let product: i128 = self.val as i128 * rhs as i128;
        ModUsize { val: modulo(product, self.congruence), congruence: self.congruence }
    }
}

impl vstd::std_specs::ops::DivSpecImpl for ModUsize {
    open spec fn obeys_div_spec() -> bool {
        true
    }

    open spec fn div_req(self, rhs: ModUsize) -> bool {
        self.wf() && rhs.wf() && self.congruence == rhs.congruence && rhs.val != 0
    }

    /// The quotient of the two representatives, which are unsigned.
    open spec fn div_spec(self, rhs: ModUsize) -> ModUsize {
        ModUsize { val: self.val / rhs.val, congruence: self.congruence }
    }
}

impl std::ops::Div for ModUsize {
    type Output = ModUsize;

    fn div(self, rhs: ModUsize) -> ModUsize {
        ModUsize { val: self.val / rhs.val, congruence: self.congruence }
    }
}

impl vstd::std_specs::ops::DivSpecImpl<usize> for ModUsize {
    open spec fn obeys_div_spec() -> bool {
        true
    }

    open spec fn div_req(self, rhs: usize) -> bool {
        self.wf() && rhs != 0
    }

    open spec fn div_spec(self, rhs: usize) -> ModUsize {
        ModUsize { val: self.val / rhs, congruence: self.congruence }
    }
}

impl std::ops::Div<usize> for ModUsize {
    type Output = ModUsize;

    fn div(self, rhs: usize) -> ModUsize {
        ModUsize { val: self.val / rhs, congruence: self.congruence }
    }
}

impl vstd::std_specs::ops::DivSpecImpl<isize> for ModUsize {
    open spec fn obeys_div_spec() -> bool {
        true
    }

    open spec fn div_req(self, rhs: isize) -> bool {
        self.wf() && rhs != 0
    }

    /// The quotient rounded toward zero, then reduced: a negative divisor
    /// gives the residue of a negative quotient.
    open spec fn div_spec(self, rhs: isize) -> ModUsize {
        if rhs > 0 {
            ModUsize { val: self.val / (rhs as usize), congruence: self.congruence }
        } else {
            Self::residue(-(self.val as int / -(rhs as int)), self.congruence)
        }
    }
}

impl std::ops::Div<isize> for ModUsize {
    type Output = ModUsize;

    fn div(self, rhs: isize) -> ModUsize {
        let quotient: usize = self.val / magnitude(rhs);
        if rhs > 0 {
            ModUsize { val: quotient, congruence: self.congruence }
        } else {
            ModUsize { val: modulo(-(quotient as i128), self.congruence), congruence: self.congruence }
        }
    }
}

/// Adding a value and taking it away again gives the value first had:
/// `(a + b) - b == a` for residues of one modulus.
pub proof fn lemma_add_then_sub(a: ModUsize, b: ModUsize)
    requires
        a.wf(),
        b.wf(),
        a.congruence == b.congruence,
    ensures
        a.add_spec(b).wf(),
        a.add_spec(b).sub_spec(b) == a,
{
    let m = a.congruence as int;
    let sum = (a.val + b.val) % m;
    lemma_mod_bound(a.val + b.val, m);
    // (sum - b) % m == (a + b - b) % m == a
    lemma_sub_mod_noop(a.val + b.val, b.val as int, m);
    lemma_small_mod(b.val as nat, m as nat);
    lemma_small_mod(a.val as nat, m as nat);
}

/// Every residue is well formed: for a positive modulus the representative of
/// any integer lies in `[0, m)`.
pub proof fn lemma_residue_wf(v: int, m: usize)
    requires
        m > 0,
    ensures
        ModUsize::residue(v, m).wf(),
        ModUsize::residue(v, m).congruence == m,
        ModUsize::residue(v, m).val == v % (m as int),
{
    lemma_mod_bound(v, m as int);
}

} // verus!
