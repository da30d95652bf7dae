//! Strides for stride scheduling.
//!
//! Every task carries a stride, a counter that advances by
//! `BIG_STRIDE / priority` each time the task is dispatched; the task with
//! the smallest stride runs next.  The counter wraps around, so two strides
//! are compared by their distance: as long as no two strides in use are more
//! than `BIG_STRIDE / 2` apart, the comparison of the wrapped counters gives
//! the order of the counters that never wrap.

use super::priority::PriorityImpl;
use core::cmp::Ordering;
use vstd::prelude::*;

verus! {

/// Stride as the kernel keeps it.
pub type Stride = StrideImpl<usize>;

/// The constants of stride scheduling for a counter of type `T`.
pub trait BigStride<T> {
    /// What a task of priority 1 would advance by.
    const BIG_STRIDE: T;
    /// The largest distance between two strides that are in use.
    const BIG_STRIDE_DIV_2: T;
}

impl BigStride<u32> for u32 {
    const BIG_STRIDE: u32 = u32::MAX / 100;
    const BIG_STRIDE_DIV_2: u32 = u32::MAX / 100 / 2;
}

impl BigStride<u8> for u8 {
    const BIG_STRIDE: u8 = 255;
    const BIG_STRIDE_DIV_2: u8 = 255 / 2;
}

impl BigStride<usize> for usize {
    const BIG_STRIDE: usize = isize::MAX as usize;
    const BIG_STRIDE_DIV_2: usize = isize::MAX as usize / 2;
}

/// A wrapping stride counter of type `T`.
#[derive(Debug, Clone, Copy, PartialEq, Eq)]
pub struct StrideImpl<T> {
    stride: T,
}

impl<T> StrideImpl<T> {
    /// A stride with the given counter value.
    pub fn new(stride: T) -> (s: Self)
        ensures
            s.raw() == stride,
    {
        Self { stride }
    }

    /// The counter.
    pub closed spec fn raw(self) -> T {
        self.stride
    }

    /// The counter.
    pub fn get(&self) -> (v: &T)
        ensures
            *v == self.raw(),
    {
        &self.stride
    }
}

/// The constants of the stride that the kernel keeps.
pub proof fn lemma_big_stride()
    ensures
        usize::BIG_STRIDE == isize::MAX,
        usize::BIG_STRIDE_DIV_2 == isize::MAX / 2,
        2 * (isize::MAX / 2) < usize::MAX + 1,
{
}

/// Counter `a` comes before counter `b`, for counters that are no more than
/// `half` apart before wrapping: either `b` is ahead by at most `half`, or
/// `b` has wrapped around and so lies more than `half` below `a`.
pub open spec fn wrapped_before(a: int, b: int, half: int) -> bool {
    (a < b && b - a <= half) || (b < a && a - b > half)
}

/// The counter `value` advanced by `pass`, wrapping at `modulus`.
pub open spec fn advanced(value: int, pass: int, modulus: int) -> int {
    (value + pass) % modulus
}

/// No two of the counters in `strides` are more than `half` apart.
pub open spec fn spread_within(strides: Seq<int>, half: int) -> bool {
    forall|i: int, j: int|
        0 <= i < strides.len() && 0 <= j < strides.len() ==> strides[i] - strides[j] <= half
}

/// Entry `i` of `strides` is a smallest one.
pub open spec fn is_smallest(strides: Seq<int>, i: int) -> bool {
    &&& 0 <= i < strides.len()
    &&& forall|j: int| 0 <= j < strides.len() ==> strides[i] <= strides[j]
}

/// Wrapped counters compare as the counters that never wrap do, as long as
/// these are no more than `half` apart and `half` is less than half of the
/// counter's range.
pub proof fn lemma_wrapped_order_agrees(x: int, y: int, modulus: int, half: int)
    requires
        0 <= half,
        2 * half < modulus,
        -half <= y - x <= half,
    ensures
        wrapped_before(x % modulus, y % modulus, half) <==> x < y,
        x % modulus == y % modulus <==> x == y,
{
    let a = x % modulus;
    let b = y % modulus;
    let qx = x / modulus;
    let qy = y / modulus;
    vstd::arithmetic::div_mod::lemma_fundamental_div_mod(x, modulus);
    vstd::arithmetic::div_mod::lemma_fundamental_div_mod(y, modulus);
    vstd::arithmetic::div_mod::lemma_mod_bound(x, modulus);
    vstd::arithmetic::div_mod::lemma_mod_bound(y, modulus);
    let k = qy - qx;
    assert(y - x == modulus * k + (b - a)) by (nonlinear_arith)
        requires
            x == modulus * qx + a,
            y == modulus * qy + b,
            k == qy - qx,
    ;
    assert(-1 <= k <= 1) by (nonlinear_arith)
        requires
            y - x == modulus * k + (b - a),
            -half <= y - x <= half,
            0 <= a < modulus,
            0 <= b < modulus,
            0 <= half,
            2 * half < modulus,
    ;
    assert(modulus * k == if k == 1 {
        modulus
    } else if k == -1 {
        -modulus
    } else {
        0
    }) by (nonlinear_arith)
        requires
            -1 <= k <= 1,
    ;
}

/// A task of priority 2 or more advances by at most half of `big`.
pub proof fn lemma_pass_bound(big: int, priority: int)
    requires
        0 <= big,
        2 <= priority,
    ensures
        0 <= big / priority <= big / 2,
{
    vstd::arithmetic::div_mod::lemma_div_is_ordered_by_denominator(big, 2, priority);
    vstd::arithmetic::div_mod::lemma_div_pos_is_pos(big, priority);
}

/// When a task with a smallest stride advances by at most `half`, the
/// strides stay within `half` of each other.
pub proof fn lemma_spread_kept(strides: Seq<int>, i: int, pass: int, half: int)
    requires
        spread_within(strides, half),
        is_smallest(strides, i),
        0 <= pass <= half,
    ensures
        spread_within(strides.update(i, strides[i] + pass), half),
{
    let next = strides.update(i, strides[i] + pass);
    assert forall|a: int, b: int| 0 <= a < next.len() && 0 <= b < next.len() implies next[a]
        - next[b] <= half by {
        assert(strides[a] - strides[b] <= half);
        assert(strides[i] <= strides[b]);
        assert(strides[i] <= strides[a]);
    }
}

/// Advancing the wrapped counter gives the wrapped value of the advanced counter.
pub proof fn lemma_advance_wraps(x: int, pass: int, modulus: int)
    requires
        0 < modulus,
    ensures
        advanced(x % modulus, pass, modulus) == (x + pass) % modulus,
{
    vstd::arithmetic::div_mod::lemma_add_mod_noop(x, pass, modulus);
    vstd::arithmetic::div_mod::lemma_add_mod_noop(x % modulus, pass, modulus);
    vstd::arithmetic::div_mod::lemma_mod_twice(x, modulus);
}

/// Advancing a counter subtracts the modulus when the sum reaches it.
pub proof fn lemma_advanced_once(value: int, pass: int, modulus: int)
    requires
        0 <= value < modulus,
        0 <= pass < modulus,
    ensures
        advanced(value, pass, modulus) == if value + pass >= modulus {
            value + pass - modulus
        } else {
            value + pass
        },
{
    if value + pass >= modulus {
        vstd::arithmetic::div_mod::lemma_fundamental_div_mod_converse(
            value + pass,
            modulus,
            1,
            value + pass - modulus,
        );
    } else {
        vstd::arithmetic::div_mod::lemma_fundamental_div_mod_converse(
            value + pass,
            modulus,
            0,
            value + pass,
        );
    }
}

/// Stride scheduling with wrapping counters selects as stride scheduling
/// with counters that never wrap: among strides no more than `half` apart,
/// the wrapped comparison of any two of them is their true order, and this
/// stays so after a task with a smallest stride has advanced.
pub proof fn lemma_wrapped_selection(
    strides: Seq<int>,
    modulus: int,
    half: int,
    i: int,
    pass: int,
)
    requires
        0 <= half,
        2 * half < modulus,
        spread_within(strides, half),
        is_smallest(strides, i),
        0 <= pass <= half,
    ensures
        forall|a: int, b: int|
            0 <= a < strides.len() && 0 <= b < strides.len() ==> (wrapped_before(
                #[trigger] strides[a] % modulus,
                #[trigger] strides[b] % modulus,
                half,
            ) <==> strides[a] < strides[b]),
        spread_within(strides.update(i, strides[i] + pass), half),
        strides.update(i, strides[i] + pass)[i] % modulus == advanced(
            strides[i] % modulus,
            pass,
            modulus,
        ),
{
    assert forall|a: int, b: int| 0 <= a < strides.len() && 0 <= b < strides.len() implies (
    wrapped_before(#[trigger] strides[a] % modulus, #[trigger] strides[b] % modulus, half)
        <==> strides[a] < strides[b]) by {
        assert(strides[b] - strides[a] <= half);
        assert(strides[a] - strides[b] <= half);
        lemma_wrapped_order_agrees(strides[a], strides[b], modulus, half);
    }
    lemma_spread_kept(strides, i, pass, half);
    lemma_advance_wraps(strides[i], pass, modulus);
}

/// The order of counter `a` and counter `b`, for counters that are no more
/// than `half` apart before wrapping.
pub open spec fn stride_order(a: int, b: int, half: int) -> Option<Ordering> {
    if a == b {
        Some(Ordering::Equal)
    } else if wrapped_before(a, b, half) {
        Some(Ordering::Less)
    } else {
        Some(Ordering::Greater)
    }
}

impl StrideImpl<u8> {
    /// The largest distance between two strides in use: `BIG_STRIDE / 2`.
    pub open spec fn half() -> int {
        127
    }

    /// The counter as an integer.
    pub open spec fn value(self) -> int {
        self.raw() as int
    }

    /// The number of values the counter has.
    pub open spec fn modulus() -> int {
        u8::MAX + 1
    }

    /// What a task of the given priority advances by.
    pub open spec fn pass(priority: PriorityImpl<u8>) -> int {
        u8::BIG_STRIDE as int / priority.0 as int
    }

    /// Advance the stride by `BIG_STRIDE / priority`, wrapping around.
    pub fn step(&mut self, priority: PriorityImpl<u8>)
        requires
            priority.0 != 0,
        ensures
            final(self).value() == advanced(
                old(self).value(),
                Self::pass(priority),
                Self::modulus(),
            ),
    {
        let pass: u8 = u8::BIG_STRIDE / (priority.0 as u8);
        proof {
            lemma_advanced_once(self.value(), pass as int, Self::modulus());
        }
        self.stride = self.stride.wrapping_add(pass);
    }
}

impl Default for StrideImpl<u8> {
    fn default() -> (s: Self)
        ensures
            s.value() == 0,
    {
        StrideImpl { stride: 0 }
    }
}

impl PartialOrd for StrideImpl<u8> {
    fn partial_cmp(&self, other: &Self) -> (r: Option<Ordering>) {
        let half: u8 = u8::BIG_STRIDE_DIV_2;
        if self.stride == other.stride {
            Some(Ordering::Equal)
        } else if self.stride < other.stride {
            if other.stride - self.stride <= half {
                Some(Ordering::Less)
            } else {
                Some(Ordering::Greater)
            }
        } else {
            if self.stride - other.stride <= half {
                Some(Ordering::Greater)
            } else {
                Some(Ordering::Less)
            }
        }
    }
}

impl vstd::std_specs::cmp::PartialOrdSpecImpl for StrideImpl<u8> {
    open spec fn obeys_partial_cmp_spec() -> bool {
        true
    }

    open spec fn partial_cmp_spec(&self, other: &Self) -> Option<Ordering> {
        stride_order(self.value(), other.value(), Self::half())
    }
}

impl StrideImpl<u32> {
    /// The largest distance between two strides in use: `BIG_STRIDE / 2`.
    pub open spec fn half() -> int {
        21474836
    }

    /// The counter as an integer.
    pub open spec fn value(self) -> int {
        self.raw() as int
    }

    /// The number of values the counter has.
    pub open spec fn modulus() -> int {
        u32::MAX + 1
    }

    /// What a task of the given priority advances by.
    pub open spec fn pass(priority: PriorityImpl<u32>) -> int {
        u32::BIG_STRIDE as int / priority.0 as int
    }

    /// Advance the stride by `BIG_STRIDE / priority`, wrapping around.
    pub fn step(&mut self, priority: PriorityImpl<u32>)
        requires
            priority.0 != 0,
        ensures
            final(self).value() == advanced(
                old(self).value(),
                Self::pass(priority),
                Self::modulus(),
            ),
    {
        let pass: u32 = u32::BIG_STRIDE / (priority.0 as u32);
        proof {
            lemma_advanced_once(self.value(), pass as int, Self::modulus());
        }
        self.stride = self.stride.wrapping_add(pass);
    }
}

impl Default for StrideImpl<u32> {
    fn default() -> (s: Self)
        ensures
            s.value() == 0,
    {
        StrideImpl { stride: 0 }
    }
}

impl PartialOrd for StrideImpl<u32> {
    fn partial_cmp(&self, other: &Self) -> (r: Option<Ordering>) {
        let half: u32 = u32::BIG_STRIDE_DIV_2;
        if self.stride == other.stride {
            Some(Ordering::Equal)
        } else if self.stride < other.stride {
            if other.stride - self.stride <= half {
                Some(Ordering::Less)
            } else {
                Some(Ordering::Greater)
            }
        } else {
            if self.stride - other.stride <= half {
                Some(Ordering::Greater)
            } else {
                Some(Ordering::Less)
            }
        }
    }
}

impl vstd::std_specs::cmp::PartialOrdSpecImpl for StrideImpl<u32> {
    open spec fn obeys_partial_cmp_spec() -> bool {
        true
    }

    open spec fn partial_cmp_spec(&self, other: &Self) -> Option<Ordering> {
        stride_order(self.value(), other.value(), Self::half())
    }
}

impl StrideImpl<usize> {
    /// The largest distance between two strides in use: `BIG_STRIDE / 2`.
    pub open spec fn half() -> int {
        isize::MAX / 2
    }

    /// The counter as an integer.
    pub open spec fn value(self) -> int {
        self.raw() as int
    }

    /// The number of values the counter has.
    pub open spec fn modulus() -> int {
        usize::MAX + 1
    }

    /// What a task of the given priority advances by.
    pub open spec fn pass(priority: PriorityImpl<u32>) -> int {
        usize::BIG_STRIDE as int / priority.0 as int
    }

    /// Advance the stride by `BIG_STRIDE / priority`, wrapping around.
    pub fn step(&mut self, priority: PriorityImpl<u32>)
        requires
            priority.0 != 0,
        ensures
            final(self).value() == advanced(
                old(self).value(),
                Self::pass(priority),
                Self::modulus(),
            ),
    {
        let pass: usize = usize::BIG_STRIDE / (priority.0 as usize);
        proof {
            lemma_advanced_once(self.value(), pass as int, Self::modulus());
        }
        self.stride = self.stride.wrapping_add(pass);
    }
}

impl Default for StrideImpl<usize> {
    fn default() -> (s: Self)
        ensures
            s.value() == 0,
    {
        StrideImpl { stride: 0 }
    }
}

impl PartialOrd for StrideImpl<usize> {
    fn partial_cmp(&self, other: &Self) -> (r: Option<Ordering>) {
        let half: usize = usize::BIG_STRIDE_DIV_2;
        if self.stride == other.stride {
            Some(Ordering::Equal)
        } else if self.stride < other.stride {
            if other.stride - self.stride <= half {
                Some(Ordering::Less)
            } else {
                Some(Ordering::Greater)
            }
        } else {
            if self.stride - other.stride <= half {
                Some(Ordering::Greater)
            } else {
                Some(Ordering::Less)
            }
        }
    }
}

impl vstd::std_specs::cmp::PartialOrdSpecImpl for StrideImpl<usize> {
    open spec fn obeys_partial_cmp_spec() -> bool {
        true
    }

    open spec fn partial_cmp_spec(&self, other: &Self) -> Option<Ordering> {
        stride_order(self.value(), other.value(), Self::half())
    }
}

} // verus!
