use vstd::prelude::*;

use vstd::arithmetic::div_mod::{
    lemma_div_basics_2,
    lemma_div_decreases,
    lemma_div_is_ordered_by_denominator,
    lemma_div_pos_is_pos,
};

use vstd::string::StringExecFns;

use super::MathError;
use super::text::{joined, push_joined};

verus! {

/// std's mutable slice iterator, carried through opaquely.
#[verifier::external_type_specification]
#[verifier::external_body]
#[verifier::reject_recursive_types(T)]
pub struct ExIterMut<'a, T: 'a>(std::slice::IterMut<'a, T>);

/// A dense vector: an ordered sequence of elements, index order being
/// insertion order.
#[derive(Clone, Debug, PartialEq)]
pub struct Vector<T> {
    pub data: Vec<T>,
}

/// `x` is representable as an `i64`.
pub open spec fn fits(x: int) -> bool {
    i64::MIN <= x <= i64::MAX
}

/// `a[0] * b[0] + ... + a[len - 1] * b[len - 1]`.
pub open spec fn dot_sum(a: Seq<i64>, b: Seq<i64>, len: int) -> int
    decreases len,
{
    if len <= 0 {
        0
    } else {
        dot_sum(a, b, len - 1) + a[len - 1] * b[len - 1]
    }
}

/// Step `k` of the sum of products of `a` and `b` stays within `i64`.
pub open spec fn dot_step_fits(a: Seq<i64>, b: Seq<i64>, k: int) -> bool {
    &&& fits(a[k] * b[k])
    &&& fits(dot_sum(a, b, k + 1))
}

/// Every product and partial sum of `dot_sum(a, b, a.len())` fits in `i64`.
pub open spec fn dot_fits(a: Seq<i64>, b: Seq<i64>) -> bool {
    forall|k: int| 0 <= k < a.len() ==> #[trigger] dot_step_fits(a, b, k)
}

/// Sum of products of two buffers of one length, accumulated from zero.
pub fn sum_of_products(a: &Vec<i64>, b: &Vec<i64>) -> (r: i64)
    requires
        a@.len() == b@.len(),
        dot_fits(a@, b@),
    ensures
        r == dot_sum(a@, b@, a@.len() as int),
{
    let mut acc: i64 = 0;
    let mut k: usize = 0;
    while k < a.len()
        invariant
            a@.len() == b@.len(),
            dot_fits(a@, b@),
            k <= a@.len(),
            acc == dot_sum(a@, b@, k as int),
        decreases a@.len() - k,
    {
        assert(dot_step_fits(a@, b@, k as int));
        acc = acc + a[k] * b[k];
        k += 1;
    }
    acc
}

/// `a / b` rounded toward zero, as `i64` division does.
pub open spec fn quotient(a: int, b: int) -> int {
    if a == 0 {
        0
    } else if a > 0 && b > 0 {
        a / b
    } else if a < 0 && b < 0 {
        (-a) / (-b)
    } else if a < 0 {
        -((-a) / b)
    } else {
        -(a / (-b))
    }
}

/// `a / b` is defined on `i64`: no division by zero, no overflow.
pub open spec fn divides_safely(a: i64, b: i64) -> bool {
    b != 0 && !(a == i64::MIN && b == -1)
}

pub(crate) fn plus(a: i64, b: i64) -> (c: i64)
    requires
        fits(a + b),
    ensures
        c == a + b,
{
    a + b
}

pub(crate) fn minus(a: i64, b: i64) -> (c: i64)
    requires
        fits(a - b),
    ensures
        c == a - b,
{
    a - b
}

pub(crate) fn times(a: i64, b: i64) -> (c: i64)
    requires
        fits(a * b),
    ensures
        c == a * b,
{
    a * b
}

/// A non-negative `x` divided by a positive `d` lies in `0..=x`, and below
/// `x` when `x > 0` and `d > 1`.
proof fn lemma_quotient_bounds(x: int, d: int)
    requires
        x >= 0,
        d >= 1,
    ensures
        0 <= x / d <= x,
        x > 0 && d > 1 ==> x / d < x,
{
    lemma_div_pos_is_pos(x, d);
    lemma_div_is_ordered_by_denominator(x, 1, d);
    lemma_div_basics_2(x);
    if x > 0 && d > 1 {
        lemma_div_decreases(x, d);
    }
}

fn divide(a: i64, b: i64) -> (c: i64)
    requires
        divides_safely(a, b),
    ensures
        c == quotient(a as int, b as int),
{
    proof {
        let x = a as int;
        let d = b as int;
        if x > 0 && d > 0 {
            lemma_quotient_bounds(x, d);
        } else if x < 0 && d < 0 {
            lemma_quotient_bounds(-x, -d);
        } else if x < 0 && d > 0 {
            lemma_quotient_bounds(-x, d);
        } else if x > 0 && d < 0 {
            lemma_quotient_bounds(x, -d);
        }
    }
    match a.checked_div(b) {
        Some(c) => c,
        None => 0,
    }
}

/// `s[0] + ... + s[k - 1]`.
pub open spec fn prefix_sum(s: Seq<i64>, k: int) -> int
    decreases k,
{
    if k <= 0 {
        0
    } else {
        prefix_sum(s, k - 1) + s[k - 1]
    }
}

/// Every partial sum of `s` fits in `i64`.
pub open spec fn sum_fits(s: Seq<i64>) -> bool {
    forall|k: int| 0 < k <= s.len() ==> fits(#[trigger] prefix_sum(s, k))
}

/// `m` is the least element of the non-empty `s`.
pub open spec fn is_min(s: Seq<i64>, m: i64) -> bool {
    &&& exists|i: int| 0 <= i < s.len() && s[i] == m
    &&& forall|i: int| 0 <= i < s.len() ==> m <= #[trigger] s[i]
}

/// `m` is the greatest element of the non-empty `s`.
pub open spec fn is_max(s: Seq<i64>, m: i64) -> bool {
    &&& exists|i: int| 0 <= i < s.len() && s[i] == m
    &&& forall|i: int| 0 <= i < s.len() ==> #[trigger] s[i] <= m
}

impl<T> View for Vector<T> {
    type V = Seq<T>;

    open spec fn view(&self) -> Seq<T> {
        self.data@
    }
}

impl<T> From<Vec<T>> for Vector<T> {
    /// Wraps an existing sequence of elements.
    fn from(data: Vec<T>) -> (r: Self) {
        Vector { data }
    }
}

impl<T> vstd::std_specs::convert::FromSpecImpl<Vec<T>> for Vector<T> {
    open spec fn obeys_from_spec() -> bool {
        true
    }

    open spec fn from_spec(data: Vec<T>) -> Self {
        Vector { data }
    }
}

impl<T> Vector<T> {
    /// An empty vector.
    pub fn new() -> (r: Self)
        ensures
            r@ == Seq::<T>::empty(),
    {
        Vector { data: Vec::new() }
    }

    /// An empty vector; `capacity` is only an allocation hint.
    pub fn with_capacity(capacity: usize) -> (r: Self)
        ensures
            r@ == Seq::<T>::empty(),
    {
        Vector { data: Vec::with_capacity(capacity) }
    }

    /// Number of elements.
    pub fn len(&self) -> (r: usize)
        ensures
            r == self@.len(),
    {
        self.data.len()
    }

    /// Whether the vector holds no element.
    pub fn is_empty(&self) -> (r: bool)
        ensures
            r == (self@.len() == 0),
    {
        self.data.len() == 0
    }
}

impl<T> Vector<T> {
    /// The element at `index`; `None` past the end.
    pub fn get(&self, index: usize) -> (r: Option<&T>)
        ensures
            match r {
                Some(x) => index < self@.len() && *x == self@[index as int],
                None => index >= self@.len(),
            },
    {
        if index < self.data.len() {
            Some(&self.data[index])
        } else {
            None
        }
    }

    /// An iterator over references to the elements, in index order.
    pub fn iter(&self) -> (r: std::slice::Iter<'_, T>)
        ensures
            vstd::std_specs::slice::into_iter_elts(r) == self@,
    {
        self.data.as_slice().iter()
    }

    /// An iterator over mutable references to the elements, in index
    /// order.
    ///
    /// Relies on `<[T]>::iter_mut`; nothing is stated of the iterator or of
    /// the writes made through it.
    #[verifier::external_body]
    pub fn iter_mut(&mut self) -> std::slice::IterMut<'_, T> {
        self.data.iter_mut()
    }

    /// Replaces the element at `index`; fails with `IndexOutOfBounds`,
    /// leaving the vector unchanged, past the end.
    pub fn set(&mut self, index: usize, value: T) -> (r: Result<(), MathError>)
        ensures
            match r {
                Ok(_) => index < old(self)@.len() && final(self)@ == old(self)@.update(
                    index as int,
                    value,
                ),
                Err(e) => {
                    &&& index >= old(self)@.len()
                    &&& e == MathError::IndexOutOfBounds
                    &&& *final(self) == *old(self)
                },
            },
    {
        if index >= self.data.len() {
            return Err(MathError::IndexOutOfBounds);
        }
        self.data.set(index, value);
        Ok(())
    }

    /// A new vector of `f(x)` for each element `x`, of any element type.
    pub fn map<U, F: Fn(&T) -> U>(&self, f: F) -> (r: Vector<U>)
        requires
            forall|i: int| 0 <= i < self@.len() ==> f.requires((&#[trigger] self@[i],)),
        ensures
            r@.len() == self@.len(),
            forall|i: int| 0 <= i < self@.len() ==> f.ensures((&self@[i],), #[trigger] r@[i]),
    {
        let mut data: Vec<U> = Vec::with_capacity(self.data.len());
        let mut i: usize = 0;
        while i < self.data.len()
            invariant
                i <= self@.len(),
                forall|k: int| 0 <= k < self@.len() ==> f.requires((&#[trigger] self@[k],)),
                data@.len() == i,
                forall|k: int| 0 <= k < i ==> f.ensures((&self@[k],), #[trigger] data@[k]),
            decreases self@.len() - i,
        {
            data.push(f(&self.data[i]));
            i += 1;
        }
        Vector { data }
    }

    /// A new vector of `f(x, y)` over elements at equal indices; as long as
    /// the shorter of the two, so trailing unmatched elements are dropped.
    pub fn zip_map<U, F: Fn(&T, &T) -> U>(&self, other: &Self, f: F) -> (r: Vector<U>)
        requires
            forall|i: int|
                0 <= i < self@.len() && i < other@.len() ==> f.requires(
                    (&#[trigger] self@[i], &other@[i]),
                ),
        ensures
            r@.len() == if self@.len() <= other@.len() {
                self@.len()
            } else {
                other@.len()
            },
            forall|i: int|
                0 <= i < r@.len() ==> f.ensures((&self@[i], &other@[i]), #[trigger] r@[i]),
    {
        let n = if self.data.len() <= other.data.len() {
            self.data.len()
        } else {
            other.data.len()
        };
        let mut data: Vec<U> = Vec::with_capacity(n);
        let mut i: usize = 0;
        while i < n
            invariant
                n <= self@.len(),
                n <= other@.len(),
                i <= n,
                forall|k: int|
                    0 <= k < self@.len() && k < other@.len() ==> f.requires(
                        (&#[trigger] self@[k], &other@[k]),
                    ),
                data@.len() == i,
                forall|k: int|
                    0 <= k < i ==> f.ensures((&self@[k], &other@[k]), #[trigger] data@[k]),
            decreases n - i,
        {
            data.push(f(&self.data[i], &other.data[i]));
            i += 1;
        }
        Vector { data }
    }
}

impl<T: Copy> Vector<T> {
    /// A vector of `len` copies of `elem`.
    pub fn from_elem(elem: T, len: usize) -> (r: Self)
        ensures
            r@ == Seq::new(len as nat, |i: int| elem),
    {
        let mut data: Vec<T> = Vec::with_capacity(len);
        let mut i: usize = 0;
        while i < len
            invariant
                i <= len,
                data@ =~= Seq::new(i as nat, |k: int| elem),
            decreases len - i,
        {
            data.push(elem);
            i += 1;
        }
        Vector { data }
    }

    /// A new vector of `f(x)` for each element `x`; `self` is left as it is.
    pub fn element_wise_apply<F: Fn(T) -> T>(&self, f: F) -> (r: Self)
        requires
            forall|i: int| 0 <= i < self@.len() ==> f.requires((#[trigger] self@[i],)),
        ensures
            r@.len() == self@.len(),
            forall|i: int| 0 <= i < self@.len() ==> f.ensures((self@[i],), #[trigger] r@[i]),
    {
        let mut data: Vec<T> = Vec::with_capacity(self.data.len());
        let mut i: usize = 0;
        while i < self.data.len()
            invariant
                i <= self@.len(),
                forall|k: int| 0 <= k < self@.len() ==> f.requires((#[trigger] self@[k],)),
                data@.len() == i,
                forall|k: int| 0 <= k < i ==> f.ensures((self@[k],), #[trigger] data@[k]),
            decreases self@.len() - i,
        {
            data.push(f(self.data[i]));
            i += 1;
        }
        Vector { data }
    }

    /// The vector of `f(x, y)` over equal indices of two vectors of one
    /// length.
    fn combine<F: Fn(T, T) -> T>(&self, rhs: &Self, f: F) -> (r: Self)
        requires
            self@.len() == rhs@.len(),
            forall|i: int| 0 <= i < self@.len() ==> f.requires((#[trigger] self@[i], rhs@[i])),
        ensures
            r@.len() == self@.len(),
            forall|i: int| 0 <= i < self@.len() ==> f.ensures((self@[i], rhs@[i]), #[trigger] r@[i]),
    {
        let mut data: Vec<T> = Vec::with_capacity(self.data.len());
        let mut i: usize = 0;
        while i < self.data.len()
            invariant
                self@.len() == rhs@.len(),
                i <= self@.len(),
                forall|k: int| 0 <= k < self@.len() ==> f.requires((#[trigger] self@[k], rhs@[k])),
                data@.len() == i,
                forall|k: int| 0 <= k < i ==> f.ensures((self@[k], rhs@[k]), #[trigger] data@[k]),
            decreases self@.len() - i,
        {
            data.push(f(self.data[i], rhs.data[i]));
            i += 1;
        }
        Vector { data }
    }

    /// Replaces each element `x` by `f(x, y)`, `y` the element of `rhs` at
    /// the same index; both vectors have one length.
    fn combine_in_place<F: Fn(T, T) -> T>(&mut self, rhs: &Self, f: F)
        requires
            old(self)@.len() == rhs@.len(),
            forall|i: int|
                0 <= i < old(self)@.len() ==> f.requires((#[trigger] old(self)@[i], rhs@[i])),
        ensures
            final(self)@.len() == old(self)@.len(),
            forall|i: int|
                0 <= i < old(self)@.len() ==> f.ensures(
                    (old(self)@[i], rhs@[i]),
                    #[trigger] final(self)@[i],
                ),
    {
        let ghost start = self@;
        let mut i: usize = 0;
        while i < self.data.len()
            invariant
                start.len() == rhs@.len(),
                self@.len() == start.len(),
                i <= start.len(),
                forall|k: int| 0 <= k < start.len() ==> f.requires((#[trigger] start[k], rhs@[k])),
                forall|k: int| i <= k < start.len() ==> #[trigger] self@[k] == start[k],
                forall|k: int| 0 <= k < i ==> f.ensures((start[k], rhs@[k]), #[trigger] self@[k]),
            decreases start.len() - i,
        {
            let x = f(self.data[i], rhs.data[i]);
            self.data.set(i, x);
            i += 1;
        }
    }
}

impl Vector<i64> {
    /// The elements in decimal, separated by `", "` and enclosed in
    /// brackets: `[1, 2, 3]`.
    pub fn to_string(&self) -> (r: String)
        ensures
            r@ == seq!['['] + joined(self@) + seq![']'],
    {
        proof {
            reveal_strlit("[");
            reveal_strlit("]");
        }
        let mut out = String::from_str("[");
        push_joined(&mut out, &self.data);
        out.append("]");
        out
    }

    /// Same length and equal elements at every index.
    pub fn equals(&self, other: &Self) -> (r: bool)
        ensures
            r == (self@ == other@),
    {
        if self.data.len() != other.data.len() {
            return false;
        }
        let mut i: usize = 0;
        while i < self.data.len()
            invariant
                self@.len() == other@.len(),
                i <= self@.len(),
                forall|k: int| 0 <= k < i ==> self@[k] == other@[k],
            decreases self@.len() - i,
        {
            if self.data[i] != other.data[i] {
                return false;
            }
            i += 1;
        }
        proof {
            assert(self@ =~= other@);
        }
        true
    }

    /// Sum of the elements, accumulated from zero.
    pub fn sum(&self) -> (r: i64)
        requires
            sum_fits(self@),
        ensures
            r == prefix_sum(self@, self@.len() as int),
    {
        let mut acc: i64 = 0;
        let mut i: usize = 0;
        while i < self.data.len()
            invariant
                sum_fits(self@),
                i <= self@.len(),
                acc == prefix_sum(self@, i as int),
            decreases self@.len() - i,
        {
            assert(fits(prefix_sum(self@, i + 1)));
            acc = acc + self.data[i];
            i += 1;
        }
        acc
    }

    /// The least element; `None` when empty.
    pub fn min(&self) -> (r: Option<i64>)
        ensures
            match r {
                Some(m) => self@.len() > 0 && is_min(self@, m),
                None => self@.len() == 0,
            },
    {
        if self.data.len() == 0 {
            return None;
        }
        let mut best: i64 = self.data[0];
        let mut i: usize = 1;
        while i < self.data.len()
            invariant
                1 <= i <= self@.len(),
                exists|k: int| 0 <= k < i && self@[k] == best,
                forall|k: int| 0 <= k < i ==> best <= #[trigger] self@[k],
            decreases self@.len() - i,
        {
            if self.data[i] < best {
                best = self.data[i];
            }
            i += 1;
        }
        Some(best)
    }

    /// The greatest element; `None` when empty.
    pub fn max(&self) -> (r: Option<i64>)
        ensures
            match r {
                Some(m) => self@.len() > 0 && is_max(self@, m),
                None => self@.len() == 0,
            },
    {
        if self.data.len() == 0 {
            return None;
        }
        let mut best: i64 = self.data[0];
        let mut i: usize = 1;
        while i < self.data.len()
            invariant
                1 <= i <= self@.len(),
                exists|k: int| 0 <= k < i && self@[k] == best,
                forall|k: int| 0 <= k < i ==> #[trigger] self@[k] <= best,
            decreases self@.len() - i,
        {
            if self.data[i] > best {
                best = self.data[i];
            }
            i += 1;
        }
        Some(best)
    }

    /// The elements as an array of `N`; `None` unless the length is `N`.
    pub fn to_array<const N: usize>(&self) -> (r: Option<[i64; N]>)
        ensures
            match r {
                Some(a) => self@.len() == N && a@ == self@,
                None => self@.len() != N,
            },
    {
        if self.data.len() != N {
            return None;
        }
        let mut arr: [i64; N] = [0i64; N];
        let mut i: usize = 0;
        while i < N
            invariant
                self@.len() == N,
                i <= N,
                arr@.len() == N,
                forall|k: int| 0 <= k < i ==> arr@[k] == self@[k],
            decreases N - i,
        {
            arr[i] = self.data[i];
            i += 1;
        }
        proof {
            assert(arr@ =~= self@);
        }
        Some(arr)
    }

    /// Sum of the products of elements at equal indices; fails unless both
    /// vectors have one length.
    pub fn dot(&self, other: &Self) -> (r: Result<i64, MathError>)
        requires
            self@.len() == other@.len() ==> dot_fits(self@, other@),
        ensures
            match r {
                Ok(d) => self@.len() == other@.len() && d == dot_sum(
                    self@,
                    other@,
                    self@.len() as int,
                ),
                Err(e) => self@.len() != other@.len() && e == MathError::DimensionMismatch,
            },
    {
        if self.data.len() != other.data.len() {
            return Err(MathError::DimensionMismatch);
        }
        Ok(sum_of_products(&self.data, &other.data))
    }

    /// Elementwise sum; fails unless both vectors have one length.
    pub fn add(self, rhs: Self) -> (r: Result<Self, MathError>)
        requires
            self@.len() == rhs@.len() ==> forall|i: int|
                0 <= i < self@.len() ==> fits(#[trigger] self@[i] + rhs@[i]),
        ensures
            match r {
                Ok(v) => {
                    &&& self@.len() == rhs@.len()
                    &&& v@.len() == self@.len()
                    &&& forall|i: int| 0 <= i < v@.len() ==> #[trigger] v@[i] == self@[i] + rhs@[i]
                },
                Err(e) => self@.len() != rhs@.len() && e == MathError::DimensionMismatch,
            },
    {
        if self.data.len() != rhs.data.len() {
            return Err(MathError::DimensionMismatch);
        }
        Ok(self.combine(&rhs, plus))
    }

    /// Elementwise difference; fails unless both vectors have one length.
    pub fn sub(self, rhs: Self) -> (r: Result<Self, MathError>)
        requires
            self@.len() == rhs@.len() ==> forall|i: int|
                0 <= i < self@.len() ==> fits(#[trigger] self@[i] - rhs@[i]),
        ensures
            match r {
                Ok(v) => {
                    &&& self@.len() == rhs@.len()
                    &&& v@.len() == self@.len()
                    &&& forall|i: int| 0 <= i < v@.len() ==> #[trigger] v@[i] == self@[i] - rhs@[i]
                },
                Err(e) => self@.len() != rhs@.len() && e == MathError::DimensionMismatch,
            },
    {
        if self.data.len() != rhs.data.len() {
            return Err(MathError::DimensionMismatch);
        }
        Ok(self.combine(&rhs, minus))
    }

    /// Elementwise product; fails unless both vectors have one length.
    pub fn mul(self, rhs: Self) -> (r: Result<Self, MathError>)
        requires
            self@.len() == rhs@.len() ==> forall|i: int|
                0 <= i < self@.len() ==> fits(#[trigger] self@[i] * rhs@[i]),
        ensures
            match r {
                Ok(v) => {
                    &&& self@.len() == rhs@.len()
                    &&& v@.len() == self@.len()
                    &&& forall|i: int| 0 <= i < v@.len() ==> #[trigger] v@[i] == self@[i] * rhs@[i]
                },
                Err(e) => self@.len() != rhs@.len() && e == MathError::DimensionMismatch,
            },
    {
        if self.data.len() != rhs.data.len() {
            return Err(MathError::DimensionMismatch);
        }
        Ok(self.combine(&rhs, times))
    }

    /// Elementwise quotient, rounded toward zero; fails unless both vectors
    /// have one length.
    pub fn div(self, rhs: Self) -> (r: Result<Self, MathError>)
        requires
            self@.len() == rhs@.len() ==> forall|i: int|
                0 <= i < self@.len() ==> divides_safely(#[trigger] self@[i], rhs@[i]),
        ensures
            match r {
                Ok(v) => {
                    &&& self@.len() == rhs@.len()
                    &&& v@.len() == self@.len()
                    &&& forall|i: int|
                        0 <= i < v@.len() ==> #[trigger] v@[i] == quotient(
                            self@[i] as int,
                            rhs@[i] as int,
                        )
                },
                Err(e) => self@.len() != rhs@.len() && e == MathError::DimensionMismatch,
            },
    {
        if self.data.len() != rhs.data.len() {
            return Err(MathError::DimensionMismatch);
        }
        Ok(self.combine(&rhs, divide))
    }

    /// Adds `rhs` into `self` elementwise; fails, leaving `self` unchanged,
    /// unless both vectors have one length.
    pub fn add_assign(&mut self, rhs: Self) -> (r: Result<(), MathError>)
        requires
            old(self)@.len() == rhs@.len() ==> forall|i: int|
                0 <= i < old(self)@.len() ==> fits(#[trigger] old(self)@[i] + rhs@[i]),
        ensures
            match r {
                Ok(_) => {
                    &&& old(self)@.len() == rhs@.len()
                    &&& final(self)@.len() == old(self)@.len()
                    &&& forall|i: int|
                        0 <= i < old(self)@.len() ==> #[trigger] final(self)@[i] == old(self)@[i]
                            + rhs@[i]
                },
                Err(e) => {
                    &&& old(self)@.len() != rhs@.len()
                    &&& e == MathError::DimensionMismatch
                    &&& *final(self) == *old(self)
                },
            },
    {
        if self.data.len() != rhs.data.len() {
            return Err(MathError::DimensionMismatch);
        }
        self.combine_in_place(&rhs, plus);
        Ok(())
    }

    /// Subtracts `rhs` from `self` elementwise; fails, leaving `self`
    /// unchanged, unless both vectors have one length.
    pub fn sub_assign(&mut self, rhs: Self) -> (r: Result<(), MathError>)
        requires
            old(self)@.len() == rhs@.len() ==> forall|i: int|
                0 <= i < old(self)@.len() ==> fits(#[trigger] old(self)@[i] - rhs@[i]),
        ensures
            match r {
                Ok(_) => {
                    &&& old(self)@.len() == rhs@.len()
                    &&& final(self)@.len() == old(self)@.len()
                    &&& forall|i: int|
                        0 <= i < old(self)@.len() ==> #[trigger] final(self)@[i] == old(self)@[i]
                            - rhs@[i]
                },
                Err(e) => {
                    &&& old(self)@.len() != rhs@.len()
                    &&& e == MathError::DimensionMismatch
                    &&& *final(self) == *old(self)
                },
            },
    {
        if self.data.len() != rhs.data.len() {
            return Err(MathError::DimensionMismatch);
        }
        self.combine_in_place(&rhs, minus);
        Ok(())
    }

    /// Multiplies `self` by `rhs` elementwise; fails, leaving `self`
    /// unchanged, unless both vectors have one length.
    pub fn mul_assign(&mut self, rhs: Self) -> (r: Result<(), MathError>)
        requires
            old(self)@.len() == rhs@.len() ==> forall|i: int|
                0 <= i < old(self)@.len() ==> fits(#[trigger] old(self)@[i] * rhs@[i]),
        ensures
            match r {
                Ok(_) => {
                    &&& old(self)@.len() == rhs@.len()
                    &&& final(self)@.len() == old(self)@.len()
                    &&& forall|i: int|
                        0 <= i < old(self)@.len() ==> #[trigger] final(self)@[i] == old(self)@[i]
                            * rhs@[i]
                },
                Err(e) => {
                    &&& old(self)@.len() != rhs@.len()
                    &&& e == MathError::DimensionMismatch
                    &&& *final(self) == *old(self)
                },
            },
    {
        if self.data.len() != rhs.data.len() {
            return Err(MathError::DimensionMismatch);
        }
        self.combine_in_place(&rhs, times);
        Ok(())
    }

    /// Divides `self` by `rhs` elementwise, rounding toward zero; fails,
    /// leaving `self` unchanged, unless both vectors have one length.
    pub fn div_assign(&mut self, rhs: Self) -> (r: Result<(), MathError>)
        requires
            old(self)@.len() == rhs@.len() ==> forall|i: int|
                0 <= i < old(self)@.len() ==> divides_safely(#[trigger] old(self)@[i], rhs@[i]),
        ensures
            match r {
                Ok(_) => {
                    &&& old(self)@.len() == rhs@.len()
                    &&& final(self)@.len() == old(self)@.len()
                    &&& forall|i: int|
                        0 <= i < old(self)@.len() ==> #[trigger] final(self)@[i] == quotient(
                            old(self)@[i] as int,
                            rhs@[i] as int,
                        )
                },
                Err(e) => {
                    &&& old(self)@.len() != rhs@.len()
                    &&& e == MathError::DimensionMismatch
                    &&& *final(self) == *old(self)
                },
            },
    {
        if self.data.len() != rhs.data.len() {
            return Err(MathError::DimensionMismatch);
        }
        self.combine_in_place(&rhs, divide);
        Ok(())
    }
}

} // verus!
