//! An integer that wraps around inside a half-open range.
use vstd::prelude::*;

verus! {

pub open spec fn span(lower: int, upper: int) -> int {
    if upper >= lower {
        upper - lower
    } else {
        lower - upper
    }
}

/// `value` brought into `[lower, lower + span)` by adding a multiple of the
/// span between the bounds (the Euclidean remainder of `value - lower`).
pub open spec fn wrap_into(value: int, lower: int, upper: int) -> int {
    (value - lower) % span(lower, upper) + lower
}

/// Bounds a value can wrap between: distinct, and every wrapped value fits
/// in `i32`.
pub open spec fn wrappable(lower: int, upper: int) -> bool {
    lower != upper && lower + span(lower, upper) - 1 <= i32::MAX
}

/// A value that wraps around within `[lower_bound, upper_bound)`; with the
/// bounds the other way round it wraps within
/// `[lower_bound, 2 * lower_bound - upper_bound)`.
#[derive(Clone, Copy, Debug)]
pub struct Ring {
    lower_bound: i32,
    upper_bound: i32,
    value: i32,
}

impl Ring {
    pub closed spec fn lower(&self) -> int {
        self.lower_bound as int
    }

    pub closed spec fn upper(&self) -> int {
        self.upper_bound as int
    }

    pub closed spec fn value_spec(&self) -> int {
        self.value as int
    }

    pub open spec fn can_wrap(&self) -> bool {
        wrappable(self.lower(), self.upper())
    }

    /// Whether the bounds admit wrapping (see `wrappable`).
    pub fn wraps(&self) -> (r: bool)
        ensures
            r == self.can_wrap(),
    {
        let lower = self.lower_bound as i64;
        let upper = self.upper_bound as i64;
        let span = if upper >= lower { upper - lower } else { lower - upper };
        lower != upper && lower + span - 1 <= i32::MAX as i64
    }

    /// A ring over `[lower_bound, upper_bound)` holding `lower_bound`.
    pub fn new(lower_bound: i32, upper_bound: i32) -> (r: Ring)
        ensures
            r.lower() == lower_bound,
            r.upper() == upper_bound,
            r.value_spec() == lower_bound,
    {
        Ring { lower_bound, upper_bound, value: lower_bound }
    }

    fn wrapped(&self, value: i64) -> (r: Ring)
        requires
            self.can_wrap(),
            -0x2_0000_0000 <= value <= 0x2_0000_0000,
        ensures
            r.lower() == self.lower(),
            r.upper() == self.upper(),
            r.value_spec() == wrap_into(value as int, self.lower(), self.upper()),
    {
        let lower = self.lower_bound as i64;
        let upper = self.upper_bound as i64;
        let width = (if upper >= lower { upper - lower } else { lower - upper }) as u64;
        let offset = value - self.lower_bound as i64;
        let rem: u64 = if offset >= 0 {
            (offset as u64) % width
        } else {
            let back = ((-offset) as u64) % width;
            if back == 0 {
                0
            } else {
                width - back
            }
        };
        proof {
            let w = width as int;
            let o = offset as int;
            if o < 0 {
                let q = (-o) / w;
                let m = (-o) % w;
                vstd::arithmetic::div_mod::lemma_fundamental_div_mod(-o, w);
                if m == 0 {
                    assert(o == (-q) * w + 0) by (nonlinear_arith)
                        requires
                            -o == w * q + m,
                            m == 0,
                    ;
                    vstd::arithmetic::div_mod::lemma_fundamental_div_mod_converse(o, w, -q, 0);
                } else {
                    assert(o == (-q - 1) * w + (w - m)) by (nonlinear_arith)
                        requires
                            -o == w * q + m,
                    ;
                    vstd::arithmetic::div_mod::lemma_fundamental_div_mod_converse(o, w, -q - 1, w - m);
                }
            }
            assert(rem == (value - self.lower()) % span(self.lower(), self.upper()));
        }
        Ring { value: (rem as i64 + self.lower_bound as i64) as i32, ..*self }
    }

    /// The same ring holding `value` wrapped into its range.
    pub fn set(&self, value: i32) -> (r: Ring)
        requires
            self.can_wrap(),
        ensures
            r.lower() == self.lower(),
            r.upper() == self.upper(),
            r.value_spec() == wrap_into(value as int, self.lower(), self.upper()),
    {
        self.wrapped(value as i64)
    }

    pub fn get(&self) -> (r: i32)
        ensures
            r == self.value_spec(),
    {
        self.value
    }
}

/// A ring spanning all of `i32`, holding `value`.
impl From<i32> for Ring {
    fn from(value: i32) -> (r: Ring) {
        Ring { lower_bound: i32::MIN, upper_bound: i32::MAX, value }
    }
}

impl vstd::std_specs::convert::FromSpecImpl<i32> for Ring {
    open spec fn obeys_from_spec() -> bool {
        true
    }

    closed spec fn from_spec(value: i32) -> Ring {
        Ring { lower_bound: i32::MIN, upper_bound: i32::MAX, value }
    }
}

impl From<Ring> for i32 {
    fn from(ring: Ring) -> (r: i32) {
        ring.value
    }
}

impl vstd::std_specs::convert::FromSpecImpl<Ring> for i32 {
    open spec fn obeys_from_spec() -> bool {
        true
    }

    open spec fn from_spec(ring: Ring) -> i32 {
        ring.value_spec() as i32
    }
}

impl std::ops::Add for Ring {
    type Output = Ring;

    fn add(self, rhs: Ring) -> Ring {
        self.wrapped(self.value as i64 + rhs.value as i64)
    }
}

impl vstd::std_specs::ops::AddSpecImpl for Ring {
    open spec fn obeys_add_spec() -> bool {
        true
    }

    open spec fn add_req(self, rhs: Ring) -> bool {
        self.can_wrap()
    }

    closed spec fn add_spec(self, rhs: Ring) -> Ring {
        Ring {
            value: wrap_into(self.value + rhs.value, self.lower_bound as int, self.upper_bound as int) as i32,
            ..self
        }
    }
}

/// Leaves a ring whose bounds cannot wrap (see `wrappable`) as it is.
impl std::ops::AddAssign for Ring {
    fn add_assign(&mut self, rhs: Ring) {
        if self.wraps() {
            *self = *self + rhs;
        }
    }
}

impl std::ops::Sub for Ring {
    type Output = Ring;

    fn sub(self, rhs: Ring) -> Ring {
        self.wrapped(self.value as i64 - rhs.value as i64)
    }
}

impl vstd::std_specs::ops::SubSpecImpl for Ring {
    open spec fn obeys_sub_spec() -> bool {
        true
    }

    open spec fn sub_req(self, rhs: Ring) -> bool {
        self.can_wrap()
    }

    closed spec fn sub_spec(self, rhs: Ring) -> Ring {
        Ring {
            value: wrap_into(self.value - rhs.value, self.lower_bound as int, self.upper_bound as int) as i32,
            ..self
        }
    }
}

/// Leaves a ring whose bounds cannot wrap (see `wrappable`) as it is.
impl std::ops::SubAssign for Ring {
    fn sub_assign(&mut self, rhs: Ring) {
        if self.wraps() {
            *self = *self - rhs;
        }
    }
}

} // verus!
