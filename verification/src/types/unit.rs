//! Numeric units: coordinates, money, cargo amounts, time.
use vstd::prelude::*;
use crate::types::error::{TransportError, underflow_message, underflow_text};

verus! {

/// Map coordinate in tiles (signed for relative positioning).
#[derive(Debug, Copy, Clone, PartialEq, Eq, Structural, Hash)]
pub struct Coord(pub i16);

impl Coord {
    pub fn zero() -> (r: Coord)
        ensures
            r.0 == 0,
    {
        Coord(0i16)
    }
    pub fn max_value() -> (r: Coord)
        ensures
            r.0 == 32767,
    {
        Coord(32767i16)
    }
    pub fn min_value() -> (r: Coord)
        ensures
            r.0 == -32768,
    {
        Coord(-32768i16)
    }
}

impl std::ops::Add for Coord {
    type Output = Coord;

    fn add(self, other: Coord) -> (r: Coord) {
        Coord(self.0 + other.0)
    }
}

impl vstd::std_specs::ops::AddSpecImpl for Coord {
    open spec fn obeys_add_spec() -> bool {
        true
    }

    open spec fn add_req(self, rhs: Coord) -> bool {
        i16::MIN <= self.0 + rhs.0 <= i16::MAX
    }

    open spec fn add_spec(self, rhs: Coord) -> Coord {
        Coord((self.0 + rhs.0) as i16)
    }
}

impl std::ops::Sub for Coord {
    type Output = Coord;

    fn sub(self, other: Coord) -> (r: Coord) {
        Coord(self.0 - other.0)
    }
}

impl vstd::std_specs::ops::SubSpecImpl for Coord {
    open spec fn obeys_sub_spec() -> bool {
        true
    }

    open spec fn sub_req(self, rhs: Coord) -> bool {
        i16::MIN <= self.0 - rhs.0 <= i16::MAX
    }

    open spec fn sub_spec(self, rhs: Coord) -> Coord {
        Coord((self.0 - rhs.0) as i16)
    }
}

/// Simulation speed in tiles per tick, held as the IEEE-754 bit pattern of an `f32`
/// (the simulation only stores and compares it; arithmetic on it happens outside).
#[derive(Debug, Copy, Clone, PartialEq, Eq, Structural)]
pub struct Speed(pub u32);

impl Speed {
    /// Bit pattern of `0.0f32`.
    pub fn zero() -> (r: Speed)
        ensures
            r.0 == 0,
    {
        Speed(0u32)
    }
    /// Bit pattern of `f32::MAX`.
    pub fn max_value() -> (r: Speed)
        ensures
            r.0 == 2139095039,
    {
        Speed(2139095039u32)
    }
}

/// Money in the smallest currency unit (cents).
#[derive(Debug, Copy, Clone, PartialEq, Eq, Structural, Hash)]
pub struct Money(pub i64);

/// Quotient of `a / d` rounded toward zero, as Rust's integer division computes it.
pub open spec fn trunc_div(a: int, d: int) -> int {
    if a >= 0 && d > 0 {
        a / d
    } else if a < 0 && d < 0 {
        (-a) / (-d)
    } else if a < 0 {
        -((-a) / d)
    } else {
        -(a / (-d))
    }
}

pub open spec fn in_i64(v: int) -> bool {
    i64::MIN <= v <= i64::MAX
}

pub open spec fn in_u32(v: int) -> bool {
    0 <= v <= u32::MAX
}

impl Money {
    pub fn zero() -> (r: Money)
        ensures
            r.0 == 0,
    {
        Money(0i64)
    }
    pub fn max_value() -> (r: Money)
        ensures
            r.0 == 9223372036854775807,
    {
        Money(9223372036854775807i64)
    }
    pub fn min_value() -> (r: Money)
        ensures
            r.0 == -9223372036854775808,
    {
        Money(-9223372036854775808i64)
    }

    pub fn checked_add(self, other: Money) -> (r: Option<Money>)
        ensures
            r == (if in_i64(self.0 + other.0) { Some(Money((self.0 + other.0) as i64)) } else { None }),
    {
        match self.0.checked_add(other.0) {
            Some(v) => Some(Money(v)),
            None => None,
        }
    }

    pub fn checked_sub(self, other: Money) -> (r: Option<Money>)
        ensures
            r == (if in_i64(self.0 - other.0) { Some(Money((self.0 - other.0) as i64)) } else { None }),
    {
        match self.0.checked_sub(other.0) {
            Some(v) => Some(Money(v)),
            None => None,
        }
    }

    pub fn checked_mul(self, multiplier: i64) -> (r: Option<Money>)
        ensures
            r == (if in_i64(self.0 * multiplier) { Some(Money((self.0 * multiplier) as i64)) } else { None }),
    {
        match self.0.checked_mul(multiplier) {
            Some(v) => Some(Money(v)),
            None => None,
        }
    }

    /// Division rounded toward zero; `None` for a zero divisor or when the quotient overflows.
    pub fn checked_div(self, divisor: i64) -> (r: Option<Money>)
        ensures
            r == (if divisor == 0 || !in_i64(trunc_div(self.0 as int, divisor as int)) {
                None
            } else {
                Some(Money(trunc_div(self.0 as int, divisor as int) as i64))
            }),
    {
        if divisor == 0 {
            None
        } else {
            match self.0.checked_div(divisor) {
                Some(v) => Some(Money(v)),
                None => None,
            }
        }
    }

    pub fn saturating_add(self, other: Money) -> (r: Money)
        ensures
            r.0 == (if self.0 + other.0 > i64::MAX {
                i64::MAX as int
            } else if self.0 + other.0 < i64::MIN {
                i64::MIN as int
            } else {
                self.0 + other.0
            }),
    {
        match self.0.checked_add(other.0) {
            Some(v) => Money(v),
            None => if other.0 > 0 { Money(i64::MAX) } else { Money(i64::MIN) },
        }
    }

    pub fn saturating_sub(self, other: Money) -> (r: Money)
        ensures
            r.0 == (if self.0 - other.0 > i64::MAX {
                i64::MAX as int
            } else if self.0 - other.0 < i64::MIN {
                i64::MIN as int
            } else {
                self.0 - other.0
            }),
    {
        match self.0.checked_sub(other.0) {
            Some(v) => Money(v),
            None => if other.0 < 0 { Money(i64::MAX) } else { Money(i64::MIN) },
        }
    }

    /// Subtraction that reports an underflow error instead of overflowing.
    pub fn sub_checked(self, other: Money) -> (r: Result<Money, TransportError>)
        ensures
            in_i64(self.0 - other.0) <==> r is Ok,
            r matches Ok(m) ==> m.0 == self.0 - other.0,
            r matches Err(e) ==> (e matches TransportError::Underflow(msg)
                && msg@ == underflow_text("Money"@, self.0 as int, other.0 as int)),
    {
        match self.checked_sub(other) {
            Some(m) => Ok(m),
            None => Err(TransportError::Underflow(underflow_message("Money", self.0, other.0))),
        }
    }
}

impl std::ops::Add for Money {
    type Output = Money;

    fn add(self, other: Money) -> (r: Money) {
        Money(self.0 + other.0)
    }
}

impl vstd::std_specs::ops::AddSpecImpl for Money {
    open spec fn obeys_add_spec() -> bool {
        true
    }

    open spec fn add_req(self, rhs: Money) -> bool {
        in_i64(self.0 + rhs.0)
    }

    open spec fn add_spec(self, rhs: Money) -> Money {
        Money((self.0 + rhs.0) as i64)
    }
}

impl std::ops::Sub for Money {
    type Output = Money;

    fn sub(self, other: Money) -> (r: Money) {
        Money(self.0 - other.0)
    }
}

impl vstd::std_specs::ops::SubSpecImpl for Money {
    open spec fn obeys_sub_spec() -> bool {
        true
    }

    open spec fn sub_req(self, rhs: Money) -> bool {
        in_i64(self.0 - rhs.0)
    }

    open spec fn sub_spec(self, rhs: Money) -> Money {
        Money((self.0 - rhs.0) as i64)
    }
}

impl std::ops::Mul<i64> for Money {
    type Output = Money;

    fn mul(self, multiplier: i64) -> (r: Money) {
        Money(self.0 * multiplier)
    }
}

impl vstd::std_specs::ops::MulSpecImpl<i64> for Money {
    open spec fn obeys_mul_spec() -> bool {
        true
    }

    open spec fn mul_req(self, rhs: i64) -> bool {
        in_i64(self.0 * rhs)
    }

    open spec fn mul_spec(self, rhs: i64) -> Money {
        Money((self.0 * rhs) as i64)
    }
}

impl std::ops::Div<i64> for Money {
    type Output = Money;

    fn div(self, divisor: i64) -> (r: Money) {
        match self.0.checked_div(divisor) {
            Some(v) => Money(v),
            None => Money(0),
        }
    }
}

impl vstd::std_specs::ops::DivSpecImpl<i64> for Money {
    open spec fn obeys_div_spec() -> bool {
        true
    }

    open spec fn div_req(self, rhs: i64) -> bool {
        rhs != 0 && in_i64(trunc_div(self.0 as int, rhs as int))
    }

    open spec fn div_spec(self, rhs: i64) -> Money {
        Money(trunc_div(self.0 as int, rhs as int) as i64)
    }
}

/// Cargo amount in the smallest unit (liters for fluids, units for discrete goods).
#[derive(Debug, Copy, Clone, PartialEq, Eq, Structural, Hash)]
pub struct CargoAmount(pub u32);

impl CargoAmount {
    pub fn zero() -> (r: CargoAmount)
        ensures
            r.0 == 0,
    {
        CargoAmount(0u32)
    }
    pub fn max_value() -> (r: CargoAmount)
        ensures
            r.0 == 4294967295,
    {
        CargoAmount(4294967295u32)
    }

    pub fn checked_add(self, other: CargoAmount) -> (r: Option<CargoAmount>)
        ensures
            r == (if in_u32(self.0 + other.0) { Some(CargoAmount((self.0 + other.0) as u32)) } else { None }),
    {
        match self.0.checked_add(other.0) {
            Some(v) => Some(CargoAmount(v)),
            None => None,
        }
    }

    pub fn checked_sub(self, other: CargoAmount) -> (r: Option<CargoAmount>)
        ensures
            r == (if self.0 >= other.0 { Some(CargoAmount((self.0 - other.0) as u32)) } else { None }),
    {
        match self.0.checked_sub(other.0) {
            Some(v) => Some(CargoAmount(v)),
            None => None,
        }
    }

    pub fn saturating_add(self, other: CargoAmount) -> (r: CargoAmount)
        ensures
            r.0 == (if self.0 + other.0 > u32::MAX { u32::MAX as int } else { self.0 + other.0 }),
    {
        CargoAmount(self.0.saturating_add(other.0))
    }

    pub fn saturating_sub(self, other: CargoAmount) -> (r: CargoAmount)
        ensures
            r.0 == (if self.0 >= other.0 { self.0 - other.0 } else { 0 }),
    {
        CargoAmount(self.0.saturating_sub(other.0))
    }

    /// Subtraction that reports an underflow error when `other` exceeds `self`.
    pub fn sub_checked(self, other: CargoAmount) -> (r: Result<CargoAmount, TransportError>)
        ensures
            self.0 >= other.0 <==> r is Ok,
            r matches Ok(m) ==> m.0 == self.0 - other.0,
            r matches Err(e) ==> (e matches TransportError::Underflow(msg)
                && msg@ == underflow_text("CargoAmount"@, self.0 as int, other.0 as int)),
    {
        match self.checked_sub(other) {
            Some(m) => Ok(m),
            None => Err(TransportError::Underflow(underflow_message("CargoAmount", self.0 as i64, other.0 as i64))),
        }
    }
}

impl std::ops::Add for CargoAmount {
    type Output = CargoAmount;

    fn add(self, other: CargoAmount) -> (r: CargoAmount) {
        CargoAmount(self.0 + other.0)
    }
}

impl vstd::std_specs::ops::AddSpecImpl for CargoAmount {
    open spec fn obeys_add_spec() -> bool {
        true
    }

    open spec fn add_req(self, rhs: CargoAmount) -> bool {
        in_u32(self.0 + rhs.0)
    }

    open spec fn add_spec(self, rhs: CargoAmount) -> CargoAmount {
        CargoAmount((self.0 + rhs.0) as u32)
    }
}

impl std::ops::Sub for CargoAmount {
    type Output = CargoAmount;

    fn sub(self, other: CargoAmount) -> (r: CargoAmount) {
        CargoAmount(self.0 - other.0)
    }
}

impl vstd::std_specs::ops::SubSpecImpl for CargoAmount {
    open spec fn obeys_sub_spec() -> bool {
        true
    }

    open spec fn sub_req(self, rhs: CargoAmount) -> bool {
        self.0 >= rhs.0
    }

    open spec fn sub_spec(self, rhs: CargoAmount) -> CargoAmount {
        CargoAmount((self.0 - rhs.0) as u32)
    }
}

/// Temperature in hundredths of degrees Celsius.
#[derive(Debug, Copy, Clone, PartialEq, Eq, Structural, Hash)]
pub struct Temperature(pub i32);

impl Temperature {
    pub fn zero() -> (r: Temperature)
        ensures
            r.0 == 0,
    {
        Temperature(0i32)
    }
    /// 0.00 degrees Celsius
    pub fn freezing() -> (r: Temperature)
        ensures
            r.0 == 0,
    {
        Temperature(0i32)
    }
    /// 100.00 degrees Celsius
    pub fn boiling() -> (r: Temperature)
        ensures
            r.0 == 10000,
    {
        Temperature(10000i32)
    }
}

impl std::ops::Add for Temperature {
    type Output = Temperature;

    fn add(self, other: Temperature) -> (r: Temperature) {
        Temperature(self.0 + other.0)
    }
}

impl vstd::std_specs::ops::AddSpecImpl for Temperature {
    open spec fn obeys_add_spec() -> bool {
        true
    }

    open spec fn add_req(self, rhs: Temperature) -> bool {
        i32::MIN <= self.0 + rhs.0 <= i32::MAX
    }

    open spec fn add_spec(self, rhs: Temperature) -> Temperature {
        Temperature((self.0 + rhs.0) as i32)
    }
}

impl std::ops::Sub for Temperature {
    type Output = Temperature;

    fn sub(self, other: Temperature) -> (r: Temperature) {
        Temperature(self.0 - other.0)
    }
}

impl vstd::std_specs::ops::SubSpecImpl for Temperature {
    open spec fn obeys_sub_spec() -> bool {
        true
    }

    open spec fn sub_req(self, rhs: Temperature) -> bool {
        i32::MIN <= self.0 - rhs.0 <= i32::MAX
    }

    open spec fn sub_spec(self, rhs: Temperature) -> Temperature {
        Temperature((self.0 - rhs.0) as i32)
    }
}

/// Time in simulation ticks.
#[derive(Debug, Copy, Clone, PartialEq, Eq, Structural, Hash)]
pub struct Ticks(pub u32);

impl Ticks {
    pub fn zero() -> (r: Ticks)
        ensures
            r.0 == 0,
    {
        Ticks(0u32)
    }
    pub fn max_value() -> (r: Ticks)
        ensures
            r.0 == 4294967295,
    {
        Ticks(4294967295u32)
    }

    pub fn checked_add(self, other: Ticks) -> (r: Option<Ticks>)
        ensures
            r == (if in_u32(self.0 + other.0) { Some(Ticks((self.0 + other.0) as u32)) } else { None }),
    {
        match self.0.checked_add(other.0) {
            Some(v) => Some(Ticks(v)),
            None => None,
        }
    }

    pub fn checked_sub(self, other: Ticks) -> (r: Option<Ticks>)
        ensures
            r == (if self.0 >= other.0 { Some(Ticks((self.0 - other.0) as u32)) } else { None }),
    {
        match self.0.checked_sub(other.0) {
            Some(v) => Some(Ticks(v)),
            None => None,
        }
    }

    pub fn saturating_add(self, other: Ticks) -> (r: Ticks)
        ensures
            r.0 == (if self.0 + other.0 > u32::MAX { u32::MAX as int } else { self.0 + other.0 }),
    {
        Ticks(self.0.saturating_add(other.0))
    }

    pub fn saturating_sub(self, other: Ticks) -> (r: Ticks)
        ensures
            r.0 == (if self.0 >= other.0 { self.0 - other.0 } else { 0 }),
    {
        Ticks(self.0.saturating_sub(other.0))
    }

    /// Advance by one tick; at `u32::MAX` the counter is left unchanged and an overflow
    /// error is returned.
    pub fn advance_checked(&mut self) -> (r: Result<Ticks, TransportError>)
        ensures
            old(self).0 < u32::MAX <==> r is Ok,
            r matches Ok(t) ==> t.0 == old(self).0 + 1 && final(self).0 == t.0,
            r matches Err(e) ==> final(self).0 == old(self).0
                && (e matches TransportError::ArithmeticOverflow(msg)
                && msg@ == "Ticks overflowed u32::MAX"@),
    {
        if self.0 == u32::MAX {
            let msg = "Ticks overflowed u32::MAX".to_string();
            proof {
                broadcast use vstd::string::to_string_from_display_ensures_for_str;
            }
            return Err(TransportError::ArithmeticOverflow(msg));
        }
        let next = self.0 + 1;
        self.0 = next;
        Ok(Ticks(next))
    }
}

impl std::ops::Add for Ticks {
    type Output = Ticks;

    fn add(self, other: Ticks) -> (r: Ticks) {
        Ticks(self.0 + other.0)
    }
}

impl vstd::std_specs::ops::AddSpecImpl for Ticks {
    open spec fn obeys_add_spec() -> bool {
        true
    }

    open spec fn add_req(self, rhs: Ticks) -> bool {
        in_u32(self.0 + rhs.0)
    }

    open spec fn add_spec(self, rhs: Ticks) -> Ticks {
        Ticks((self.0 + rhs.0) as u32)
    }
}

impl std::ops::Sub for Ticks {
    type Output = Ticks;

    fn sub(self, other: Ticks) -> (r: Ticks) {
        Ticks(self.0 - other.0)
    }
}

impl vstd::std_specs::ops::SubSpecImpl for Ticks {
    open spec fn obeys_sub_spec() -> bool {
        true
    }

    open spec fn sub_req(self, rhs: Ticks) -> bool {
        self.0 >= rhs.0
    }

    open spec fn sub_spec(self, rhs: Ticks) -> Ticks {
        Ticks((self.0 - rhs.0) as u32)
    }
}

/// One-dimensional distance in tiles.
#[derive(Debug, Copy, Clone, PartialEq, Eq, Structural, Hash)]
pub struct Distance(pub u32);

impl Distance {
    pub fn zero() -> (r: Distance)
        ensures
            r.0 == 0,
    {
        Distance(0u32)
    }
    pub fn max_value() -> (r: Distance)
        ensures
            r.0 == 4294967295,
    {
        Distance(4294967295u32)
    }
}

impl std::ops::Add for Distance {
    type Output = Distance;

    fn add(self, other: Distance) -> (r: Distance) {
        Distance(self.0 + other.0)
    }
}

impl vstd::std_specs::ops::AddSpecImpl for Distance {
    open spec fn obeys_add_spec() -> bool {
        true
    }

    open spec fn add_req(self, rhs: Distance) -> bool {
        in_u32(self.0 + rhs.0)
    }

    open spec fn add_spec(self, rhs: Distance) -> Distance {
        Distance((self.0 + rhs.0) as u32)
    }
}

impl std::ops::Sub for Distance {
    type Output = Distance;

    fn sub(self, other: Distance) -> (r: Distance) {
        Distance(self.0 - other.0)
    }
}

impl vstd::std_specs::ops::SubSpecImpl for Distance {
    open spec fn obeys_sub_spec() -> bool {
        true
    }

    open spec fn sub_req(self, rhs: Distance) -> bool {
        self.0 >= rhs.0
    }

    open spec fn sub_spec(self, rhs: Distance) -> Distance {
        Distance((self.0 - rhs.0) as u32)
    }
}

/// Cargo delivery payment in the smallest currency unit.
#[derive(Debug, Copy, Clone, PartialEq, Eq, Structural, Hash)]
pub struct Payment(pub i64);

impl Payment {
    pub fn zero() -> (r: Payment)
        ensures
            r.0 == 0,
    {
        Payment(0i64)
    }
    pub fn max_value() -> (r: Payment)
        ensures
            r.0 == 9223372036854775807,
    {
        Payment(9223372036854775807i64)
    }
    pub fn min_value() -> (r: Payment)
        ensures
            r.0 == -9223372036854775808,
    {
        Payment(-9223372036854775808i64)
    }
}

impl std::ops::Add for Payment {
    type Output = Payment;

    fn add(self, other: Payment) -> (r: Payment) {
        Payment(self.0 + other.0)
    }
}

impl vstd::std_specs::ops::AddSpecImpl for Payment {
    open spec fn obeys_add_spec() -> bool {
        true
    }

    open spec fn add_req(self, rhs: Payment) -> bool {
        in_i64(self.0 + rhs.0)
    }

    open spec fn add_spec(self, rhs: Payment) -> Payment {
        Payment((self.0 + rhs.0) as i64)
    }
}

impl std::ops::Sub for Payment {
    type Output = Payment;

    fn sub(self, other: Payment) -> (r: Payment) {
        Payment(self.0 - other.0)
    }
}

impl vstd::std_specs::ops::SubSpecImpl for Payment {
    open spec fn obeys_sub_spec() -> bool {
        true
    }

    open spec fn sub_req(self, rhs: Payment) -> bool {
        in_i64(self.0 - rhs.0)
    }

    open spec fn sub_spec(self, rhs: Payment) -> Payment {
        Payment((self.0 - rhs.0) as i64)
    }
}

} // verus!
