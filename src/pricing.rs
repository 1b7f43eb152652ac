//! The pricing state and the two actions on it: updating one input field from its text, and
//! recomputing the four outputs from the inputs.

use vstd::prelude::*;
use crate::money::{
    checked_add, checked_div, checked_mul, decimal_product, decimal_quotient, decimal_sum,
    parse_money_spec, parse_percentage_spec, ErrorKind, MonetaryAmount, PercentageRate, MAX_MANTISSA, MAX_SCALE,
};
use crate::text::{int_field_value, parse_int_field};

verus! {

/// The five input fields.
#[derive(Clone, Copy, Debug, PartialEq, Eq, Structural)]
pub enum Field {
    PinQuantity,
    PinCost,
    HoursWorked,
    HourlyWage,
    OverheadPercentage,
}

/// An action on the pricing state.
#[derive(Debug)]
pub enum Msg {
    /// The text of one input field changed.
    Update(Field, String),
    /// Recompute the outputs from the inputs.
    Calculate,
}

/// The pricing state: five inputs, and four outputs derived from them at the last recompute.
#[derive(Clone, Copy, Debug, PartialEq, Eq, Structural)]
pub struct Model {
    pub hourly_wage: MonetaryAmount,
    pub hours_worked: i32,
    pub overhead_percentage: PercentageRate,
    pub pin_cost: MonetaryAmount,
    pub pin_quantity: i32,
    pub pin_unit_cost: MonetaryAmount,
    pub suggested_retail_cost: MonetaryAmount,
    pub total_labour_cost: MonetaryAmount,
    pub wholesale_unit_price: MonetaryAmount,
}

fn amount_is_valid(a: &MonetaryAmount) -> (r: bool)
    ensures
        r == a.wf(),
{
    -MAX_MANTISSA <= a.mantissa && a.mantissa <= MAX_MANTISSA && a.scale <= MAX_SCALE
}

fn rate_is_valid(p: &PercentageRate) -> (r: bool)
    ensures
        r == p.wf(),
{
    -MAX_MANTISSA <= p.mantissa && p.mantissa <= MAX_MANTISSA && p.scale <= MAX_SCALE
}

/// The overhead percentage that a new state starts with.
pub const DEFAULT_OVERHEAD_PERCENT: i64 = 15;

pub open spec fn amount_pair(a: MonetaryAmount) -> (int, int) {
    (a.mantissa as int, a.scale as int)
}

pub open spec fn rate_pair(p: PercentageRate) -> (int, int) {
    (p.mantissa as int, p.scale as int)
}

pub open spec fn amount_of(d: (int, int)) -> MonetaryAmount {
    MonetaryAmount { mantissa: d.0 as i128, scale: d.1 as u32 }
}

/// The quantity that per-unit prices are divided by: the entered one, or 1 where it is not
/// positive.
pub open spec fn effective_quantity(q: i32) -> int {
    if q > 0 {
        q as int
    } else {
        1
    }
}

/// The factor that the subtotal is marked up by: 0.1 plus the overhead percentage over 10.
pub open spec fn markup_multiplier(overhead: PercentageRate) -> Option<(int, int)> {
    match decimal_quotient(rate_pair(overhead), (100, 1)) {
        Some(x) => decimal_sum((1, 1), x),
        None => None,
    }
}

/// The state with its four outputs recomputed from its inputs, where every step of the
/// arithmetic stays within the decimal range.
pub open spec fn recomputed(m: Model) -> Option<Model> {
    let q = (effective_quantity(m.pin_quantity), 0int);
    let unit = decimal_quotient(amount_pair(m.pin_cost), q);
    let labour = decimal_product(amount_pair(m.hourly_wage), (m.hours_worked as int, 0int));
    let subtotal = match labour {
        Some(l) => decimal_sum(amount_pair(m.pin_cost), l),
        None => None,
    };
    let total = match (subtotal, markup_multiplier(m.overhead_percentage)) {
        (Some(s), Some(k)) => decimal_product(s, k),
        _ => None,
    };
    let wholesale = match total {
        Some(t) => decimal_quotient(t, q),
        None => None,
    };
    let retail = match wholesale {
        Some(w) => decimal_product(w, (2, 0)),
        None => None,
    };
    match (unit, labour, wholesale, retail) {
        (Some(u), Some(l), Some(w), Some(r)) => Some(
            Model {
                pin_unit_cost: amount_of(u),
                total_labour_cost: amount_of(l),
                wholesale_unit_price: amount_of(w),
                suggested_retail_cost: amount_of(r),
                ..m
            },
        ),
        _ => None,
    }
}

/// The state after a recompute: all four outputs replaced, or, where the arithmetic leaves
/// the decimal range, none of them.
pub open spec fn calculated(m: Model) -> Model {
    match recomputed(m) {
        Some(n) => n,
        None => m,
    }
}

/// The state after a field update, and what the update reports.
pub open spec fn field_updated(m: Model, field: Field, text: Seq<char>) -> (
    Model,
    Result<(), ErrorKind>,
) {
    match field {
        Field::PinQuantity => (Model { pin_quantity: int_field_value(text) as i32, ..m }, Ok(())),
        Field::HoursWorked => (Model { hours_worked: int_field_value(text) as i32, ..m }, Ok(())),
        Field::PinCost => match parse_money_spec(text) {
            Ok(a) => (Model { pin_cost: a, ..m }, Ok(())),
            Err(e) => (m, Err(e)),
        },
        Field::HourlyWage => match parse_money_spec(text) {
            Ok(a) => (Model { hourly_wage: a, ..m }, Ok(())),
            Err(e) => (m, Err(e)),
        },
        Field::OverheadPercentage => match parse_percentage_spec(text) {
            Ok(p) => (Model { overhead_percentage: p, ..m }, Ok(())),
            Err(e) => (m, Err(e)),
        },
    }
}

/// The state after an action, and what the action reports.
pub open spec fn dispatched(m: Model, msg: Msg) -> (Model, Result<(), ErrorKind>) {
    match msg {
        Msg::Update(field, text) => field_updated(m, field, text@),
        Msg::Calculate => (calculated(m), Ok(())),
    }
}

/// The four outputs of a state.
pub open spec fn outputs(m: Model) -> (MonetaryAmount, MonetaryAmount, MonetaryAmount, MonetaryAmount) {
    (m.pin_unit_cost, m.total_labour_cost, m.wholesale_unit_price, m.suggested_retail_cost)
}

impl Model {
    pub open spec fn wf(&self) -> bool {
        &&& self.hourly_wage.wf()
        &&& self.overhead_percentage.wf()
        &&& self.pin_cost.wf()
        &&& self.pin_unit_cost.wf()
        &&& self.suggested_retail_cost.wf()
        &&& self.total_labour_cost.wf()
        &&& self.wholesale_unit_price.wf()
    }

    /// Whether every amount and the rate of the state are decimals.
    pub fn is_valid(&self) -> (r: bool)
        ensures
            r == self.wf(),
    {
        amount_is_valid(&self.hourly_wage) && rate_is_valid(&self.overhead_percentage)
            && amount_is_valid(&self.pin_cost) && amount_is_valid(&self.pin_unit_cost)
            && amount_is_valid(&self.suggested_retail_cost) && amount_is_valid(
            &self.total_labour_cost,
        ) && amount_is_valid(&self.wholesale_unit_price)
    }

    /// A new state: every amount zero, quantities zero, and the given overhead percentage.
    pub fn init_with_overhead(overhead: PercentageRate) -> (r: Model)
        requires
            overhead.wf(),
        ensures
            r == Model::init_with_overhead_spec(overhead),
            r.wf(),
    {
        Model {
            hourly_wage: MonetaryAmount::zero(),
            hours_worked: 0,
            overhead_percentage: overhead,
            pin_cost: MonetaryAmount::zero(),
            pin_quantity: 0,
            pin_unit_cost: MonetaryAmount::zero(),
            suggested_retail_cost: MonetaryAmount::zero(),
            total_labour_cost: MonetaryAmount::zero(),
            wholesale_unit_price: MonetaryAmount::zero(),
        }
    }

    /// A new state with the default overhead of fifteen percent.
    pub fn init() -> (r: Model)
        ensures
            r == Model::init_with_overhead_spec(
                PercentageRate { mantissa: DEFAULT_OVERHEAD_PERCENT as i128, scale: 0 },
            ),
            r.wf(),
    {
        Model::init_with_overhead(PercentageRate::from_percent(DEFAULT_OVERHEAD_PERCENT))
    }

    pub open spec fn init_with_overhead_spec(overhead: PercentageRate) -> Model {
        Model {
            hourly_wage: MonetaryAmount { mantissa: 0, scale: 2 },
            hours_worked: 0,
            overhead_percentage: overhead,
            pin_cost: MonetaryAmount { mantissa: 0, scale: 2 },
            pin_quantity: 0,
            pin_unit_cost: MonetaryAmount { mantissa: 0, scale: 2 },
            suggested_retail_cost: MonetaryAmount { mantissa: 0, scale: 2 },
            total_labour_cost: MonetaryAmount { mantissa: 0, scale: 2 },
            wholesale_unit_price: MonetaryAmount { mantissa: 0, scale: 2 },
        }
    }

    /// Recomputes the four outputs from the inputs, all together.
    pub fn calculate(&mut self)
        requires
            old(self).wf(),
        ensures
            *final(self) == calculated(*old(self)),
            final(self).wf(),
    {
        let q: i128 = if self.pin_quantity > 0 { self.pin_quantity as i128 } else { 1 };
        let q = (q, 0u32);
        let cost = (self.pin_cost.mantissa, self.pin_cost.scale);
        let wage = (self.hourly_wage.mantissa, self.hourly_wage.scale);
        let hours = (self.hours_worked as i128, 0u32);
        let overhead = (self.overhead_percentage.mantissa, self.overhead_percentage.scale);
        let unit = checked_div(cost, q);
        let labour = checked_mul(wage, hours);
        let subtotal = match labour {
            Some(l) => checked_add(cost, l),
            None => None,
        };
        let multiplier = match checked_div(overhead, (100, 1)) {
            Some(x) => checked_add((1, 1), x),
            None => None,
        };
        let total = match (subtotal, multiplier) {
            (Some(s), Some(k)) => checked_mul(s, k),
            _ => None,
        };
        let wholesale = match total {
            Some(t) => checked_div(t, q),
            None => None,
        };
        let retail = match wholesale {
            Some(w) => checked_mul(w, (2, 0)),
            None => None,
        };
        match (unit, labour, wholesale, retail) {
            (Some(u), Some(l), Some(w), Some(r)) => {
                self.pin_unit_cost = MonetaryAmount { mantissa: u.0, scale: u.1 };
                self.total_labour_cost = MonetaryAmount { mantissa: l.0, scale: l.1 };
                self.wholesale_unit_price = MonetaryAmount { mantissa: w.0, scale: w.1 };
                self.suggested_retail_cost = MonetaryAmount { mantissa: r.0, scale: r.1 };
            },
            _ => {},
        }
    }

    /// Sets one input field from its text. Integer fields take 0 from text that is no
    /// integer; a monetary or percentage text that does not parse leaves the state as it was
    /// and reports why.
    pub fn update_field(&mut self, field: Field, text: &str) -> (r: Result<(), ErrorKind>)
        requires
            old(self).wf(),
        ensures
            (*final(self), r) == field_updated(*old(self), field, text@),
            final(self).wf(),
    {
        match field {
            Field::PinQuantity => {
                self.pin_quantity = parse_int_field(text);
                Ok(())
            },
            Field::HoursWorked => {
                self.hours_worked = parse_int_field(text);
                Ok(())
            },
            Field::PinCost => match MonetaryAmount::parse(text) {
                Ok(a) => {
                    self.pin_cost = a;
                    Ok(())
                },
                Err(e) => Err(e),
            },
            Field::HourlyWage => match MonetaryAmount::parse(text) {
                Ok(a) => {
                    self.hourly_wage = a;
                    Ok(())
                },
                Err(e) => Err(e),
            },
            Field::OverheadPercentage => match PercentageRate::parse(text) {
                Ok(p) => {
                    self.overhead_percentage = p;
                    Ok(())
                },
                Err(e) => Err(e),
            },
        }
    }

    /// Applies one action to the state.
    pub fn update(&mut self, msg: Msg) -> (r: Result<(), ErrorKind>)
        requires
            old(self).wf(),
        ensures
            (*final(self), r) == dispatched(*old(self), msg),
            final(self).wf(),
    {
        match msg {
            Msg::Update(field, text) => self.update_field(field, text.as_str()),
            Msg::Calculate => {
                self.calculate();
                Ok(())
            },
        }
    }
}

} // verus!

verus! {

/// Recomputing twice in a row gives the state that recomputing once gives.
pub proof fn lemma_calculate_idempotent(m: Model)
    ensures
        calculated(calculated(m)) == calculated(m),
{
}

/// A quantity of zero or less prices exactly as a quantity of one. Take two states that agree
/// on cost, hours, wage and overhead, one with a quantity of zero or less and one with a
/// quantity of one: a recompute succeeds on both or on neither, and it leaves both with the
/// same outputs where it succeeds, or where their outputs were already the same.
pub proof fn lemma_quantity_floor(m1: Model, m2: Model)
    requires
        m1.pin_cost == m2.pin_cost,
        m1.hours_worked == m2.hours_worked,
        m1.hourly_wage == m2.hourly_wage,
        m1.overhead_percentage == m2.overhead_percentage,
        m1.pin_quantity <= 0,
        m2.pin_quantity == 1,
    ensures
        recomputed(m1) is Some <==> recomputed(m2) is Some,
        recomputed(m1) is Some ==> outputs(calculated(m1)) == outputs(calculated(m2)),
        outputs(m1) == outputs(m2) ==> outputs(calculated(m1)) == outputs(calculated(m2)),
{
}

/// Monetary text that does not parse leaves the whole state unchanged, the monetary field
/// included, and is reported as invalid monetary input.
pub proof fn lemma_bad_money_text_kept_out(m: Model, text: Seq<char>)
    requires
        parse_money_spec(text) is Err,
    ensures
        field_updated(m, Field::PinCost, text) == (m, Err::<(), ErrorKind>(
            ErrorKind::InvalidMonetaryInput,
        )),
        field_updated(m, Field::HourlyWage, text) == (m, Err::<(), ErrorKind>(
            ErrorKind::InvalidMonetaryInput,
        )),
{
}

/// A percentage text that does not parse leaves the state unchanged and is reported.
pub proof fn lemma_bad_percentage_text_kept_out(m: Model, text: Seq<char>)
    requires
        parse_percentage_spec(text) is Err,
    ensures
        field_updated(m, Field::OverheadPercentage, text) == (m, Err::<(), ErrorKind>(
            ErrorKind::InvalidPercentage,
        )),
{
}

/// Whether two texts hold the same characters.
fn same_text(a: &str, b: &str) -> (r: bool)
    ensures
        r == (a@ == b@),
{
    let n = a.unicode_len();
    if n != b.unicode_len() {
        return false;
    }
    let mut i: usize = 0;
    while i < n
        invariant
            n == a@.len() == b@.len(),
            0 <= i <= n,
            forall|j: int| 0 <= j < i ==> a@[j] == b@[j],
        decreases n - i,
    {
        if a.get_char(i) != b.get_char(i) {
            return false;
        }
        i = i + 1;
    }
    assert(a@ =~= b@);
    true
}

/// The field that a key names.
pub open spec fn field_of_key(key: Seq<char>) -> Result<Field, ErrorKind> {
    if key == "pin_quantity"@ {
        Ok(Field::PinQuantity)
    } else if key == "pin_cost"@ {
        Ok(Field::PinCost)
    } else if key == "hours_worked"@ {
        Ok(Field::HoursWorked)
    } else if key == "hourly_wage"@ {
        Ok(Field::HourlyWage)
    } else if key == "overhead_percentage"@ {
        Ok(Field::OverheadPercentage)
    } else {
        Err(ErrorKind::UnrecognizedField)
    }
}

impl Field {
    /// The field that a key names (`pin_quantity`, `pin_cost`, `hours_worked`,
    /// `hourly_wage`, `overhead_percentage`); any other key is unrecognized.
    pub fn from_key(key: &str) -> (r: Result<Field, ErrorKind>)
        ensures
            r == field_of_key(key@),
    {
        if same_text(key, "pin_quantity") {
            Ok(Field::PinQuantity)
        } else if same_text(key, "pin_cost") {
            Ok(Field::PinCost)
        } else if same_text(key, "hours_worked") {
            Ok(Field::HoursWorked)
        } else if same_text(key, "hourly_wage") {
            Ok(Field::HourlyWage)
        } else if same_text(key, "overhead_percentage") {
            Ok(Field::OverheadPercentage)
        } else {
            Err(ErrorKind::UnrecognizedField)
        }
    }
}

} // verus!
