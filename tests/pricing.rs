use wholesale_pricing::money::{ErrorKind, MonetaryAmount, PercentageRate};
use wholesale_pricing::pricing::{Field, Model, Msg};
use wholesale_pricing::text::parse_int_field;

fn set(model: &mut Model, field: Field, text: &str) -> Result<(), ErrorKind> {
    model.update(Msg::Update(field, text.to_string()))
}

fn scenario(quantity: &str) -> Model {
    let mut m = Model::init();
    assert_eq!(set(&mut m, Field::PinQuantity, quantity), Ok(()));
    assert_eq!(set(&mut m, Field::PinCost, "$100.00"), Ok(()));
    assert_eq!(set(&mut m, Field::HoursWorked, "5"), Ok(()));
    assert_eq!(set(&mut m, Field::HourlyWage, "$20.00"), Ok(()));
    assert_eq!(set(&mut m, Field::OverheadPercentage, "15"), Ok(()));
    assert_eq!(m.update(Msg::Calculate), Ok(()));
    m
}

fn outputs(m: &Model) -> [String; 4] {
    [
        m.pin_unit_cost.format(),
        m.total_labour_cost.format(),
        m.wholesale_unit_price.format(),
        m.suggested_retail_cost.format(),
    ]
}

#[test]
fn scenario_a_reference_markup() {
    let m = scenario("10");
    assert_eq!(outputs(&m), ["$10.00", "$100.00", "$32.00", "$64.00"]);
}

#[test]
fn scenario_b_zero_quantity_prices_as_one() {
    let zero = scenario("0");
    let one = scenario("1");
    assert_eq!(outputs(&zero), outputs(&one));
    assert_eq!(outputs(&one), ["$100.00", "$100.00", "$320.00", "$640.00"]);
    let negative = scenario("-3");
    assert_eq!(outputs(&negative), outputs(&one));
    assert_eq!(zero.pin_unit_cost, one.pin_unit_cost);
    assert_eq!(zero.wholesale_unit_price, one.wholesale_unit_price);
}

#[test]
fn scenario_c_malformed_cost_is_rejected() {
    let mut m = Model::init();
    assert_eq!(set(&mut m, Field::PinCost, "$12.50"), Ok(()));
    let before = m;
    assert_eq!(set(&mut m, Field::PinCost, "abc"), Err(ErrorKind::InvalidMonetaryInput));
    assert_eq!(m, before);
    assert_eq!(m.pin_cost, MonetaryAmount { mantissa: 1250, scale: 2 });
}

#[test]
fn bad_wage_text_keeps_wage() {
    let mut m = Model::init();
    assert_eq!(set(&mut m, Field::HourlyWage, "$20"), Ok(()));
    let before = m;
    for text in ["", "$", "$12.x", "$1,00", "$1,000", "$5.", "$.5", "$-", "$--5", "$+5", "$1.2.3", "$1e3"] {
        assert_eq!(set(&mut m, Field::HourlyWage, text), Err(ErrorKind::InvalidMonetaryInput));
        assert_eq!(m, before);
    }
    assert_eq!(m.hourly_wage, MonetaryAmount { mantissa: 20, scale: 0 });
}

#[test]
fn bad_percentage_is_recoverable() {
    let mut m = Model::init();
    let before = m;
    assert_eq!(set(&mut m, Field::OverheadPercentage, "abc"), Err(ErrorKind::InvalidPercentage));
    assert_eq!(m, before);
    assert_eq!(set(&mut m, Field::OverheadPercentage, "12.5"), Ok(()));
    assert_eq!(m.overhead_percentage, PercentageRate { mantissa: 125, scale: 1 });
}

#[test]
fn calculate_twice_gives_same_outputs() {
    let mut m = scenario("7");
    let once = m;
    m.calculate();
    assert_eq!(m, once);
    assert_eq!(outputs(&m), outputs(&once));
}

#[test]
fn outputs_wait_for_calculate() {
    let mut m = Model::init();
    assert_eq!(set(&mut m, Field::PinCost, "$50.00"), Ok(()));
    assert_eq!(set(&mut m, Field::PinQuantity, "5"), Ok(()));
    assert_eq!(m.pin_unit_cost, MonetaryAmount::zero());
    assert_eq!(outputs(&m), ["$0.00", "$0.00", "$0.00", "$0.00"]);
    m.calculate();
    assert_eq!(m.pin_unit_cost.format(), "$10.00");
}

#[test]
fn initial_state() {
    let m = Model::init();
    assert_eq!(m.pin_quantity, 0);
    assert_eq!(m.hours_worked, 0);
    assert_eq!(m.overhead_percentage, PercentageRate { mantissa: 15, scale: 0 });
    assert_eq!(m.pin_cost, MonetaryAmount { mantissa: 0, scale: 2 });
    let z = Model::init_with_overhead(PercentageRate::from_percent(0));
    assert_eq!(z.overhead_percentage, PercentageRate { mantissa: 0, scale: 0 });
}

#[test]
fn integer_fields_default_to_zero() {
    let mut m = Model::init();
    assert_eq!(set(&mut m, Field::PinQuantity, "12"), Ok(()));
    assert_eq!(m.pin_quantity, 12);
    assert_eq!(set(&mut m, Field::PinQuantity, "twelve"), Ok(()));
    assert_eq!(m.pin_quantity, 0);
    assert_eq!(set(&mut m, Field::HoursWorked, ""), Ok(()));
    assert_eq!(m.hours_worked, 0);
    assert_eq!(set(&mut m, Field::HoursWorked, "-4"), Ok(()));
    assert_eq!(m.hours_worked, -4);
}

#[test]
fn integer_text_values() {
    assert_eq!(parse_int_field("0"), 0);
    assert_eq!(parse_int_field("+7"), 7);
    assert_eq!(parse_int_field("-5"), -5);
    assert_eq!(parse_int_field("007"), 7);
    assert_eq!(parse_int_field("2147483647"), 2147483647);
    assert_eq!(parse_int_field("2147483648"), 0);
    assert_eq!(parse_int_field("-2147483648"), -2147483648);
    assert_eq!(parse_int_field("-2147483649"), 0);
    assert_eq!(parse_int_field("-"), 0);
    assert_eq!(parse_int_field("+"), 0);
    assert_eq!(parse_int_field("1 "), 0);
    assert_eq!(parse_int_field("1.5"), 0);
}

#[test]
fn money_text_values() {
    assert_eq!(MonetaryAmount::parse("$12.50"), Ok(MonetaryAmount { mantissa: 1250, scale: 2 }));
    assert_eq!(MonetaryAmount::parse("$5.5"), Ok(MonetaryAmount { mantissa: 55, scale: 1 }));
    assert_eq!(MonetaryAmount::parse("$7"), Ok(MonetaryAmount { mantissa: 7, scale: 0 }));
    assert_eq!(MonetaryAmount::parse("$-5.00"), Ok(MonetaryAmount { mantissa: -500, scale: 2 }));
    assert_eq!(MonetaryAmount::parse("$1,234,567.89"), Err(ErrorKind::InvalidMonetaryInput));
    assert_eq!(MonetaryAmount::parse("€1000"), Ok(MonetaryAmount { mantissa: 1000, scale: 0 }));
    assert_eq!(
        MonetaryAmount::parse("$3000000000.00"),
        Ok(MonetaryAmount { mantissa: 300000000000, scale: 2 })
    );
    assert_eq!(
        MonetaryAmount::parse("$0.1234567890"),
        Ok(MonetaryAmount { mantissa: 1234567890, scale: 10 })
    );
    assert_eq!(MonetaryAmount::parse("12.50"), Ok(MonetaryAmount { mantissa: 250, scale: 2 }));
    assert_eq!(MonetaryAmount::parse("$ 5"), Err(ErrorKind::InvalidMonetaryInput));
}

#[test]
fn money_display_text() {
    assert_eq!(MonetaryAmount::from_cents(0).format(), "$0.00");
    assert_eq!(MonetaryAmount::from_cents(5).format(), "$0.05");
    assert_eq!(MonetaryAmount::from_cents(-500).format(), "$-5.00");
    assert_eq!(MonetaryAmount::from_cents(123456789).format(), "$1234567.89");
    assert_eq!(MonetaryAmount { mantissa: 7, scale: 0 }.format(), "$7.00");
    assert_eq!(MonetaryAmount { mantissa: 75, scale: 1 }.format(), "$7.50");
    assert_eq!(MonetaryAmount { mantissa: 1005, scale: 3 }.format(), "$1.00");
    assert_eq!(MonetaryAmount { mantissa: 1015, scale: 3 }.format(), "$1.02");
    assert_eq!(MonetaryAmount { mantissa: 1016, scale: 3 }.format(), "$1.02");
    assert_eq!(MonetaryAmount { mantissa: -1, scale: 3 }.format(), "$0.00");
    assert_eq!(MonetaryAmount { mantissa: -1016, scale: 3 }.format(), "$-1.02");
    assert_eq!(MonetaryAmount { mantissa: 33333333, scale: 7 }.format(), "$3.33");
}

#[test]
fn format_then_parse_round_trips() {
    for cents in [0i64, 1, 99, 100, 1250, 99999, 123456789, 300000000000, -1, -500, -123456789] {
        let a = MonetaryAmount::from_cents(cents);
        assert_eq!(MonetaryAmount::parse(&a.format()), Ok(a));
    }
    let whole = MonetaryAmount { mantissa: 42, scale: 0 };
    assert_eq!(MonetaryAmount::parse(&whole.format()), Ok(MonetaryAmount { mantissa: 4200, scale: 2 }));
    let trailing = MonetaryAmount { mantissa: -12500, scale: 4 };
    assert_eq!(MonetaryAmount::parse(&trailing.format()), Ok(MonetaryAmount { mantissa: -125, scale: 2 }));
    let largest = MonetaryAmount { mantissa: 79228162514264337593543950335, scale: 2 };
    assert_eq!(MonetaryAmount::parse(&largest.format()), Ok(largest));
}

#[test]
fn percentage_text_values() {
    assert_eq!(PercentageRate::parse("15"), Ok(PercentageRate { mantissa: 15, scale: 0 }));
    assert_eq!(PercentageRate::parse("0.5"), Ok(PercentageRate { mantissa: 5, scale: 1 }));
    assert_eq!(PercentageRate::parse(""), Err(ErrorKind::InvalidPercentage));
    assert_eq!(PercentageRate::parse("15%"), Err(ErrorKind::InvalidPercentage));
    for text in ["-5", "+5", "1e3", "1_000", ".5", "5.", "1,000"] {
        assert_eq!(PercentageRate::parse(text), Err(ErrorKind::InvalidPercentage));
    }
}

#[test]
fn field_keys() {
    assert_eq!(Field::from_key("pin_quantity"), Ok(Field::PinQuantity));
    assert_eq!(Field::from_key("pin_cost"), Ok(Field::PinCost));
    assert_eq!(Field::from_key("hours_worked"), Ok(Field::HoursWorked));
    assert_eq!(Field::from_key("hourly_wage"), Ok(Field::HourlyWage));
    assert_eq!(Field::from_key("overhead_percentage"), Ok(Field::OverheadPercentage));
    assert_eq!(Field::from_key("pin-cost"), Err(ErrorKind::UnrecognizedField));
    assert_eq!(Field::from_key(""), Err(ErrorKind::UnrecognizedField));
}

#[test]
fn markup_uses_reference_formula() {
    let mut m = Model::init();
    assert_eq!(set(&mut m, Field::PinCost, "$10.00"), Ok(()));
    assert_eq!(set(&mut m, Field::OverheadPercentage, "0"), Ok(()));
    m.calculate();
    // 0.1 + 0 / 10 marks ten dollars down to one.
    assert_eq!(m.wholesale_unit_price.format(), "$1.00");
    assert_eq!(m.suggested_retail_cost.format(), "$2.00");
}

#[test]
fn uneven_division_is_rounded_for_display() {
    let mut m = Model::init();
    assert_eq!(set(&mut m, Field::PinCost, "$100.00"), Ok(()));
    assert_eq!(set(&mut m, Field::PinQuantity, "3"), Ok(()));
    m.calculate();
    assert_eq!(m.pin_unit_cost.format(), "$33.33");
}
