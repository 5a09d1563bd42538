use apcacli::decimal::Decimal;
use apcacli::format::format_approximate_quantity;
use apcacli::format::max_width;

fn dec(numer: i128, denom: i128) -> Decimal {
    Decimal::new(numer, denom).unwrap()
}

/// Check that the `format_approximate_quantity` function works as expected.
#[test]
fn quantity_formatting() {
    assert_eq!(format_approximate_quantity(&dec(32, 1)), "32");
    assert_eq!(format_approximate_quantity(&dec(11, 10)), "~1");
    assert_eq!(format_approximate_quantity(&dec(88, 100)), "~0.9");
    assert_eq!(format_approximate_quantity(&dec(43, 1000)), "~0.04");
    assert_eq!(format_approximate_quantity(&dec(4345, 100000)), "~0.04");
    assert_eq!(format_approximate_quantity(&dec(4, 100)), "0.04");
}

#[test]
fn tiny_and_large_quantities_are_formatted() {
    assert_eq!(format_approximate_quantity(&dec(1, 1_000_000_000_000_000_000)), "0");
    assert_eq!(format_approximate_quantity(&dec(25, 10)), "~2");
    assert_eq!(format_approximate_quantity(&dec(35, 10)), "~4");
    assert_eq!(format_approximate_quantity(&dec(1_000_000_000_000_000_000, 1)), "1000000000000000000");
}

#[test]
fn widest_value_is_found() {
    let words = vec!["a", "abc", "ab"];
    assert_eq!(max_width(&words, |w: &&str| w.len()), 3);
    let none: Vec<&str> = Vec::new();
    assert_eq!(max_width(&none, |w: &&str| w.len()), 0);
}
