use merchant_gen::{Price, PriceError};

fn check_parse_prices() {
    let input = [
        ("1 sp (price for 10)", [0, 0, 1, 0]),
        ("1 sp, 7 cp (per 1,000 bricks)", [0, 0, 1, 7]),
        ("30 gp", [0, 30, 0, 0]),
        ("4 sp (1 week)", [0, 0, 4, 0]),
        ("1,500 gp", [0, 1500, 0, 0]),
    ];

    for (input, expected) in input {
        let price = Price::parse(input);
        let price = price.unwrap().unwrap();
        assert_eq!(price.text(), input);
        assert_eq!(price.pp(), expected[0]);
        assert_eq!(price.gp(), expected[1]);
        assert_eq!(price.sp(), expected[2]);
        assert_eq!(price.cp(), expected[3]);
    }
}

#[test]
fn parse_prices() {
    check_parse_prices();
}

#[test]
fn item_parse_prices() {
    check_parse_prices();
}

#[test]
fn thirty_gold_is_three_thousand_copper() {
    let p = Price::parse("30 gp").unwrap().unwrap();
    assert_eq!(p.as_cp(), 3000);
    assert_eq!((p.pp(), p.gp(), p.sp(), p.cp()), (0, 30, 0, 0));
}

#[test]
fn bricks_are_seventeen_copper() {
    let p = Price::parse("1 sp, 7 cp (per 1,000 bricks)").unwrap().unwrap();
    assert_eq!(p.as_cp(), 17);
    assert_eq!((p.pp(), p.gp(), p.sp(), p.cp()), (0, 0, 1, 7));
}

#[test]
fn empty_text_is_no_price() {
    assert!(Price::parse("").unwrap().is_none());
}

#[test]
fn every_coin_counts() {
    let p = Price::parse("2 pp, 3 gp, 4 sp, 5 cp").unwrap().unwrap();
    assert_eq!(p.as_cp(), 2345);
}

#[test]
fn later_token_of_a_coin_wins() {
    let p = Price::parse("5 gp, 7 gp").unwrap().unwrap();
    assert_eq!(p.gp(), 7);
    assert_eq!(p.as_cp(), 700);
}

#[test]
fn unknown_unit_is_skipped() {
    let p = Price::parse("3 xp, 2 sp").unwrap().unwrap();
    assert_eq!((p.pp(), p.gp(), p.sp(), p.cp()), (0, 0, 2, 0));
}

#[test]
fn text_without_amount_is_refused() {
    assert_eq!(Price::parse("Varies").unwrap_err(), PriceError::UnsplittableToken);
    assert_eq!(Price::parse("12gp").unwrap_err(), PriceError::UnsplittableToken);
}

#[test]
fn amount_without_digit_is_refused() {
    assert_eq!(Price::parse(" gp").unwrap_err(), PriceError::MalformedAmount);
    assert_eq!(Price::parse(",, sp").unwrap_err(), PriceError::MalformedAmount);
}

#[test]
fn amount_beyond_i32_is_refused() {
    assert_eq!(Price::parse("3000000000 cp").unwrap_err(), PriceError::AmountOutOfRange);
}

#[test]
fn total_beyond_i32_is_refused() {
    assert_eq!(Price::parse("3000000 pp").unwrap_err(), PriceError::TotalOutOfRange);
    assert_eq!(Price::parse("2147483 pp, 647 cp").unwrap().unwrap().as_cp(), i32::MAX);
}

#[test]
fn copper_value_written_as_four_coins() {
    let p = Price::from_cp(12345);
    assert_eq!(p.text(), "12 pp, 3 gp, 4 sp, 5 cp");
    assert_eq!((p.pp(), p.gp(), p.sp(), p.cp()), (12, 3, 4, 5));
    assert_eq!(p.as_cp(), 12345);
    assert_eq!(Price::from_cp(0).text(), "0 pp, 0 gp, 0 sp, 0 cp");
}

#[test]
fn reformatted_price_reads_back_to_same_total() {
    for text in ["1 sp (price for 10)", "1 sp, 7 cp (per 1,000 bricks)", "1,500 gp", "9 pp, 99 sp", "2147483 pp, 647 cp"] {
        let p = Price::parse(text).unwrap().unwrap();
        let again = Price::from_cp(p.as_cp());
        let back = Price::parse(again.text()).unwrap().unwrap();
        assert_eq!(back.as_cp(), p.as_cp());
    }
}
