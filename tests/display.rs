use rains::display::{fmt_num, format_quote, tone, Tone};
use rains::quote::quote_from_str;

const M: i128 = 1_000_000;

#[test]
fn amounts_in_hundred_millions() {
    assert_eq!(fmt_num(250_000_000 * M), "2.50亿");
    assert_eq!(fmt_num(3_688_023_391 * M), "36.88亿");
}

#[test]
fn amount_zero_is_a_dash() {
    assert_eq!(fmt_num(0), " - ");
}

#[test]
fn amounts_in_ten_thousands() {
    assert_eq!(fmt_num(15_000 * M), "1.50万");
    assert_eq!(fmt_num(100_000_000 * M), "10000.00万");
    assert_eq!(fmt_num(-15_000 * M), "-1.50万");
    assert_eq!(fmt_num(1), "0.00万");
}

#[test]
fn tone_follows_sign_of_change() {
    assert_eq!(tone(11 * M, 10 * M), Tone::Rise);
    assert_eq!(tone(9 * M, 10 * M), Tone::Fall);
    assert_eq!(tone(10 * M, 10 * M), Tone::Flat);
    assert_eq!(tone(10 * M, 0), Tone::Flat);
}

#[test]
fn same_quote_twice_shows_same_change() {
    let q = quote_from_str("x,10,10.00,10.5");
    let a = format_quote(&q);
    let b = format_quote(&q);
    assert_eq!(a.change, b.change);
    assert_eq!(a.tone, Tone::Rise);
    assert_eq!(b.tone, Tone::Rise);
}

#[test]
fn quote_line_layout() {
    let q = quote_from_str(
        "中国平安,51.020,50.790,49.970,51.350,49.800,49.970,49.980,72935539,3688023391.000,,,,,,,,,,,,,,,,,,,,,2022-01-28,15:00:00",
    );
    let l = format_quote(&q);
    assert_eq!(l.head, "2022-01-28 15:00:00");
    assert_eq!(l.change, "49.97 -1.61%    ");
    assert_eq!(l.tone, Tone::Fall);
    assert_eq!(
        l.tail,
        " \t昨收：50.79\t今开：51.02\t最高：51.35\t最低：49.80\t成交量：72.94万手\t成交额：36.88亿元\t中国平安"
    );
}

#[test]
fn change_without_prior_close_is_a_placeholder() {
    let q = quote_from_str("x,1,0,2.5");
    let l = format_quote(&q);
    assert_eq!(l.change, "2.50 -          ");
    assert_eq!(l.tone, Tone::Flat);
}

#[test]
fn price_rounds_half_up() {
    let q = quote_from_str("x,1,1.005,1.004");
    let l = format_quote(&q);
    assert!(l.tail.starts_with(" \t昨收：1.01\t"));
    assert!(l.change.starts_with("1.00 "));
}
