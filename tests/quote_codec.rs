use rains::number::parse_number;
use rains::quote::{
    fmt_quote_symbols, quote_from_str, quote_from_str_hk, quote_to_str, quotes_from_frames,
    quotes_from_snapshot_text, quotes_from_stream_text, strip_realtime_prefix, Quote,
};

const SH_PAYLOAD: &str = "中国平安,51.020,50.790,49.970,51.350,49.800,49.970,49.980,72935539,3688023391.000,155984,49.970,125200,49.960,95800,49.950,48800,49.940,32300,49.930,174297,49.980,10800,49.990,86300,50.000,3100,50.010,53700,50.020,2022-01-28,15:00:00,00,";

const HK_PAYLOAD: &str = "TENCENT,腾讯控股,371.000,366.400,380.400,370.000,377.200,10.800,2.948,377.00000,377.20001,7860991814,20901992,0.000,0.000,658.000,297.000,2022/03/29,16:00";

fn num(s: &str) -> i128 {
    parse_number(&s.chars().collect())
}

#[test]
fn numbers_read_as_millionths() {
    assert_eq!(num("51.020"), 51_020_000);
    assert_eq!(num("-1.5"), -1_500_000);
    assert_eq!(num("+2"), 2_000_000);
    assert_eq!(num(".5"), 500_000);
    assert_eq!(num("7."), 7_000_000);
    assert_eq!(num("1.2345678"), 1_234_567);
    assert_eq!(num("3688023391.000"), 3_688_023_391_000_000);
}

#[test]
fn malformed_numbers_read_as_zero() {
    assert_eq!(num(""), 0);
    assert_eq!(num("abc"), 0);
    assert_eq!(num("."), 0);
    assert_eq!(num("-"), 0);
    assert_eq!(num("1.2.3"), 0);
    assert_eq!(num("1e5"), 0);
    assert_eq!(num("1234567890123456789012345"), 0);
}

#[test]
fn mainland_payload_fields() {
    let q = quote_from_str(SH_PAYLOAD);
    assert_eq!(q.symbol, "");
    assert_eq!(q.name, "中国平安");
    assert_eq!(q.open, 51_020_000);
    assert_eq!(q.close, 50_790_000);
    assert_eq!(q.now, 49_970_000);
    assert_eq!(q.high, 51_350_000);
    assert_eq!(q.low, 49_800_000);
    assert_eq!(q.buy, 49_970_000);
    assert_eq!(q.sell, 49_980_000);
    assert_eq!(q.turnover, 72_935_539_000_000);
    assert_eq!(q.volume, 3_688_023_391_000_000);
    assert_eq!(q.date, "2022-01-28");
    assert_eq!(q.time, "15:00:00");
}

#[test]
fn hong_kong_payload_fields() {
    let q = quote_from_str_hk(HK_PAYLOAD);
    assert_eq!(q.name, "腾讯控股");
    assert_eq!(q.open, 371_000_000);
    assert_eq!(q.close, 366_400_000);
    assert_eq!(q.high, 380_400_000);
    assert_eq!(q.low, 370_000_000);
    assert_eq!(q.now, 377_200_000);
    assert_eq!(q.buy, 377_200_000);
    assert_eq!(q.sell, 377_200_000);
    assert_eq!(q.volume, 7_860_991_814_000_000);
    assert_eq!(q.turnover, 20_901_992_000_000);
    assert_eq!(q.date, "2022-03-29");
    assert_eq!(q.time, "16:00");
}

#[test]
fn short_payload_defaults_missing_fields() {
    let q = quote_from_str("名字,abc,1");
    assert_eq!(q.name, "名字");
    assert_eq!(q.open, 0);
    assert_eq!(q.close, 1_000_000);
    assert_eq!(q.now, 0);
    assert_eq!(q.date, "");
    assert_eq!(q.time, "");
}

fn same_quote(a: &Quote, b: &Quote) -> bool {
    a.symbol == b.symbol
        && a.name == b.name
        && a.now == b.now
        && a.close == b.close
        && a.open == b.open
        && a.high == b.high
        && a.low == b.low
        && a.buy == b.buy
        && a.sell == b.sell
        && a.turnover == b.turnover
        && a.volume == b.volume
        && a.date == b.date
        && a.time == b.time
}

#[test]
fn mainland_decode_encode_round_trip() {
    let q = quote_from_str(SH_PAYLOAD);
    let text = quote_to_str(&q);
    assert!(text.starts_with("中国平安,51.020000,50.790000,49.970000,"));
    assert_eq!(text.split(',').count(), 32);
    let again = quote_from_str(&text);
    assert!(same_quote(&q, &again));
}

#[test]
fn encode_writes_negative_and_zero() {
    let mut q = quote_from_str("x");
    q.now = -1_500_000;
    let text = quote_to_str(&q);
    assert!(text.starts_with("x,0.000000,0.000000,-1.500000,"));
    assert_eq!(quote_from_str(&text).now, -1_500_000);
}

#[test]
fn request_encoding_marks_hong_kong_symbols() {
    assert_eq!(fmt_quote_symbols("HK00700"), "rt_hk00700");
    assert_eq!(fmt_quote_symbols("SH600000,HK00700"), "sh600000,rt_hk00700");
    assert_eq!(fmt_quote_symbols("sz000001"), "sz000001");
    assert_eq!(fmt_quote_symbols(""), "");
}

#[test]
fn realtime_marker_round_trip() {
    for s in ["hk00700", "hkhsi", "hk09988"] {
        assert_eq!(strip_realtime_prefix(&fmt_quote_symbols(s)), s);
    }
    assert_eq!(strip_realtime_prefix("sh600000"), "sh600000");
    assert_eq!(strip_realtime_prefix("rt_"), "");
}

#[test]
fn stream_frame_decodes_each_line() {
    let text = format!("sh600000={}\nrt_hk00700={}\nxx1234=1,2,3\nq=1\n", SH_PAYLOAD, HK_PAYLOAD);
    let quotes = quotes_from_stream_text(&text);
    assert_eq!(quotes.len(), 2);
    assert_eq!(quotes[0].symbol, "SH600000");
    assert_eq!(quotes[0].now, 49_970_000);
    assert_eq!(quotes[1].symbol, "HK00700");
    assert_eq!(quotes[1].now, 377_200_000);
    assert_eq!(quotes[1].date, "2022-03-29");
}

#[test]
fn stream_frame_without_newline_gives_empty_batch() {
    assert!(quotes_from_stream_text("sh600000=a,1,2").is_empty());
    assert!(quotes_from_stream_text("").is_empty());
}

#[test]
fn snapshot_reply_decodes_each_assignment() {
    let text = format!(
        "var hq_str_sz000001=\"{}\";\nvar hq_str_rt_hk00700=\"{}\";\nvar hq_str_gb_aapl=\"x\";\n",
        SH_PAYLOAD, HK_PAYLOAD
    );
    let quotes = quotes_from_snapshot_text(&text);
    assert_eq!(quotes.len(), 2);
    assert_eq!(quotes[0].symbol, "SZ000001");
    assert_eq!(quotes[1].symbol, "HK00700");
    assert_eq!(quotes[1].name, "腾讯控股");
}

#[test]
fn frames_of_unknown_venues_are_skipped() {
    let frames = vec![
        ("bj430047".to_string(), SH_PAYLOAD.to_string()),
        ("x".to_string(), "a".to_string()),
        ("rt_nq1".to_string(), "a".to_string()),
    ];
    let quotes = quotes_from_frames(&frames);
    assert_eq!(quotes.len(), 1);
    assert_eq!(quotes[0].symbol, "BJ430047");
}

#[test]
fn payload_for_upper_symbol() {
    let q = rains::quote::quote_for_symbol("SZ000001", SH_PAYLOAD).unwrap();
    assert_eq!(q.symbol, "SZ000001");
    assert_eq!(q.close, 50_790_000);
    let q = rains::quote::quote_for_symbol("HK00700", HK_PAYLOAD).unwrap();
    assert_eq!(q.now, 377_200_000);
    assert!(rains::quote::quote_for_symbol("sz000001", SH_PAYLOAD).is_none());
    assert!(rains::quote::quote_for_symbol("S", SH_PAYLOAD).is_none());
}

#[test]
fn hong_kong_ask_is_the_current_price() {
    let q = quote_from_str_hk("a,b,c,d,e,f,1,2");
    assert_eq!(q.now, 1_000_000);
    assert_eq!(q.buy, 1_000_000);
    assert_eq!(q.sell, 1_000_000);
}
