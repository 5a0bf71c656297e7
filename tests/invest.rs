use rains::cli::{info_supported, shown_results};
use rains::invest::{
    accept_lookup, fmt_us_symbol, lookup_query, parse_suggest_list, parse_suggest_reply, Exchange,
    InvestError, Investment,
    Market,
};
use rains::stream::{snapshot_url, stream_step, stream_url, StreamAction, StreamEvent};

#[test]
fn exchange_prefixes() {
    assert_eq!(Exchange::from_str("sh"), Ok(Exchange::Sse));
    assert_eq!(Exchange::from_str("SZ"), Ok(Exchange::SZse));
    assert_eq!(Exchange::from_str("bJ"), Ok(Exchange::Bse));
    assert_eq!(Exchange::from_str("hk"), Ok(Exchange::HKex));
    assert_eq!(Exchange::from_str("$aapl"), Ok(Exchange::Nasdaq));
    assert_eq!(Exchange::from_str("xx"), Err(InvestError::UnsupportedExchange("XX".to_string())));
    assert_eq!(Exchange::from_str(""), Err(InvestError::UnsupportedExchange(String::new())));
}

#[test]
fn us_symbols_get_dollar() {
    assert_eq!(fmt_us_symbol("AAPL"), "$AAPL");
    assert_eq!(fmt_us_symbol("$AAPL"), "$AAPL");
    assert_eq!(fmt_us_symbol(""), "$");
}

#[test]
fn mainland_symbol_reads() {
    let i = Investment::from_str("sz000001").unwrap();
    assert_eq!(i.symbol, "SZ000001");
    assert_eq!(i.code, "000001");
    assert_eq!(i.exchange, Some(Exchange::SZse));
    assert_eq!(i.market, Some(Market::Stock));
    let i = Investment::from_str("hk00700xyz").unwrap();
    assert_eq!(i.symbol, "HK00700");
    assert_eq!(i.exchange, Some(Exchange::HKex));
}

#[test]
fn us_symbol_reads() {
    let i = Investment::from_str("aapl").unwrap();
    assert_eq!(i.symbol, "$AAPL");
    assert_eq!(i.code, "AAPL");
    assert_eq!(i.exchange, Some(Exchange::Nasdaq));
}

#[test]
fn unreadable_symbols_fail() {
    assert_eq!(Investment::from_str("").unwrap_err(), InvestError::UnrecognizedSymbol);
    assert_eq!(Investment::from_str("123").unwrap_err(), InvestError::UnrecognizedSymbol);
}

#[test]
fn lookup_query_drops_hk() {
    let i = Investment::from_str("hk00700").unwrap();
    assert_eq!(lookup_query(&i), "00700");
    let i = Investment::from_str("sh600000").unwrap();
    assert_eq!(lookup_query(&i), "SH600000");
}

const REPLY: &str = "var suggestvalue=\"平安银行,11,000001,sz000001,平安银行,,平安银行,99,1,ESG;腾讯控股,31,00700,00700,腾讯控股,,腾讯控股,99,1,ESG;华夏,21,000001,of000001,华夏成长,,华夏成长,99,1,;旧,11,1,sh1,旧,,旧,99,0,;短,11\";";

#[test]
fn suggest_reply_lists_entries() {
    let r = parse_suggest_reply(REPLY);
    assert_eq!(r.len(), 3);
    assert_eq!(r[0].symbol, "SZ000001");
    assert_eq!(r[0].code, "000001");
    assert_eq!(r[0].name, "平安银行");
    assert_eq!(r[0].exchange, Some(Exchange::SZse));
    assert_eq!(r[0].market, Some(Market::Stock));
    assert_eq!(r[1].symbol, "HK00700");
    assert_eq!(r[1].exchange, Some(Exchange::HKex));
    assert_eq!(r[2].symbol, "OF000001");
    assert_eq!(r[2].market, Some(Market::Fund));
    assert_eq!(r[2].exchange, None);
}

#[test]
fn empty_suggest_reply() {
    assert!(parse_suggest_reply("var suggestvalue=\"\";").is_empty());
    assert!(parse_suggest_reply("nothing quoted").is_empty());
}

#[test]
fn lookup_accepts_first_stock() {
    let r = parse_suggest_reply(REPLY);
    assert_eq!(accept_lookup(&r).unwrap().symbol, "SZ000001");
    let funds = vec![r[2].clone()];
    assert_eq!(accept_lookup(&funds).unwrap_err(), InvestError::WrongSymbol);
    assert_eq!(accept_lookup(&Vec::new()).unwrap_err(), InvestError::WrongSymbol);
}

#[test]
fn run_decisions() {
    assert_eq!(shown_results(10, 3), 3);
    assert_eq!(shown_results(2, 3), 2);
    assert!(info_supported(Some(Exchange::Sse)));
    assert!(!info_supported(Some(Exchange::HKex)));
    assert!(!info_supported(None));
}

#[test]
fn request_addresses() {
    assert_eq!(stream_url("SH600000,HK00700"), "wss://hq.sinajs.cn/wskt?list=sh600000,rt_hk00700");
    assert_eq!(snapshot_url("HK00700"), "https://hq.sinajs.cn/list=rt_hk00700");
}

#[test]
fn stream_events() {
    match stream_step(&StreamEvent::Text("sh600000=n,1,2,3\n".to_string())) {
        StreamAction::Deliver(b) => {
            assert_eq!(b.len(), 1);
            assert_eq!(b[0].symbol, "SH600000");
            assert_eq!(b[0].now, 3_000_000);
        }
        other => panic!("unexpected {:?}", other),
    }
    assert!(matches!(stream_step(&StreamEvent::Tick), StreamAction::SendLiveness));
    assert!(matches!(stream_step(&StreamEvent::Other), StreamAction::Wait));
    assert!(matches!(stream_step(&StreamEvent::Closed), StreamAction::Stop));
}

#[test]
fn upper_prefixes() {
    assert_eq!(Exchange::from_upper("SH"), Some(Exchange::Sse));
    assert_eq!(Exchange::from_upper("sh"), None);
    assert_eq!(Exchange::from_upper("$"), Some(Exchange::Nasdaq));
    assert_eq!(Exchange::from_upper("NY"), None);
}

#[test]
fn investment_from_found_symbols() {
    let i = Investment::from_matches(Some("BJ430047".to_string()), None).unwrap();
    assert_eq!(i.code, "430047");
    assert_eq!(i.exchange, Some(Exchange::Bse));
    let i = Investment::from_matches(None, Some(".X".to_string())).unwrap();
    assert_eq!(i.symbol, "$.X");
    assert_eq!(i.code, ".X");
    assert_eq!(
        Investment::from_matches(Some("XX1".to_string()), None).unwrap_err(),
        InvestError::UnsupportedExchange("XX".to_string())
    );
    assert_eq!(Investment::from_matches(None, None).unwrap_err(), InvestError::UnrecognizedSymbol);
}

#[test]
fn suggest_list_entries() {
    let r = parse_suggest_list("苹果,41,aapl,aapl,苹果,,苹果,99,1;x,99,1,ab,x,,x,99,1");
    assert_eq!(r.len(), 2);
    assert_eq!(r[0].symbol, "AAPL");
    assert_eq!(r[0].market, Some(Market::Stock));
    assert_eq!(r[0].exchange, None);
    assert_eq!(r[1].market, None);
    assert!(parse_suggest_list("").is_empty());
}
