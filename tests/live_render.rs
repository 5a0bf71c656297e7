use rains::quote::{quote_from_str, Quote};
use rains::render::{LiveRender, RenderOp};

fn q(symbol: &str) -> Quote {
    let mut q = quote_from_str("n,1,1,1");
    q.symbol = symbol.to_string();
    q
}

fn batch(symbols: &[&str]) -> Vec<Quote> {
    symbols.iter().map(|s| q(s)).collect()
}

#[test]
fn three_batch_scenario() {
    let mut r = LiveRender::new(false);
    let ops = r.render(&batch(&["SH600000"]));
    assert_eq!(ops, vec![RenderOp::ClearLine, RenderOp::Write(0), RenderOp::Flush]);
    assert_eq!(r.lines(), &vec!["SH600000".to_string()]);
    assert_eq!(r.cursor(), 0);

    let ops = r.render(&batch(&["HK00700"]));
    assert_eq!(ops, vec![RenderOp::ClearLine, RenderOp::Write(0), RenderOp::Flush]);
    assert_eq!(r.lines(), &vec!["SH600000".to_string(), "HK00700".to_string()]);
    assert_eq!(r.cursor(), 1);

    let ops = r.render(&batch(&["SH600000"]));
    assert_eq!(ops, vec![RenderOp::Up(2), RenderOp::ClearLine, RenderOp::Write(0), RenderOp::Flush]);
    assert_eq!(r.lines(), &vec!["SH600000".to_string(), "HK00700".to_string()]);
    assert_eq!(r.cursor(), 0);
}

#[test]
fn first_batch_takes_lines_in_order() {
    let mut r = LiveRender::new(false);
    let ops = r.render(&batch(&["A", "B", "C"]));
    assert_eq!(
        ops,
        vec![
            RenderOp::ClearLine,
            RenderOp::Write(0),
            RenderOp::ClearLine,
            RenderOp::Write(1),
            RenderOp::ClearLine,
            RenderOp::Write(2),
            RenderOp::Flush
        ]
    );
    assert_eq!(r.cursor(), 2);
}

#[test]
fn moves_down_past_unchanged_lines() {
    let mut r = LiveRender::new(false);
    r.render(&batch(&["A", "B", "C", "D"]));
    let ops = r.render(&batch(&["A", "D"]));
    assert_eq!(
        ops,
        vec![
            RenderOp::Up(4),
            RenderOp::ClearLine,
            RenderOp::Write(0),
            RenderOp::Down(2),
            RenderOp::ClearLine,
            RenderOp::Write(1),
            RenderOp::Flush
        ]
    );
    assert_eq!(r.cursor(), 3);
}

#[test]
fn lines_independent_of_batch_order() {
    let mut a = LiveRender::new(false);
    let mut b = LiveRender::new(false);
    a.render(&batch(&["A", "B", "C"]));
    b.render(&batch(&["A", "B", "C"]));
    a.render(&batch(&["C", "A", "B"]));
    b.render(&batch(&["B", "C", "A"]));
    assert_eq!(a.lines(), b.lines());
    assert_eq!(a.lines(), &vec!["A".to_string(), "B".to_string(), "C".to_string()]);
}

#[test]
fn new_symbols_take_lines_by_first_appearance() {
    let mut r = LiveRender::new(false);
    r.render(&batch(&["A"]));
    r.render(&batch(&["C", "A", "B"]));
    r.render(&batch(&["B", "D", "C"]));
    assert_eq!(
        r.lines(),
        &vec!["A".to_string(), "C".to_string(), "B".to_string(), "D".to_string()]
    );
}

#[test]
fn repeated_symbol_in_first_batch_keeps_one_line() {
    let mut r = LiveRender::new(false);
    let ops = r.render(&batch(&["A", "B", "A"]));
    assert_eq!(
        ops,
        vec![
            RenderOp::ClearLine,
            RenderOp::Write(0),
            RenderOp::ClearLine,
            RenderOp::Write(1),
            RenderOp::Up(2),
            RenderOp::ClearLine,
            RenderOp::Write(2),
            RenderOp::Flush
        ]
    );
    assert_eq!(r.lines().len(), 2);
}

#[test]
fn empty_batch_only_flushes() {
    let mut r = LiveRender::new(false);
    assert_eq!(r.render(&Vec::new()), vec![RenderOp::Flush]);
    assert!(r.lines().is_empty());
}

#[test]
fn multiline_prints_lone_quotes_plainly() {
    let mut r = LiveRender::new(true);
    assert_eq!(r.render(&batch(&["A"])), vec![RenderOp::Write(0)]);
    assert_eq!(r.render(&batch(&["A"])), vec![RenderOp::Write(0)]);
    assert!(r.lines().is_empty());
    let ops = r.render(&batch(&["A", "B"]));
    assert_eq!(ops.last(), Some(&RenderOp::Flush));
    assert_eq!(r.lines().len(), 2);
    let ops = r.render(&batch(&["B"]));
    assert_eq!(ops, vec![RenderOp::Up(1), RenderOp::ClearLine, RenderOp::Write(0), RenderOp::Flush]);
}
