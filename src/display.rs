//! How a quote is written on its terminal line.

use vstd::prelude::*;
use crate::number::{abs, nat_text, padded_text, push_nat, push_padded};
use crate::quote::{Quote, QuoteView, in_range, numbers_in_range};
use crate::text::string_of;

verus! {

/// The colour class of a price change.
#[derive(Debug, Clone, Copy, PartialEq, Eq, Structural)]
pub enum Tone {
    /// The price is above the prior close: shown red.
    Rise,
    /// The price is below the prior close: shown green.
    Fall,
    /// No change, or no prior close to compare with: shown grey.
    Flat,
}

/// The parts of one quote's line: the time stamp, the coloured change
/// (padded to 16 characters) with its tone, and the rest of the line.
#[derive(Debug, Clone)]
pub struct QuoteLine {
    pub head: String,
    pub change: String,
    pub tone: Tone,
    pub tail: String,
}

/// `a / d` rounded to the nearest whole number, halves up.
pub open spec fn round_div(a: nat, d: nat) -> nat
    recommends
        d > 0,
{
    (a + d / 2) / d
}

/// A count of hundredths written with two decimals, `-` first where `neg`.
pub open spec fn hundredths_text(neg: bool, h: nat) -> Seq<char> {
    (if neg { seq!['-'] } else { Seq::empty() }) + nat_text(h / 100) + seq!['.'] + padded_text(h % 100, 2)
}

/// A price of millionths written with two decimals.
pub open spec fn price_text(v: int) -> Seq<char> {
    hundredths_text(v < 0, round_div(abs(v), 10_000))
}

pub open spec fn hundred_million(per: nat) -> nat {
    100_000_000_000_000 * per
}

/// An amount of `v / per` millionths, written in hundred-millions (亿) above
/// one hundred million, as a dash at zero, and in ten-thousands (万) else,
/// with two decimals.
pub open spec fn amount_text(v: int, per: nat) -> Seq<char> {
    if v > hundred_million(per) {
        hundredths_text(false, round_div(abs(v), 1_000_000_000_000 * per)) + "亿"@
    } else if v == 0 {
        " - "@
    } else {
        hundredths_text(v < 0, round_div(abs(v), 100_000_000 * per)) + "万"@
    }
}

fn abs_u128(v: i128) -> (r: u128)
    ensures
        r == abs(v as int),
{
    if v < 0 {
        ((-(v + 1)) as u128) + 1
    } else {
        v as u128
    }
}

fn round_div_exec(a: u128, d: u128) -> (r: u128)
    requires
        0 < d <= 0x8000_0000_0000_0000_0000_0000_0000_0000,
        a <= 0x8000_0000_0000_0000_0000_0000_0000_0000,
    ensures
        r == round_div(a as nat, d as nat),
{
    (a + d / 2) / d
}

fn append_chars(s: &mut String, v: &Vec<char>)
    ensures
        final(s)@ == old(s)@ + v@,
{
    let t = string_of(v);
    s.append(t.as_str());
}

fn append_hundredths(s: &mut String, neg: bool, h: u128)
    ensures
        final(s)@ == old(s)@ + hundredths_text(neg, h as nat),
{
    let mut v: Vec<char> = Vec::new();
    if neg {
        v.push('-');
    }
    push_nat(&mut v, h / 100);
    v.push('.');
    push_padded(&mut v, h % 100, 2);
    proof {
        assert(v@ =~= hundredths_text(neg, h as nat));
    }
    append_chars(s, &v);
}

fn append_price(s: &mut String, v: i128)
    ensures
        final(s)@ == old(s)@ + price_text(v as int),
{
    let h = round_div_exec(abs_u128(v), 10_000);
    append_hundredths(s, v < 0, h);
}

fn append_amount(s: &mut String, v: i128, per: u128)
    requires
        per == 1 || per == 100,
    ensures
        final(s)@ == old(s)@ + amount_text(v as int, per as nat),
{
    let threshold: i128 = 100_000_000_000_000 * (per as i128);
    if v > threshold {
        let h = round_div_exec(abs_u128(v), 1_000_000_000_000 * per);
        append_hundredths(s, false, h);
        s.append("亿");
    } else if v == 0 {
        s.append(" - ");
    } else {
        let h = round_div_exec(abs_u128(v), 100_000_000 * per);
        append_hundredths(s, v < 0, h);
        s.append("万");
    }
}

/// Writes an amount of millionths: in hundred-millions (亿) above one
/// hundred million, a dash at zero, in ten-thousands (万) else, with two
/// decimals.
pub fn fmt_num(num: i128) -> (r: String)
    ensures
        r@ == amount_text(num as int, 1),
{
    let mut s = String::new();
    append_amount(&mut s, num, 1);
    proof {
        assert(s@ =~= amount_text(num as int, 1));
    }
    s
}

/// The tone of a price against the prior close: the sign of
/// `(now / close - 1)`, flat where there is no prior close.
pub open spec fn tone_of(now: int, close: int) -> Tone {
    if close == 0 {
        Tone::Flat
    } else if (now - close) * close > 0 {
        Tone::Rise
    } else if (now - close) * close < 0 {
        Tone::Fall
    } else {
        Tone::Flat
    }
}

/// The change `(now / close - 1) * 100` in percent, with two decimals.
pub open spec fn change_pct_text(now: int, close: int) -> Seq<char> {
    hundredths_text((now - close) * close < 0, round_div(abs(now - close) * 10_000, abs(close)))
}

/// The price and its change in percent; a dash stands for the change where
/// there is no prior close.
pub open spec fn change_text(now: int, close: int) -> Seq<char> {
    if close == 0 {
        price_text(now) + " -"@
    } else {
        price_text(now) + " "@ + change_pct_text(now, close) + "%"@
    }
}

/// `s` padded with spaces to `n` characters.
pub open spec fn pad_to(s: Seq<char>, n: nat) -> Seq<char> {
    if s.len() >= n {
        s
    } else {
        s + Seq::new((n - s.len()) as nat, |i: int| ' ')
    }
}

/// The line after the change: prior close, open, high, low, volume in lots
/// and value, then the name.
pub open spec fn tail_text(q: QuoteView) -> Seq<char> {
    " \t昨收："@ + price_text(q.close) + "\t今开："@ + price_text(q.open) + "\t最高："@ + price_text(q.high)
        + "\t最低："@ + price_text(q.low) + "\t成交量："@ + amount_text(q.turnover, 100) + "手\t成交额："@
        + amount_text(q.volume, 1) + "元\t"@ + q.name
}

/// Whether a line writes a quote.
pub open spec fn writes_quote(l: QuoteLine, q: QuoteView) -> bool {
    &&& l.head@ == q.date + " "@ + q.time
    &&& l.change@ == pad_to(change_text(q.now, q.close), 16)
    &&& l.tone == tone_of(q.now, q.close)
    &&& l.tail@ == tail_text(q)
}

/// The tone of a change against the prior close.
pub fn tone(now: i128, close: i128) -> (r: Tone)
    requires
        in_range(now as int),
        in_range(close as int),
    ensures
        r == tone_of(now as int, close as int),
{
    proof {
        crate::number::lemma_pow10_30();
    }
    let d = now - close;
    proof {
        lemma_sign_of_product(d as int, close as int);
    }
    if close == 0 {
        Tone::Flat
    } else if (d > 0 && close > 0) || (d < 0 && close < 0) {
        Tone::Rise
    } else if (d > 0 && close < 0) || (d < 0 && close > 0) {
        Tone::Fall
    } else {
        Tone::Flat
    }
}

proof fn lemma_sign_of_product(a: int, b: int)
    ensures
        (a * b > 0) <==> ((a > 0 && b > 0) || (a < 0 && b < 0)),
        (a * b < 0) <==> ((a > 0 && b < 0) || (a < 0 && b > 0)),
{
    if a > 0 && b > 0 {
        assert(a * b > 0) by (nonlinear_arith) requires a > 0 && b > 0;
    } else if a < 0 && b < 0 {
        assert(a * b > 0) by (nonlinear_arith) requires a < 0 && b < 0;
    } else if a > 0 && b < 0 {
        assert(a * b < 0) by (nonlinear_arith) requires a > 0 && b < 0;
    } else if a < 0 && b > 0 {
        assert(a * b < 0) by (nonlinear_arith) requires a < 0 && b > 0;
    } else {
        assert(a * b == 0) by (nonlinear_arith) requires a == 0 || b == 0;
    }
}

fn change_string(now: i128, close: i128) -> (r: String)
    requires
        in_range(now as int),
        in_range(close as int),
    ensures
        r@ == change_text(now as int, close as int),
{
    let mut s = String::new();
    append_price(&mut s, now);
    if close == 0 {
        s.append(" -");
    } else {
        s.append(" ");
        proof {
            crate::number::lemma_pow10_30();
        }
        let d = now - close;
        proof {
            lemma_sign_of_product(d as int, close as int);
            crate::number::lemma_pow10_30();
        }
        let neg = (d > 0 && close < 0) || (d < 0 && close > 0);
        let a = abs_u128(d) * 10_000;
        let h = round_div_exec(a, abs_u128(close));
        append_hundredths(&mut s, neg, h);
        s.append("%");
    }
    s
}

fn pad_string(s: String, n: usize) -> (r: String)
    ensures
        r@ == pad_to(s@, n as nat),
{
    let len = s.as_str().unicode_len();
    let mut r = s;
    if len < n {
        let mut k: usize = len;
        while k < n
            invariant
                len <= k <= n,
                len == s@.len(),
                r@ == s@ + Seq::new((k - len) as nat, |i: int| ' '),
            decreases n - k,
        {
            r.append(" ");
            proof {
                reveal_strlit(" ");
                assert(r@ =~= s@ + Seq::new((k + 1 - len) as nat, |i: int| ' '));
            }
            k = k + 1;
        }
    } else {
        assert(r@ =~= pad_to(s@, n as nat));
    }
    r
}

/// Lays out a quote's line: time stamp; price and change, padded to 16
/// characters, with the tone of the change; prior close, open, high and low
/// with two decimals, volume in lots and value in large units; then the name.
pub fn format_quote(q: &Quote) -> (r: QuoteLine)
    requires
        numbers_in_range(q@),
    ensures
        writes_quote(r, q@),
{
    let mut head = q.date.clone();
    head.append(" ");
    head.append(q.time.as_str());
    let change = pad_string(change_string(q.now, q.close), 16);
    let mut tail = " \t昨收：".to_owned();
    append_price(&mut tail, q.close);
    tail.append("\t今开：");
    append_price(&mut tail, q.open);
    tail.append("\t最高：");
    append_price(&mut tail, q.high);
    tail.append("\t最低：");
    append_price(&mut tail, q.low);
    tail.append("\t成交量：");
    append_amount(&mut tail, q.turnover, 100);
    tail.append("手\t成交额：");
    append_amount(&mut tail, q.volume, 1);
    tail.append("元\t");
    tail.append(q.name.as_str());
    QuoteLine { head, change, tone: tone(q.now, q.close), tail }
}

/// Against a positive prior close, a quote shows a rise exactly when its
/// price is above the close, a fall exactly when below, and flat when equal;
/// and two quotes with the same price and close, as one symbol has in
/// consecutive batches where neither moved, show the same change and tone.
pub proof fn lemma_tone_follows_change(q1: QuoteView, q2: QuoteView)
    requires
        q1.close > 0,
        q1.now == q2.now,
        q1.close == q2.close,
    ensures
        (tone_of(q1.now, q1.close) == Tone::Rise) <==> q1.now > q1.close,
        (tone_of(q1.now, q1.close) == Tone::Fall) <==> q1.now < q1.close,
        (tone_of(q1.now, q1.close) == Tone::Flat) <==> q1.now == q1.close,
        change_text(q1.now, q1.close) == change_text(q2.now, q2.close),
        tone_of(q1.now, q1.close) == tone_of(q2.now, q2.close),
{
    lemma_sign_of_product(q1.now - q1.close, q1.close);
}

} // verus!
