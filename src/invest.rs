//! Securities, the venues they trade on, and how a symbol names them.

use vstd::prelude::*;
use crate::text::{upper_of, to_upper, chars_of, string_of, split_on, split_chars, views_of};

verus! {

/// A trading venue.
#[derive(Debug, Clone, Copy, PartialEq, Eq, Structural)]
pub enum Exchange {
    /// Shanghai
    Sse,
    /// Shenzhen
    SZse,
    /// Beijing
    Bse,
    /// Hong Kong
    HKex,
    /// New York
    Nyse,
    /// Nasdaq
    Nasdaq,
}

/// The kind of security.
#[derive(Debug, Clone, Copy, PartialEq, Eq, Structural)]
pub enum Market {
    Stock,
    Fund,
}

/// Why a symbol or a venue prefix was not accepted.
#[derive(Debug, Clone, PartialEq, Eq)]
pub enum InvestError {
    /// The (upper-cased) prefix names no supported venue.
    UnsupportedExchange(String),
    /// The text is not shaped like any known symbol.
    UnrecognizedSymbol,
    /// The symbol lookup found no listed stock for it.
    WrongSymbol,
}

/// The venue an upper-cased prefix names.
pub open spec fn exchange_of(u: Seq<char>) -> Option<Exchange> {
    if u == seq!['S', 'H'] {
        Some(Exchange::Sse)
    } else if u == seq!['S', 'Z'] {
        Some(Exchange::SZse)
    } else if u == seq!['B', 'J'] {
        Some(Exchange::Bse)
    } else if u == seq!['H', 'K'] {
        Some(Exchange::HKex)
    } else if u.len() > 0 && u[0] == '$' {
        Some(Exchange::Nasdaq)
    } else {
        None
    }
}

/// Whether a venue belongs to the mainland family of quote layouts.
pub open spec fn is_mainland(e: Exchange) -> bool {
    e == Exchange::Sse || e == Exchange::SZse || e == Exchange::Bse
}

fn exchange_of_chars(u: &Vec<char>) -> (r: Option<Exchange>)
    ensures
        r == exchange_of(u@),
{
    if u.len() == 2 && u[0] == 'S' && u[1] == 'H' {
        assert(u@ =~= seq!['S', 'H']);
        Some(Exchange::Sse)
    } else if u.len() == 2 && u[0] == 'S' && u[1] == 'Z' {
        assert(u@ =~= seq!['S', 'Z']);
        assert(u@ != seq!['S', 'H']);
        Some(Exchange::SZse)
    } else if u.len() == 2 && u[0] == 'B' && u[1] == 'J' {
        assert(u@ =~= seq!['B', 'J']);
        assert(u@ != seq!['S', 'H'] && u@ != seq!['S', 'Z']);
        Some(Exchange::Bse)
    } else if u.len() == 2 && u[0] == 'H' && u[1] == 'K' {
        assert(u@ =~= seq!['H', 'K']);
        assert(u@ != seq!['S', 'H'] && u@ != seq!['S', 'Z'] && u@ != seq!['B', 'J']);
        Some(Exchange::HKex)
    } else {
        assert(u@ != seq!['S', 'H'] && u@ != seq!['S', 'Z']);
        assert(u@ != seq!['B', 'J'] && u@ != seq!['H', 'K']);
        if u.len() > 0 && u[0] == '$' {
            Some(Exchange::Nasdaq)
        } else {
            None
        }
    }
}

impl Exchange {
    /// Reads a venue from an upper-case symbol prefix.
    pub fn from_upper(prefix: &str) -> (r: Option<Exchange>)
        ensures
            r == exchange_of(prefix@),
    {
        exchange_of_chars(&chars_of(prefix))
    }

    /// Reads a venue from a symbol prefix, in any letter case.
    pub fn from_str(prefix: &str) -> (r: Result<Exchange, InvestError>)
        ensures
            match r {
                Ok(e) => exchange_of(upper_of(prefix@)) == Some(e),
                Err(InvestError::UnsupportedExchange(p)) => exchange_of(upper_of(prefix@)).is_none()
                    && p@ == upper_of(prefix@),
                Err(_) => false,
            },
    {
        let upper = to_upper(prefix);
        match Exchange::from_upper(upper.as_str()) {
            Some(e) => Ok(e),
            None => Err(InvestError::UnsupportedExchange(upper)),
        }
    }
}

/// The text of a US symbol: with a leading `$`, added where missing.
pub open spec fn us_symbol(s: Seq<char>) -> Seq<char> {
    if s.len() > 0 && s[0] == '$' {
        s
    } else {
        seq!['$'] + s
    }
}

/// Writes a US symbol with its `$` prefix.
pub fn fmt_us_symbol(symbol: &str) -> (r: String)
    ensures
        r@ == us_symbol(symbol@),
{
    let cs = chars_of(symbol);
    if cs.len() > 0 && cs[0] == '$' {
        symbol.to_owned()
    } else {
        let mut r = "$".to_owned();
        r.append(symbol);
        proof {
            reveal_strlit("$");
        }
        r
    }
}

/// A security as a symbol names it.
#[derive(Debug, Clone)]
pub struct Investment {
    pub code: String,
    pub symbol: String,
    pub name: String,
    pub market: Option<Market>,
    pub exchange: Option<Exchange>,
}

pub struct InvestmentView {
    pub code: Seq<char>,
    pub symbol: Seq<char>,
    pub name: Seq<char>,
    pub market: Option<Market>,
    pub exchange: Option<Exchange>,
}

impl View for Investment {
    type V = InvestmentView;

    open spec fn view(&self) -> InvestmentView {
        InvestmentView {
            code: self.code@,
            symbol: self.symbol@,
            name: self.name@,
            market: self.market,
            exchange: self.exchange,
        }
    }
}

/// A mainland or Hong Kong symbol at the start of upper-cased text.
pub const CN_SYMBOL_PATTERN: &'static str = r"^((SZ|SH|BJ)\d{6}|HK(\d{5}|[A-Z]{3}))";

/// A US symbol at the start of upper-cased text.
pub const US_SYMBOL_PATTERN: &'static str = r"^([$.]?[A-Z][A-Z.]{0,4})";

/// The quoted list of a symbol lookup reply.
pub const SUGGEST_PATTERN: &'static str = "\"(.*)\"";

pub open spec fn is_group_pattern(p: Seq<char>) -> bool {
    p == CN_SYMBOL_PATTERN@ || p == US_SYMBOL_PATTERN@ || p == SUGGEST_PATTERN@
}

/// The text of group 1 of the first match of `pattern` in `text`, as
/// `regex::Regex::captures` finds it.
pub uninterp spec fn first_group_of(pattern: Seq<char>, text: Seq<char>) -> Option<Seq<char>>;

/// Relies on `regex::Regex::captures`: the text of group 1 of the first
/// match, if any. The patterns compile, and group 1 takes part in every
/// match of each.
#[verifier::external_body]
pub(crate) fn first_group(pattern: &str, text: &str) -> (r: Option<String>)
    requires
        is_group_pattern(pattern@),
    ensures
        opt_view(r) == first_group_of(pattern@, text@),
{
    let re = regex::Regex::new(pattern).unwrap();
    re.captures(text).map(|c| c[1].to_string())
}

/// What a symbol reads as, given the mainland or Hong Kong symbol found at
/// its start, else the US symbol found there: the first, with its venue;
/// else the second, on Nasdaq. An error holds the prefix that names no
/// venue, or nothing where no symbol was found.
pub open spec fn investment_of_matches(cn: Option<Seq<char>>, us: Option<Seq<char>>) -> Result<
    InvestmentView,
    Seq<char>,
> {
    match cn {
        Some(m) => if m.len() < 2 {
            Err(Seq::empty())
        } else {
            match exchange_of(m.take(2)) {
                Some(e) => Ok(
                    InvestmentView {
                        code: m.skip(2),
                        symbol: m,
                        name: Seq::empty(),
                        market: Some(Market::Stock),
                        exchange: Some(e),
                    },
                ),
                None => Err(m.take(2)),
            }
        },
        None => match us {
            Some(m) => Ok(
                InvestmentView {
                    code: us_symbol(m).skip(1),
                    symbol: us_symbol(m),
                    name: Seq::empty(),
                    market: Some(Market::Stock),
                    exchange: Some(Exchange::Nasdaq),
                },
            ),
            None => Err(Seq::empty()),
        },
    }
}

/// What a symbol text reads as, once upper-cased to `u`.
pub open spec fn investment_of(u: Seq<char>) -> Result<InvestmentView, Seq<char>> {
    investment_of_matches(first_group_of(CN_SYMBOL_PATTERN@, u), first_group_of(US_SYMBOL_PATTERN@, u))
}

fn skip_chars(s: &String, k: usize) -> (r: String)
    requires
        k <= s@.len(),
    ensures
        r@ == s@.skip(k as int),
{
    let cs = chars_of(s.as_str());
    let mut out: Vec<char> = Vec::new();
    let mut i: usize = k;
    while i < cs.len()
        invariant
            k <= i <= cs@.len(),
            cs@ == s@,
            out@ == cs@.subrange(k as int, i as int),
        decreases cs.len() - i,
    {
        out.push(cs[i]);
        assert(cs@.subrange(k as int, i + 1) =~= cs@.subrange(k as int, i as int).push(cs@[i as int]));
        i = i + 1;
    }
    assert(out@ =~= s@.skip(k as int));
    string_of(&out)
}

fn take_chars(s: &String, k: usize) -> (r: String)
    requires
        k <= s@.len(),
    ensures
        r@ == s@.take(k as int),
{
    let cs = chars_of(s.as_str());
    let mut out: Vec<char> = Vec::new();
    let mut i: usize = 0;
    while i < k
        invariant
            i <= k <= cs@.len(),
            cs@ == s@,
            out@ == cs@.take(i as int),
        decreases k - i,
    {
        out.push(cs[i]);
        assert(cs@.take(i + 1) =~= cs@.take(i as int).push(cs@[i as int]));
        i = i + 1;
    }
    string_of(&out)
}

pub open spec fn opt_view(o: Option<String>) -> Option<Seq<char>> {
    match o {
        Some(s) => Some(s@),
        None => None,
    }
}

impl Investment {
    /// Builds a security from the mainland or Hong Kong symbol found at the
    /// start of a text, else from the US symbol found there.
    pub fn from_matches(cn: Option<String>, us: Option<String>) -> (r: Result<Investment, InvestError>)
        ensures
            match (r, investment_of_matches(opt_view(cn), opt_view(us))) {
                (Ok(inv), Ok(v)) => inv@ == v,
                (Err(InvestError::UnsupportedExchange(p)), Err(e)) => e.len() > 0 && p@ == e,
                (Err(InvestError::UnrecognizedSymbol), Err(e)) => e.len() == 0,
                _ => false,
            },
    {
        match cn {
            Some(m) => {
                if m.as_str().unicode_len() < 2 {
                    return Err(InvestError::UnrecognizedSymbol);
                }
                let head = take_chars(&m, 2);
                match Exchange::from_upper(head.as_str()) {
                    Some(e) => Ok(
                        Investment {
                            code: skip_chars(&m, 2),
                            symbol: m,
                            name: String::new(),
                            market: Some(Market::Stock),
                            exchange: Some(e),
                        },
                    ),
                    None => Err(InvestError::UnsupportedExchange(head)),
                }
            },
            None => match us {
                Some(m) => {
                    let sym = fmt_us_symbol(m.as_str());
                    Ok(
                        Investment {
                            code: skip_chars(&sym, 1),
                            symbol: sym,
                            name: String::new(),
                            market: Some(Market::Stock),
                            exchange: Some(Exchange::Nasdaq),
                        },
                    )
                },
                None => Err(InvestError::UnrecognizedSymbol),
            },
        }
    }

    /// Reads a symbol, in any letter case: a mainland (`SH`, `SZ`, `BJ` and
    /// six digits) or Hong Kong (`HK` and five digits or three letters)
    /// symbol, else a US one, which gets its `$` prefix.
    pub fn from_str(symbol: &str) -> (r: Result<Investment, InvestError>)
        ensures
            match (r, investment_of(upper_of(symbol@))) {
                (Ok(inv), Ok(v)) => inv@ == v,
                (Err(InvestError::UnsupportedExchange(p)), Err(e)) => e.len() > 0 && p@ == e,
                (Err(InvestError::UnrecognizedSymbol), Err(e)) => e.len() == 0,
                _ => false,
            },
    {
        let upper = to_upper(symbol);
        let cn = first_group(CN_SYMBOL_PATTERN, upper.as_str());
        let us = match cn {
            Some(_) => None,
            None => first_group(US_SYMBOL_PATTERN, upper.as_str()),
        };
        proof {
            if cn.is_some() {
                assert(investment_of_matches(opt_view(cn), opt_view(us)) == investment_of(
                    upper_of(symbol@),
                ));
            }
        }
        Investment::from_matches(cn, us)
    }

    /// A copy with the same fields.
    pub fn duplicate(&self) -> (r: Investment)
        ensures
            r@ == self@,
    {
        Investment {
            code: self.code.clone(),
            symbol: self.symbol.clone(),
            name: self.name.clone(),
            market: self.market,
            exchange: self.exchange,
        }
    }
}

/// The text a symbol is looked up by: a Hong Kong symbol without its `HK`.
pub open spec fn lookup_text(symbol: Seq<char>) -> Seq<char> {
    if symbol.len() >= 2 && symbol[0] == 'H' && symbol[1] == 'K' {
        symbol.skip(2)
    } else {
        symbol
    }
}

/// The text to look a symbol up by.
pub fn lookup_query(invest: &Investment) -> (r: String)
    ensures
        r@ == lookup_text(invest.symbol@),
{
    let cs = chars_of(invest.symbol.as_str());
    if cs.len() >= 2 && cs[0] == 'H' && cs[1] == 'K' {
        skip_chars(&invest.symbol, 2)
    } else {
        invest.symbol.clone()
    }
}

/// Accepts a lookup's answer: its first entry, where that is a stock.
pub fn accept_lookup(results: &Vec<Investment>) -> (r: Result<Investment, InvestError>)
    ensures
        results@.len() > 0 && results@[0].market == Some(Market::Stock) ==> r is Ok && r->Ok_0@
            == results@[0]@,
        !(results@.len() > 0 && results@[0].market == Some(Market::Stock)) ==> r == Err::<
            Investment,
            InvestError,
        >(InvestError::WrongSymbol),
{
    if results.len() == 0 {
        return Err(InvestError::WrongSymbol);
    }
    let first = &results[0];
    match first.market {
        Some(Market::Stock) => Ok(first.duplicate()),
        _ => Err(InvestError::WrongSymbol),
    }
}

fn chars_eq(v: &Vec<char>, lit: &str) -> (r: bool)
    ensures
        r == (v@ == lit@),
{
    let l = chars_of(lit);
    if v.len() != l.len() {
        return false;
    }
    let mut i: usize = 0;
    while i < v.len()
        invariant
            i <= v@.len(),
            v@.len() == l@.len(),
            l@ == lit@,
            forall|j: int| 0 <= j < i ==> v@[j] == l@[j],
        decreases v.len() - i,
    {
        if v[i] != l[i] {
            return false;
        }
        i = i + 1;
    }
    assert(v@ =~= l@);
    true
}

/// Lookup type codes of mainland stocks.
pub open spec fn is_stock_code(t: Seq<char>) -> bool {
    t == "11"@ || t == "12"@ || t == "13"@ || t == "14"@ || t == "15"@
}

/// Lookup type codes of funds.
pub open spec fn is_fund_code(t: Seq<char>) -> bool {
    t == "21"@ || t == "22"@ || t == "23"@ || t == "24"@ || t == "25"@ || t == "26"@
}

/// Lookup type codes of US stocks.
pub open spec fn is_us_code(t: Seq<char>) -> bool {
    t == "41"@ || t == "42"@
}

/// The venue of a mainland lookup entry's upper-cased symbol.
pub open spec fn prefix_exchange(up: Seq<char>) -> Option<Exchange> {
    if up.len() >= 2 {
        exchange_of(up.take(2))
    } else {
        None
    }
}

/// The security that one lookup entry lists, where it is listed: fields are
/// name, type code, code, symbol, name, and at 8 the listing flag `1`.
pub open spec fn suggest_entry(v: Seq<Seq<char>>) -> Option<InvestmentView> {
    if v.len() < 9 || v[8] != "1"@ {
        None
    } else {
        let up = upper_of(v[3]);
        let t = v[1];
        let iv = InvestmentView {
            code: v[2],
            symbol: up,
            name: v[4],
            market: None,
            exchange: None,
        };
        if is_stock_code(t) {
            Some(InvestmentView { market: Some(Market::Stock), exchange: prefix_exchange(up), ..iv })
        } else if is_fund_code(t) {
            Some(InvestmentView { market: Some(Market::Fund), ..iv })
        } else if t == "31"@ {
            Some(
                InvestmentView {
                    symbol: "HK"@ + up,
                    market: Some(Market::Stock),
                    exchange: Some(Exchange::HKex),
                    ..iv
                },
            )
        } else if is_us_code(t) {
            Some(InvestmentView { market: Some(Market::Stock), ..iv })
        } else {
            Some(iv)
        }
    }
}

/// The securities that `;`-separated lookup entries list, in order.
pub open spec fn suggest_entries(entries: Seq<Seq<char>>) -> Seq<InvestmentView>
    decreases entries.len(),
{
    if entries.len() == 0 {
        Seq::empty()
    } else {
        let rest = suggest_entries(entries.drop_last());
        match suggest_entry(split_on(entries.last(), ',')) {
            Some(iv) => rest.push(iv),
            None => rest,
        }
    }
}

/// The securities that the quoted list of a lookup reply holds.
pub open spec fn suggest_list(list: Seq<char>) -> Seq<InvestmentView> {
    if list.len() == 0 {
        Seq::empty()
    } else {
        suggest_entries(split_on(list, ';'))
    }
}

/// The securities that a lookup reply lists: those of its quoted text.
pub open spec fn suggest_reply(content: Seq<char>) -> Seq<InvestmentView> {
    match first_group_of(SUGGEST_PATTERN@, content) {
        Some(m) => suggest_list(m),
        None => Seq::empty(),
    }
}

pub open spec fn investments_view(v: Seq<Investment>) -> Seq<InvestmentView> {
    v.map_values(|i: Investment| i@)
}

fn is_stock_code_exec(t: &Vec<char>) -> (r: bool)
    ensures
        r == is_stock_code(t@),
{
    chars_eq(t, "11") || chars_eq(t, "12") || chars_eq(t, "13") || chars_eq(t, "14") || chars_eq(t, "15")
}

fn is_fund_code_exec(t: &Vec<char>) -> (r: bool)
    ensures
        r == is_fund_code(t@),
{
    chars_eq(t, "21") || chars_eq(t, "22") || chars_eq(t, "23") || chars_eq(t, "24") || chars_eq(t, "25")
        || chars_eq(t, "26")
}

fn parse_suggest_entry(v: &Vec<Vec<char>>) -> (r: Option<Investment>)
    ensures
        match r {
            Some(i) => suggest_entry(views_of(v@)) == Some(i@),
            None => suggest_entry(views_of(v@)).is_none(),
        },
{
    if v.len() < 9 || !chars_eq(&v[8], "1") {
        return None;
    }
    let raw = string_of(&v[3]);
    let up = to_upper(raw.as_str());
    let t = &v[1];
    let code = string_of(&v[2]);
    let name = string_of(&v[4]);
    if is_stock_code_exec(t) {
        let exchange = if up.as_str().unicode_len() >= 2 {
            let head = take_chars(&up, 2);
            Exchange::from_upper(head.as_str())
        } else {
            None
        };
        Some(Investment { code, symbol: up, name, market: Some(Market::Stock), exchange })
    } else if is_fund_code_exec(t) {
        Some(Investment { code, symbol: up, name, market: Some(Market::Fund), exchange: None })
    } else if chars_eq(t, "31") {
        let mut symbol = "HK".to_owned();
        symbol.append(up.as_str());
        Some(Investment { code, symbol, name, market: Some(Market::Stock), exchange: Some(Exchange::HKex) })
    } else if chars_eq(t, "41") || chars_eq(t, "42") {
        Some(Investment { code, symbol: up, name, market: Some(Market::Stock), exchange: None })
    } else {
        Some(Investment { code, symbol: up, name, market: None, exchange: None })
    }
}

/// Reads the securities that the quoted list of a lookup reply holds, in
/// order; entries with fewer than nine fields or not listed are left out.
pub fn parse_suggest_list(list: &str) -> (r: Vec<Investment>)
    ensures
        investments_view(r@) == suggest_list(list@),
{
    let mut out: Vec<Investment> = Vec::new();
    let mc = chars_of(list);
    if mc.len() == 0 {
        assert(investments_view(out@) =~= Seq::<InvestmentView>::empty());
        return out;
    }
    let entries = split_chars(&mc, ';');
    let ghost es = views_of(entries@);
    let mut i: usize = 0;
    assert(investments_view(out@) =~= suggest_entries(es.take(0)));
    while i < entries.len()
        invariant
            i <= entries@.len(),
            es == views_of(entries@),
            investments_view(out@) == suggest_entries(es.take(i as int)),
        decreases entries.len() - i,
    {
        let fields = split_chars(&entries[i], ',');
        let e = parse_suggest_entry(&fields);
        proof {
            let t = es.take(i + 1);
            assert(t.drop_last() =~= es.take(i as int));
            assert(t.last() == entries@[i as int]@);
        }
        match e {
            Some(inv) => {
                out.push(inv);
                assert(investments_view(out@) =~= suggest_entries(es.take(i + 1)));
            },
            None => {},
        }
        i = i + 1;
    }
    assert(es.take(entries@.len() as int) =~= es);
    out
}

/// Reads the securities that a symbol lookup reply lists, in order.
pub fn parse_suggest_reply(content: &str) -> (r: Vec<Investment>)
    ensures
        investments_view(r@) == suggest_reply(content@),
{
    match first_group(SUGGEST_PATTERN, content) {
        Some(m) => parse_suggest_list(m.as_str()),
        None => {
            let out: Vec<Investment> = Vec::new();
            assert(investments_view(out@) =~= Seq::<InvestmentView>::empty());
            out
        },
    }
}

} // verus!
