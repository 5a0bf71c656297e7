//! The quote record and the wire payloads it is read from.

use vstd::prelude::*;
use crate::invest::{Exchange, exchange_of, is_mainland};
use crate::number::{
    field_number, number_text, push_number, parse_number, pow10, lemma_number_round_trip,
    lemma_field_number_range, lemma_number_text_has_no_comma,
};
use crate::text::{
    split_on, split_chars, piece, views_of, chars_of, string_of, upper_of, lower_of, to_upper,
    to_lower, free_of, join_with, join_chars, lemma_split_join,
    lemma_split_pieces_free,
};

verus! {

/// One security's trading state at a point in time. Prices and amounts are
/// counts of millionths.
#[derive(Debug, Clone)]
pub struct Quote {
    pub symbol: String,
    pub name: String,
    /// current price
    pub now: i128,
    /// prior session's close
    pub close: i128,
    pub open: i128,
    pub high: i128,
    pub low: i128,
    /// bid
    pub buy: i128,
    /// ask
    pub sell: i128,
    /// traded volume
    pub turnover: i128,
    /// traded value
    pub volume: i128,
    pub date: String,
    pub time: String,
}

pub struct QuoteView {
    pub symbol: Seq<char>,
    pub name: Seq<char>,
    pub now: int,
    pub close: int,
    pub open: int,
    pub high: int,
    pub low: int,
    pub buy: int,
    pub sell: int,
    pub turnover: int,
    pub volume: int,
    pub date: Seq<char>,
    pub time: Seq<char>,
}

impl View for Quote {
    type V = QuoteView;

    open spec fn view(&self) -> QuoteView {
        QuoteView {
            symbol: self.symbol@,
            name: self.name@,
            now: self.now as int,
            close: self.close as int,
            open: self.open as int,
            high: self.high as int,
            low: self.low as int,
            buy: self.buy as int,
            sell: self.sell as int,
            turnover: self.turnover as int,
            volume: self.volume as int,
            date: self.date@,
            time: self.time@,
        }
    }
}

pub open spec fn num_at(fs: Seq<Seq<char>>, i: int) -> int {
    field_number(piece(fs, i))
}

/// The quote that a mainland payload's fields give.
pub open spec fn mainland_view(fs: Seq<Seq<char>>) -> QuoteView {
    QuoteView {
        symbol: Seq::empty(),
        name: piece(fs, 0),
        now: num_at(fs, 3),
        close: num_at(fs, 2),
        open: num_at(fs, 1),
        high: num_at(fs, 4),
        low: num_at(fs, 5),
        buy: num_at(fs, 6),
        sell: num_at(fs, 7),
        turnover: num_at(fs, 8),
        volume: num_at(fs, 9),
        date: piece(fs, 30),
        time: piece(fs, 31),
    }
}

/// `s` with each `/` written as `-`.
pub open spec fn slashes_to_dashes(s: Seq<char>) -> Seq<char> {
    s.map_values(|c: char| if c == '/' { '-' } else { c })
}

/// The quote that a Hong Kong payload's fields give.
pub open spec fn hk_view(fs: Seq<Seq<char>>) -> QuoteView {
    QuoteView {
        symbol: Seq::empty(),
        name: piece(fs, 1),
        now: num_at(fs, 6),
        close: num_at(fs, 3),
        open: num_at(fs, 2),
        high: num_at(fs, 4),
        low: num_at(fs, 5),
        buy: num_at(fs, 6),
        sell: num_at(fs, 6),
        turnover: num_at(fs, 12),
        volume: num_at(fs, 11),
        date: slashes_to_dashes(piece(fs, 17)),
        time: piece(fs, 18),
    }
}

fn field_text(fs: &Vec<Vec<char>>, i: usize) -> (r: String)
    ensures
        r@ == piece(views_of(fs@), i as int),
{
    if i < fs.len() {
        string_of(&fs[i])
    } else {
        String::new()
    }
}

fn field_num(fs: &Vec<Vec<char>>, i: usize) -> (r: i128)
    ensures
        r == num_at(views_of(fs@), i as int),
{
    if i < fs.len() {
        parse_number(&fs[i])
    } else {
        let empty: Vec<char> = Vec::new();
        parse_number(&empty)
    }
}

/// Reads a quote from a mainland payload: name, open, prior close, current,
/// high, low, bid, ask, volume, value, and date and time at 30 and 31.
/// Missing or malformed fields read as zero or empty.
pub fn quote_from_str(payload: &str) -> (r: Quote)
    ensures
        r@ == mainland_view(split_on(payload@, ',')),
{
    let fs = split_chars(&chars_of(payload), ',');
    Quote {
        symbol: String::new(),
        name: field_text(&fs, 0),
        now: field_num(&fs, 3),
        close: field_num(&fs, 2),
        open: field_num(&fs, 1),
        high: field_num(&fs, 4),
        low: field_num(&fs, 5),
        buy: field_num(&fs, 6),
        sell: field_num(&fs, 7),
        turnover: field_num(&fs, 8),
        volume: field_num(&fs, 9),
        date: field_text(&fs, 30),
        time: field_text(&fs, 31),
    }
}

fn slashes_to_dashes_exec(s: &String) -> (r: String)
    ensures
        r@ == slashes_to_dashes(s@),
{
    let cs = chars_of(s.as_str());
    let mut out: Vec<char> = Vec::new();
    let mut i: usize = 0;
    while i < cs.len()
        invariant
            i <= cs@.len(),
            cs@ == s@,
            out@ == slashes_to_dashes(cs@.take(i as int)),
        decreases cs.len() - i,
    {
        let c = cs[i];
        out.push(if c == '/' { '-' } else { c });
        assert(slashes_to_dashes(cs@.take(i as int + 1)) =~= slashes_to_dashes(cs@.take(i as int)).push(
            if c == '/' { '-' } else { c },
        ));
        i = i + 1;
    }
    assert(cs@.take(cs@.len() as int) =~= cs@);
    string_of(&out)
}

/// Reads a quote from a Hong Kong payload: name at 1, open, prior close,
/// high, low at 2 to 5, current, bid and ask at 6, value at 11,
/// volume at 12, and date (slashes written as dashes) and time at 17 and 18.
/// Missing or malformed fields read as zero or empty.
pub fn quote_from_str_hk(payload: &str) -> (r: Quote)
    ensures
        r@ == hk_view(split_on(payload@, ',')),
{
    let fs = split_chars(&chars_of(payload), ',');
    let raw_date = field_text(&fs, 17);
    Quote {
        symbol: String::new(),
        name: field_text(&fs, 1),
        now: field_num(&fs, 6),
        close: field_num(&fs, 3),
        open: field_num(&fs, 2),
        high: field_num(&fs, 4),
        low: field_num(&fs, 5),
        buy: field_num(&fs, 6),
        sell: field_num(&fs, 6),
        turnover: field_num(&fs, 12),
        volume: field_num(&fs, 11),
        date: slashes_to_dashes_exec(&raw_date),
        time: field_text(&fs, 18),
    }
}

/// Whether a number lies in the range that a field can write.
pub open spec fn in_range(v: int) -> bool {
    -pow10(30) < v < pow10(30)
}

pub open spec fn numbers_in_range(q: QuoteView) -> bool {
    &&& in_range(q.now)
    &&& in_range(q.close)
    &&& in_range(q.open)
    &&& in_range(q.high)
    &&& in_range(q.low)
    &&& in_range(q.buy)
    &&& in_range(q.sell)
    &&& in_range(q.turnover)
    &&& in_range(q.volume)
}

/// The fields of the mainland layout that write a quote; the fields it does
/// not read are left empty.
pub open spec fn mainland_fields(q: QuoteView) -> Seq<Seq<char>> {
    seq![
        q.name,
        number_text(q.open),
        number_text(q.close),
        number_text(q.now),
        number_text(q.high),
        number_text(q.low),
        number_text(q.buy),
        number_text(q.sell),
        number_text(q.turnover),
        number_text(q.volume),
    ] + Seq::new(20, |i: int| Seq::<char>::empty()) + seq![q.date, q.time]
}

/// The mainland payload that writes a quote.
pub open spec fn mainland_text(q: QuoteView) -> Seq<char> {
    join_with(mainland_fields(q), ',')
}

fn number_chars(v: i128) -> (r: Vec<char>)
    requires
        in_range(v as int),
    ensures
        r@ == number_text(v as int),
{
    let mut out: Vec<char> = Vec::new();
    push_number(&mut out, v);
    assert(out@ =~= number_text(v as int));
    out
}

/// Writes a quote as a mainland payload, with its numbers in full.
pub fn quote_to_str(q: &Quote) -> (r: String)
    requires
        numbers_in_range(q@),
    ensures
        r@ == mainland_text(q@),
{
    let mut fs: Vec<Vec<char>> = Vec::new();
    fs.push(chars_of(q.name.as_str()));
    fs.push(number_chars(q.open));
    fs.push(number_chars(q.close));
    fs.push(number_chars(q.now));
    fs.push(number_chars(q.high));
    fs.push(number_chars(q.low));
    fs.push(number_chars(q.buy));
    fs.push(number_chars(q.sell));
    fs.push(number_chars(q.turnover));
    fs.push(number_chars(q.volume));
    let mut k: usize = 0;
    while k < 20
        invariant
            k <= 20,
            fs@.len() == 10 + k,
            forall|i: int| 10 <= i < 10 + k ==> (#[trigger] fs@[i])@ == Seq::<char>::empty(),
            views_of(fs@).take(10) == mainland_fields(q@).take(10),
        decreases 20 - k,
    {
        fs.push(Vec::new());
        assert(views_of(fs@).take(10) =~= views_of(fs@).drop_last().take(10));
        k = k + 1;
    }
    fs.push(chars_of(q.date.as_str()));
    fs.push(chars_of(q.time.as_str()));
    proof {
        let m = mainland_fields(q@);
        assert forall|i: int| 0 <= i < 32 implies #[trigger] views_of(fs@)[i] == m[i] by {
            if i < 10 {
                assert(views_of(fs@)[i] == views_of(fs@).take(10)[i]);
                assert(m[i] == m.take(10)[i]);
            }
        }
        assert(views_of(fs@) =~= m);
    }
    let out = join_chars(&fs, ',');
    string_of(&out)
}

/// Decoding a mainland payload, writing the quote back in the mainland layout
/// and decoding that again gives the same quote.
pub proof fn lemma_mainland_round_trip(payload: Seq<char>)
    requires
        split_on(payload, ',').len() >= 32,
    ensures
        mainland_view(split_on(mainland_text(mainland_view(split_on(payload, ','))), ','))
            == mainland_view(split_on(payload, ',')),
{
    let fs = split_on(payload, ',');
    let q = mainland_view(fs);
    let m = mainland_fields(q);
    lemma_split_pieces_free(payload, ',');
    assert(free_of(q.name, ','));
    assert(free_of(q.date, ','));
    assert(free_of(q.time, ','));
    lemma_field_number_range(piece(fs, 1));
    lemma_field_number_range(piece(fs, 2));
    lemma_field_number_range(piece(fs, 3));
    lemma_field_number_range(piece(fs, 4));
    lemma_field_number_range(piece(fs, 5));
    lemma_field_number_range(piece(fs, 6));
    lemma_field_number_range(piece(fs, 7));
    lemma_field_number_range(piece(fs, 8));
    lemma_field_number_range(piece(fs, 9));
    lemma_number_text_has_no_comma(q.open);
    lemma_number_text_has_no_comma(q.close);
    lemma_number_text_has_no_comma(q.now);
    lemma_number_text_has_no_comma(q.high);
    lemma_number_text_has_no_comma(q.low);
    lemma_number_text_has_no_comma(q.buy);
    lemma_number_text_has_no_comma(q.sell);
    lemma_number_text_has_no_comma(q.turnover);
    lemma_number_text_has_no_comma(q.volume);
    assert forall|i: int| 0 <= i < m.len() implies free_of(#[trigger] m[i], ',') by {
        if 10 <= i < 30 {
            assert(m[i] == Seq::<char>::empty());
        }
    }
    lemma_split_join(m, ',');
    lemma_number_round_trip(q.open);
    lemma_number_round_trip(q.close);
    lemma_number_round_trip(q.now);
    lemma_number_round_trip(q.high);
    lemma_number_round_trip(q.low);
    lemma_number_round_trip(q.buy);
    lemma_number_round_trip(q.sell);
    lemma_number_round_trip(q.turnover);
    lemma_number_round_trip(q.volume);
    assert(piece(m, 30) == q.date);
    assert(piece(m, 31) == q.time);
}

/// The request text of a lower-cased symbol list: a realtime marker `rt_`
/// stands before each symbol that starts with the Hong Kong code `hk`.
/// `at_start` tells whether `s` starts a symbol.
pub open spec fn realtime_encoded(s: Seq<char>, at_start: bool) -> Seq<char>
    decreases s.len(),
{
    if s.len() == 0 {
        Seq::empty()
    } else {
        let marker = if at_start && s.len() >= 2 && s[0] == 'h' && s[1] == 'k' {
            seq!['r', 't', '_']
        } else {
            Seq::empty()
        };
        marker + seq![s[0]] + realtime_encoded(s.skip(1), s[0] == ',')
    }
}

/// A wire key without its realtime marker.
pub open spec fn strip_realtime(k: Seq<char>) -> Seq<char> {
    if k.len() >= 3 && k[0] == 'r' && k[1] == 't' && k[2] == '_' {
        k.skip(3)
    } else {
        k
    }
}

/// Writes a comma-separated symbol list for a quote request: lower-cased,
/// with the realtime marker before each Hong Kong symbol.
pub fn fmt_quote_symbols(symbols: &str) -> (r: String)
    ensures
        r@ == realtime_encoded(lower_of(symbols@), true),
{
    let lower = to_lower(symbols);
    let cs = chars_of(lower.as_str());
    let mut out: Vec<char> = Vec::new();
    let mut i: usize = 0;
    assert(cs@.skip(0) =~= cs@);
    assert(out@ + realtime_encoded(cs@, true) =~= realtime_encoded(cs@, true));
    while i < cs.len()
        invariant
            i <= cs@.len(),
            cs@ == lower_of(symbols@),
            realtime_encoded(cs@, true) == out@ + realtime_encoded(
                cs@.skip(i as int),
                i == 0 || cs@[i - 1] == ',',
            ),
        decreases cs.len() - i,
    {
        let at_start = i == 0 || cs[i - 1] == ',';
        let rest = Ghost(cs@.skip(i as int));
        if at_start && i + 1 < cs.len() && cs[i] == 'h' && cs[i + 1] == 'k' {
            out.push('r');
            out.push('t');
            out.push('_');
        }
        out.push(cs[i]);
        proof {
            assert(rest@.skip(1) =~= cs@.skip(i + 1));
            assert(rest@[0] == cs@[i as int]);
            if at_start && i + 1 < cs.len() && cs@[i as int] == 'h' && cs@[i + 1] == 'k' {
                assert(rest@[1] == cs@[i + 1]);
            }
        }
        i = i + 1;
    }
    string_of(&out)
}

/// Takes the realtime marker off a wire key.
pub fn strip_realtime_prefix(key: &str) -> (r: String)
    ensures
        r@ == strip_realtime(key@),
{
    let cs = chars_of(key);
    if cs.len() >= 3 && cs[0] == 'r' && cs[1] == 't' && cs[2] == '_' {
        let mut out: Vec<char> = Vec::new();
        let mut i: usize = 3;
        while i < cs.len()
            invariant
                3 <= i <= cs@.len(),
                cs@ == key@,
                out@ == cs@.subrange(3, i as int),
            decreases cs.len() - i,
        {
            out.push(cs[i]);
            assert(cs@.subrange(3, i + 1) =~= cs@.subrange(3, i as int).push(cs@[i as int]));
            i = i + 1;
        }
        assert(out@ =~= cs@.skip(3));
        string_of(&out)
    } else {
        key.to_owned()
    }
}

proof fn lemma_encoded_inside_symbol(t: Seq<char>)
    requires
        free_of(t, ','),
    ensures
        realtime_encoded(t, false) == t,
    decreases t.len(),
{
    if t.len() > 0 {
        assert(free_of(t.skip(1), ','));
        lemma_encoded_inside_symbol(t.skip(1));
        assert(t[0] != ',');
        assert(seq![t[0]] + t.skip(1) =~= t);
        assert(Seq::<char>::empty() + seq![t[0]] + t.skip(1) =~= t);
    }
}

/// Request-encoding a lower-cased Hong Kong symbol and then taking the
/// realtime marker off gives the symbol back.
pub proof fn lemma_realtime_marker_round_trip(s: Seq<char>)
    requires
        s.len() >= 2,
        s[0] == 'h',
        s[1] == 'k',
        free_of(s, ','),
    ensures
        strip_realtime(realtime_encoded(s, true)) == s,
{
    assert(free_of(s.skip(1), ','));
    lemma_encoded_inside_symbol(s.skip(1));
    let e = realtime_encoded(s, true);
    assert(e =~= seq!['r', 't', '_'] + seq![s[0]] + s.skip(1));
    assert(e.skip(3) =~= s);
}

/// One `key=value` line of a streaming frame; the key keeps its realtime
/// marker.
pub const STREAM_FRAME_PATTERN: &'static str = "((?:rt_)?[a-z0-9]+)=(.*)\n";

/// One `hq_str_key="value"` assignment of a snapshot reply.
pub const SNAPSHOT_FRAME_PATTERN: &'static str = "hq_str_((?:rt_)?[a-z0-9]+)=\"(.*)\"";

pub open spec fn is_frame_pattern(p: Seq<char>) -> bool {
    p == STREAM_FRAME_PATTERN@ || p == SNAPSHOT_FRAME_PATTERN@
}

/// For each match of `pattern` in `text`, left to right, the texts of its
/// first two groups, as `regex::Regex::captures_iter` finds them.
pub uninterp spec fn captured_pairs(pattern: Seq<char>, text: Seq<char>) -> Seq<(Seq<char>, Seq<char>)>;

pub open spec fn pairs_view(v: Seq<(String, String)>) -> Seq<(Seq<char>, Seq<char>)> {
    v.map_values(|p: (String, String)| (p.0@, p.1@))
}

pub open spec fn quotes_view(v: Seq<Quote>) -> Seq<QuoteView> {
    v.map_values(|q: Quote| q@)
}

/// Relies on `regex::Regex::captures_iter`: for each match, left to right,
/// the texts of groups 1 and 2. Both patterns compile and both groups take
/// part in every match.
#[verifier::external_body]
fn capture_pairs(pattern: &str, text: &str) -> (r: Vec<(String, String)>)
    requires
        is_frame_pattern(pattern@),
    ensures
        pairs_view(r@) == captured_pairs(pattern@, text@),
{
    let re = regex::Regex::new(pattern).unwrap();
    re.captures_iter(text).map(|c| (c[1].to_string(), c[2].to_string())).collect()
}

pub open spec fn with_symbol(q: QuoteView, symbol: Seq<char>) -> QuoteView {
    QuoteView { symbol, ..q }
}

/// The quote that a payload gives for an upper-cased symbol: the symbol's
/// first two characters name the venue, and the venue picks the layout.
/// Symbols of other venues give none.
pub open spec fn symbol_quote(symbol: Seq<char>, body: Seq<char>) -> Option<QuoteView> {
    if symbol.len() < 2 {
        None
    } else {
        match exchange_of(symbol.take(2)) {
            Some(e) => if is_mainland(e) {
                Some(with_symbol(mainland_view(split_on(body, ',')), symbol))
            } else if e == Exchange::HKex {
                Some(with_symbol(hk_view(split_on(body, ',')), symbol))
            } else {
                None
            },
            None => None,
        }
    }
}

/// The quote that one wire assignment gives: its key, without the realtime
/// marker and upper-cased, is the symbol.
pub open spec fn frame_quote(key: Seq<char>, body: Seq<char>) -> Option<QuoteView> {
    symbol_quote(upper_of(strip_realtime(key)), body)
}

/// The batch that a sequence of wire assignments gives, in order.
pub open spec fn decode_frames(frames: Seq<(Seq<char>, Seq<char>)>) -> Seq<QuoteView>
    decreases frames.len(),
{
    if frames.len() == 0 {
        Seq::empty()
    } else {
        let rest = decode_frames(frames.drop_last());
        match frame_quote(frames.last().0, frames.last().1) {
            Some(q) => rest.push(q),
            None => rest,
        }
    }
}

/// Reads the payload of an upper-cased symbol in its venue's layout; a
/// symbol of another venue gives none.
pub fn quote_for_symbol(symbol: &str, body: &str) -> (r: Option<Quote>)
    ensures
        match r {
            Some(q) => symbol_quote(symbol@, body@) == Some(q@),
            None => symbol_quote(symbol@, body@).is_none(),
        },
{
    let sc = chars_of(symbol);
    if sc.len() < 2 {
        return None;
    }
    let mut head: Vec<char> = Vec::new();
    head.push(sc[0]);
    head.push(sc[1]);
    assert(head@ =~= sc@.take(2));
    let prefix = string_of(&head);
    let mut q = match Exchange::from_upper(prefix.as_str()) {
        Some(Exchange::Sse) | Some(Exchange::SZse) | Some(Exchange::Bse) => quote_from_str(body),
        Some(Exchange::HKex) => quote_from_str_hk(body),
        _ => return None,
    };
    q.symbol = symbol.to_owned();
    Some(q)
}

fn decode_frame(key: &String, body: &String) -> (r: Option<Quote>)
    ensures
        match r {
            Some(q) => frame_quote(key@, body@) == Some(q@),
            None => frame_quote(key@, body@).is_none(),
        },
{
    let k = strip_realtime_prefix(key.as_str());
    let symbol = to_upper(k.as_str());
    quote_for_symbol(symbol.as_str(), body.as_str())
}

/// Decodes a batch from wire assignments `(key, payload)`, in order; an
/// assignment whose key names no supported venue is left out.
pub fn quotes_from_frames(frames: &Vec<(String, String)>) -> (r: Vec<Quote>)
    ensures
        quotes_view(r@) == decode_frames(pairs_view(frames@)),
{
    let mut out: Vec<Quote> = Vec::new();
    let mut i: usize = 0;
    while i < frames.len()
        invariant
            i <= frames@.len(),
            quotes_view(out@) == decode_frames(pairs_view(frames@).take(i as int)),
        decreases frames.len() - i,
    {
        let d = decode_frame(&frames[i].0, &frames[i].1);
        proof {
            let t = pairs_view(frames@).take(i + 1);
            assert(t.drop_last() =~= pairs_view(frames@).take(i as int));
            assert(t.last() == (frames@[i as int].0@, frames@[i as int].1@));
        }
        match d {
            Some(q) => {
                out.push(q);
                assert(quotes_view(out@) =~= decode_frames(pairs_view(frames@).take(i + 1)));
            },
            None => {},
        }
        i = i + 1;
    }
    assert(pairs_view(frames@).take(frames@.len() as int) =~= pairs_view(frames@));
    out
}

/// Decodes the batch that one streaming frame carries.
pub fn quotes_from_stream_text(text: &str) -> (r: Vec<Quote>)
    ensures
        quotes_view(r@) == decode_frames(captured_pairs(STREAM_FRAME_PATTERN@, text@)),
{
    let frames = capture_pairs(STREAM_FRAME_PATTERN, text);
    quotes_from_frames(&frames)
}

/// Decodes the quotes of a snapshot reply.
pub fn quotes_from_snapshot_text(text: &str) -> (r: Vec<Quote>)
    ensures
        quotes_view(r@) == decode_frames(captured_pairs(SNAPSHOT_FRAME_PATTERN@, text@)),
{
    let frames = capture_pairs(SNAPSHOT_FRAME_PATTERN, text);
    quotes_from_frames(&frames)
}

} // verus!
