//! The decisions of a streaming session: what to do with each event on the
//! connection. The connection itself is driven by the caller.

use vstd::prelude::*;
use crate::quote::{
    Quote, fmt_quote_symbols, quotes_from_stream_text, quotes_view, decode_frames,
    captured_pairs, realtime_encoded, STREAM_FRAME_PATTERN,
};
use crate::text::lower_of;

verus! {

/// The quote portal, sent as the origin of the streaming request and as the
/// referrer of plain requests.
pub const PORTAL: &'static str = "https://finance.sina.com.cn";

/// Seconds between two liveness frames.
pub const LIVENESS_SECS: u64 = 60;

/// The streaming endpoint, before its symbol list.
pub const STREAM_ENDPOINT: &'static str = "wss://hq.sinajs.cn/wskt?list=";

/// The snapshot endpoint, before its symbol list.
pub const SNAPSHOT_ENDPOINT: &'static str = "https://hq.sinajs.cn/list=";

/// What happened on a streaming connection.
#[derive(Debug, Clone)]
pub enum StreamEvent {
    /// A text frame arrived.
    Text(String),
    /// A frame of another kind arrived.
    Other,
    /// The liveness interval elapsed.
    Tick,
    /// The connection failed or was closed.
    Closed,
}

/// What to do next.
#[derive(Debug, Clone)]
pub enum StreamAction {
    /// Hand this batch to the handler, then wait for the next event.
    Deliver(Vec<Quote>),
    /// Send an empty text frame.
    SendLiveness,
    /// Wait for the next event.
    Wait,
    /// The session is over.
    Stop,
}

/// The address of a streaming session for a comma-separated symbol list.
pub fn stream_url(symbols: &str) -> (r: String)
    ensures
        r@ == STREAM_ENDPOINT@ + realtime_encoded(lower_of(symbols@), true),
{
    let mut r = STREAM_ENDPOINT.to_owned();
    let list = fmt_quote_symbols(symbols);
    r.append(list.as_str());
    r
}

/// The address of a snapshot request for a comma-separated symbol list.
pub fn snapshot_url(symbols: &str) -> (r: String)
    ensures
        r@ == SNAPSHOT_ENDPOINT@ + realtime_encoded(lower_of(symbols@), true),
{
    let mut r = SNAPSHOT_ENDPOINT.to_owned();
    let list = fmt_quote_symbols(symbols);
    r.append(list.as_str());
    r
}

/// Decides what an event calls for: a text frame is decoded into a batch for
/// the handler, other frames are ignored, each tick sends a liveness frame,
/// and a lost connection ends the session.
pub fn stream_step(event: &StreamEvent) -> (r: StreamAction)
    ensures
        match event {
            StreamEvent::Text(t) => match r {
                StreamAction::Deliver(b) => quotes_view(b@) == decode_frames(
                    captured_pairs(STREAM_FRAME_PATTERN@, t@),
                ),
                _ => false,
            },
            StreamEvent::Other => r is Wait,
            StreamEvent::Tick => r is SendLiveness,
            StreamEvent::Closed => r is Stop,
        },
{
    match event {
        StreamEvent::Text(t) => StreamAction::Deliver(quotes_from_stream_text(t.as_str())),
        StreamEvent::Other => StreamAction::Wait,
        StreamEvent::Tick => StreamAction::SendLiveness,
        StreamEvent::Closed => StreamAction::Stop,
    }
}

} // verus!
