//! The command line's options, and the small decisions taken on them.

use vstd::prelude::*;
use crate::invest::{Exchange, is_mainland};

verus! {

/// What the command line asks for.
#[derive(Debug, Clone, PartialEq, Eq)]
pub struct Opts {
    pub debug: bool,
    pub cmd: Subcommand,
}

/// The subcommands.
#[derive(Debug, Clone, PartialEq, Eq)]
pub enum Subcommand {
    /// Look securities up by pinyin, code or name.
    Search { query: String, limit: u8 },
    /// Company information.
    Info {
        symbol: String,
        all: bool,
        financials: bool,
        structure: bool,
        dividends: bool,
        presses: bool,
    },
    /// Quotes, once or streaming.
    Quote { symbol: String, no_check: bool, realtime: bool, multiline: bool },
}

/// How many lookup results to show.
pub fn shown_results(limit: u8, found: usize) -> (r: usize)
    ensures
        r == if (limit as usize) < found { limit as usize } else { found },
{
    if (limit as usize) < found {
        limit as usize
    } else {
        found
    }
}

/// Whether company information is offered for a venue: mainland ones only.
pub fn info_supported(exchange: Option<Exchange>) -> (r: bool)
    ensures
        r == match exchange {
            Some(e) => is_mainland(e),
            None => false,
        },
{
    match exchange {
        Some(Exchange::Sse) | Some(Exchange::SZse) | Some(Exchange::Bse) => true,
        _ => false,
    }
}

} // verus!
