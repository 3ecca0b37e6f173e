//! The error taxonomy of the client core.
//!
//! Transport, parse and lookup failures are reported through one enum,
//! with plain-string payloads so the type stays fully visible to
//! verification; the surrounding process maps its own transport errors
//! into these variants at the boundary.

use vstd::prelude::*;

verus! {

/// Everything that can go wrong between a caller and the order-book
/// core.
#[derive(Debug)]
pub enum BinanceError {
    /// The long-lived stream session failed; fatal to the session.
    WebSocketError(String),
    /// The stream endpoint could not be parsed as a URL.
    UrlParseError(String),
    /// A message could not be serialized or deserialized.
    SerdeError(String),
    /// The snapshot request failed.
    HttpError(String),
    /// The symbol is empty; rejected before any network work.
    InvalidSymbol(String),
    /// An internal distribution channel failed.
    ChannelError,
    /// A stream was requested for a symbol nobody subscribed to.
    NoOrderBookStream(String),
}

/// The message text of each error variant: a fixed phrase, followed by
/// the offending value where there is one.
pub open spec fn error_message(e: BinanceError) -> Seq<char> {
    match e {
        BinanceError::WebSocketError(s) => "WebSocket error: "@ + s@,
        BinanceError::UrlParseError(s) => "URL parse error: "@ + s@,
        BinanceError::SerdeError(s) => "JSON serialization error: "@ + s@,
        BinanceError::HttpError(s) => "HTTP request error: "@ + s@,
        BinanceError::InvalidSymbol(s) => "Invalid symbol: "@ + s@,
        BinanceError::ChannelError => "Channel error"@,
        BinanceError::NoOrderBookStream(s) => "No orderbook stream for symbol: "@ + s@,
    }
}

impl BinanceError {
    /// Render the error as its message text.
    pub fn message(&self) -> (r: String)
        ensures
            r@ == error_message(*self),
    {
        match self {
            BinanceError::WebSocketError(s) => {
                let mut out = "WebSocket error: ".to_owned();
                out.append(s.as_str());
                out
            },
            BinanceError::UrlParseError(s) => {
                let mut out = "URL parse error: ".to_owned();
                out.append(s.as_str());
                out
            },
            BinanceError::SerdeError(s) => {
                let mut out = "JSON serialization error: ".to_owned();
                out.append(s.as_str());
                out
            },
            BinanceError::HttpError(s) => {
                let mut out = "HTTP request error: ".to_owned();
                out.append(s.as_str());
                out
            },
            BinanceError::InvalidSymbol(s) => {
                let mut out = "Invalid symbol: ".to_owned();
                out.append(s.as_str());
                out
            },
            BinanceError::ChannelError => "Channel error".to_owned(),
            BinanceError::NoOrderBookStream(s) => {
                let mut out = "No orderbook stream for symbol: ".to_owned();
                out.append(s.as_str());
                out
            },
        }
    }
}

} // verus!
