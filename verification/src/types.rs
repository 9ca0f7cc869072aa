//! The pages of an object listing, as the listing endpoint returns them.

use vstd::prelude::*;

verus! {

/// One page of the listing of the root prefix: the sub-prefixes found under
/// it, and the marker of the next page if there is one.
#[derive(Debug, Clone, PartialEq, Eq)]
pub struct SymbolResult {
    pub name: String,
    pub next_marker: Option<String>,
    pub common_prefixes: Vec<CommonPrefixes>,
}

/// One page of the listing of a symbol's archives: the keys found, and the
/// marker of the next page if there is one.
#[derive(Debug, Clone, PartialEq, Eq)]
pub struct KlineResult {
    pub next_marker: Option<String>,
    pub contents: Option<Vec<Contents>>,
}

/// A sub-prefix of a listing, such as `data/spot/daily/klines/BTCUSDT/`.
#[derive(Debug, Clone, PartialEq, Eq)]
pub struct CommonPrefixes {
    pub prefix: String,
}

/// The key of one listed object.
#[derive(Debug, Clone, PartialEq, Eq)]
pub struct Contents {
    pub key: String,
}

/// The text of an optional string.
pub open spec fn marker_text(marker: Option<String>) -> Option<Seq<char>> {
    match marker {
        Some(text) => Some(text@),
        None => None,
    }
}

/// The texts of a sequence of strings.
pub open spec fn texts(strings: Seq<String>) -> Seq<Seq<char>> {
    strings.map_values(|s: String| s@)
}

impl SymbolResult {
    /// The prefixes of the page, in order.
    pub open spec fn prefixes(self) -> Seq<Seq<char>> {
        self.common_prefixes@.map_values(|entry: CommonPrefixes| entry.prefix@)
    }

    /// The marker of the next page, if this is not the last one.
    pub open spec fn cursor(self) -> Option<Seq<char>> {
        marker_text(self.next_marker)
    }
}

impl KlineResult {
    /// The keys of the page, in order; none where the page has no contents.
    pub open spec fn keys(self) -> Seq<Seq<char>> {
        match self.contents {
            Some(contents) => contents@.map_values(|entry: Contents| entry.key@),
            None => Seq::empty(),
        }
    }

    /// The marker of the next page, if this is not the last one.
    pub open spec fn cursor(self) -> Option<Seq<char>> {
        marker_text(self.next_marker)
    }
}

} // verus!
