//! Walking a paginated listing: the address of each page, and the state that
//! says which page is asked for next and when the listing is exhausted.

use crate::text::push_char;
use crate::types::{marker_text, texts};
use vstd::prelude::*;
use vstd::string::*;
use vstd::utf8::encode_utf8;

verus! {

/// The listing endpoint.
pub open spec fn listing_endpoint() -> Seq<char> {
    "https://s3-ap-northeast-1.amazonaws.com/data.binance.vision"@
}

/// The query that precedes the prefix in a listing address.
pub open spec fn prefix_query() -> Seq<char> {
    "?delimiter=/&prefix="@
}

/// The query that precedes the marker in a listing address.
pub open spec fn marker_query() -> Seq<char> {
    "&marker="@
}

/// The prefix under which every symbol has its own prefix.
pub open spec fn root_prefix() -> Seq<char> {
    "data/spot/daily/klines/"@
}

/// The prefix under which the archives of `symbol` at `interval` are listed:
/// `data/spot/daily/klines/<symbol>/<interval>/`.
pub open spec fn archive_prefix(symbol: Seq<char>, interval: Seq<char>) -> Seq<char> {
    root_prefix() + symbol.push('/') + interval.push('/')
}

/// The bytes a marker keeps as they are: ASCII letters and digits, and
/// `-`, `.`, `_`, `~` and `/`.
pub open spec fn is_plain_byte(b: u8) -> bool {
    (0x30 <= b <= 0x39) || (0x41 <= b <= 0x5a) || (0x61 <= b <= 0x7a) || b == 0x2d || b == 0x2e
        || b == 0x5f || b == 0x7e || b == 0x2f
}

/// The upper-case hexadecimal digit for a value below 16.
pub open spec fn hex_digit(n: int) -> char
    recommends
        0 <= n < 16,
{
    if n < 10 {
        (0x30 + n) as char
    } else {
        (0x37 + n) as char
    }
}

/// One byte, percent-encoded: itself where it is plain, else `%` and its two
/// hexadecimal digits.
pub open spec fn encode_byte(b: u8) -> Seq<char> {
    if is_plain_byte(b) {
        seq![b as char]
    } else {
        seq!['%', hex_digit(b as int / 16), hex_digit(b as int % 16)]
    }
}

/// A sequence of bytes, percent-encoded byte by byte.
pub open spec fn percent_encode(bytes: Seq<u8>) -> Seq<char>
    decreases bytes.len(),
{
    if bytes.len() == 0 {
        Seq::<char>::empty()
    } else {
        percent_encode(bytes.drop_last()) + encode_byte(bytes.last())
    }
}

/// A marker as it stands in a listing address: its UTF-8 bytes,
/// percent-encoded.
pub open spec fn encoded_marker(marker: Seq<char>) -> Seq<char> {
    percent_encode(encode_utf8(marker))
}

/// The address of the page of the listing of `prefix` that follows `marker`;
/// the first page follows the empty marker.
pub open spec fn listing_url(prefix: Seq<char>, marker: Seq<char>) -> Seq<char> {
    listing_endpoint() + prefix_query() + prefix + marker_query() + encoded_marker(marker)
}

/// Executable form of [`hex_digit`].
fn hex_char(n: u8) -> (c: char)
    requires
        n < 16,
    ensures
        c == hex_digit(n as int),
{
    if n < 10 {
        (0x30u8 + n) as char
    } else {
        (0x37u8 + n) as char
    }
}

/// Appends the percent-encoding of the UTF-8 bytes of `marker` to `url`.
pub fn push_encoded_marker(url: &mut String, marker: &str)
    ensures
        final(url)@ == old(url)@ + encoded_marker(marker@),
{
    let bytes = marker.as_bytes();
    let n = bytes.len();
    let mut i: usize = 0;
    assert(bytes@.take(0) =~= Seq::<u8>::empty());
    while i < n
        invariant
            i <= n == bytes@.len(),
            bytes@ == encode_utf8(marker@),
            url@ == old(url)@ + percent_encode(bytes@.take(i as int)),
        decreases n - i,
    {
        let b: u8 = bytes[i];
        proof {
            let next = bytes@.take(i + 1);
            assert(next.drop_last() =~= bytes@.take(i as int));
            assert(next.last() == b);
        }
        let plain = (0x30 <= b && b <= 0x39) || (0x41 <= b && b <= 0x5a) || (0x61 <= b && b
            <= 0x7a) || b == 0x2d || b == 0x2e || b == 0x5f || b == 0x7e || b == 0x2f;
        if plain {
            push_char(url, b as char);
            assert(url@ =~= old(url)@ + percent_encode(bytes@.take(i + 1)));
        } else {
            push_char(url, '%');
            push_char(url, hex_char(b / 16));
            push_char(url, hex_char(b % 16));
            assert(url@ =~= old(url)@ + percent_encode(bytes@.take(i + 1)));
        }
        i += 1;
    }
    assert(bytes@.take(n as int) =~= bytes@);
}

/// The address of the page of the listing of `prefix` that follows `marker`.
pub fn build_listing_url(prefix: &str, marker: &str) -> (url: String)
    ensures
        url@ == listing_url(prefix@, marker@),
{
    let mut url = "https://s3-ap-northeast-1.amazonaws.com/data.binance.vision".to_owned();
    url.append("?delimiter=/&prefix=");
    url.append(prefix);
    url.append("&marker=");
    push_encoded_marker(&mut url, marker);
    url
}

/// The prefix under which the archives of `symbol` at `interval` are listed.
pub fn build_archive_prefix(symbol: &str, interval: &str) -> (prefix: String)
    ensures
        prefix@ == archive_prefix(symbol@, interval@),
{
    let mut prefix = "data/spot/daily/klines/".to_owned();
    prefix.append(symbol);
    push_char(&mut prefix, '/');
    prefix.append(interval);
    push_char(&mut prefix, '/');
    assert(prefix@ =~= archive_prefix(symbol@, interval@));
    prefix
}

/// The state of a crawl: the prefix that is listed, the marker the next page
/// follows, and whether the last page has been seen.
pub struct PaginatorView {
    pub prefix: Seq<char>,
    pub marker: Seq<char>,
    pub exhausted: bool,
}

/// The state before the first page: the empty marker, not exhausted.
pub open spec fn initial_state(prefix: Seq<char>) -> PaginatorView {
    PaginatorView { prefix, marker: Seq::empty(), exhausted: false }
}

/// The state after a page that came with `cursor`: a page without a cursor
/// exhausts the crawl, one with a cursor makes it the next marker. An
/// exhausted crawl stays as it is.
pub open spec fn step(state: PaginatorView, cursor: Option<Seq<char>>) -> PaginatorView {
    if state.exhausted {
        state
    } else {
        match cursor {
            Some(marker) => PaginatorView { marker, ..state },
            None => PaginatorView { exhausted: true, ..state },
        }
    }
}

/// The request a crawl makes in `state`, if it makes one.
pub open spec fn request_in(state: PaginatorView) -> Option<Seq<char>> {
    if state.exhausted {
        None
    } else {
        Some(listing_url(state.prefix, state.marker))
    }
}

/// The state of a crawl of `prefix` after pages that came with `cursors`.
pub open spec fn state_after(prefix: Seq<char>, cursors: Seq<Option<Seq<char>>>) -> PaginatorView
    decreases cursors.len(),
{
    if cursors.len() == 0 {
        initial_state(prefix)
    } else {
        step(state_after(prefix, cursors.drop_last()), cursors.last())
    }
}

/// How many of the pages from index `from` on a crawl reads before it stops:
/// up to and with the first page without a cursor, or all of them.
pub open spec fn pages_read_from(cursors: Seq<Option<Seq<char>>>, from: int) -> int
    decreases cursors.len() - from,
{
    if from >= cursors.len() {
        cursors.len() as int
    } else if cursors[from] is None {
        from + 1
    } else {
        pages_read_from(cursors, from + 1)
    }
}

/// How many pages a crawl reads of a listing whose pages come with
/// `cursors`.
pub open spec fn pages_read(cursors: Seq<Option<Seq<char>>>) -> int {
    pages_read_from(cursors, 0)
}

/// The marker that the request for page `index` carries: empty for the first
/// page, else the cursor of the page before.
pub open spec fn marker_for(cursors: Seq<Option<Seq<char>>>, index: int) -> Seq<char> {
    if index == 0 {
        Seq::empty()
    } else {
        match cursors[index - 1] {
            Some(marker) => marker,
            None => Seq::empty(),
        }
    }
}

/// The requests a crawl of `prefix` makes against a listing whose pages come
/// with `cursors`: one for each page it reads.
pub open spec fn crawl_requests(prefix: Seq<char>, cursors: Seq<Option<Seq<char>>>) -> Seq<
    Seq<char>,
> {
    Seq::new(
        pages_read(cursors) as nat,
        |index: int| listing_url(prefix, marker_for(cursors, index)),
    )
}

/// The cursors of a recorded listing, as texts.
pub open spec fn cursor_texts(cursors: Seq<Option<String>>) -> Seq<Option<Seq<char>>> {
    cursors.map_values(|cursor: Option<String>| marker_text(cursor))
}

/// As long as every page came with a cursor, the crawl is not exhausted and
/// its marker is the cursor of the last page.
pub proof fn lemma_state_while_cursors(prefix: Seq<char>, cursors: Seq<Option<Seq<char>>>)
    requires
        forall|k: int| 0 <= k < cursors.len() ==> cursors[k] is Some,
    ensures
        state_after(prefix, cursors) == (PaginatorView {
            prefix,
            marker: marker_for(cursors, cursors.len() as int),
            exhausted: false,
        }),
    decreases cursors.len(),
{
    if cursors.len() > 0 {
        lemma_state_while_cursors(prefix, cursors.drop_last());
    }
}

/// Once a page came without a cursor, the crawl is exhausted whatever
/// follows.
pub proof fn lemma_state_after_last_page(
    prefix: Seq<char>,
    cursors: Seq<Option<Seq<char>>>,
    last: int,
)
    requires
        0 <= last < cursors.len(),
        cursors[last] is None,
    ensures
        state_after(prefix, cursors).exhausted,
    decreases cursors.len(),
{
    if last < cursors.len() - 1 {
        lemma_state_after_last_page(prefix, cursors.drop_last(), last);
    }
}

/// A crawl reads at least the pages before `from`, and no more pages than
/// there are.
pub proof fn lemma_pages_read_bounds(cursors: Seq<Option<Seq<char>>>, from: int)
    requires
        0 <= from <= cursors.len(),
    ensures
        from <= pages_read_from(cursors, from) <= cursors.len(),
    decreases cursors.len() - from,
{
    if from < cursors.len() && cursors[from] is Some {
        lemma_pages_read_bounds(cursors, from + 1);
    }
}

/// Pages with a cursor before index `from` do not change how many pages are
/// read.
pub proof fn lemma_pages_read_skips_cursors(cursors: Seq<Option<Seq<char>>>, from: int)
    requires
        0 <= from <= cursors.len(),
        forall|k: int| 0 <= k < from ==> cursors[k] is Some,
    ensures
        pages_read(cursors) == pages_read_from(cursors, from),
    decreases from,
{
    if from > 0 {
        lemma_pages_read_skips_cursors(cursors, from - 1);
    }
}

/// A crawl makes exactly one request per page and stops after the first page
/// that comes without a cursor: where the pages before index `last` come with
/// a cursor and page `last` comes without one, the crawl reads `last + 1`
/// pages, it asks for each of them in turn, with the marker the page before
/// gave, and it asks for nothing after them.
pub proof fn lemma_crawl_stops_at_last_page(
    prefix: Seq<char>,
    cursors: Seq<Option<Seq<char>>>,
    last: int,
)
    requires
        0 <= last < cursors.len(),
        forall|k: int| 0 <= k < last ==> cursors[k] is Some,
        cursors[last] is None,
    ensures
        pages_read(cursors) == last + 1,
        crawl_requests(prefix, cursors).len() == last + 1,
        forall|k: int|
            0 <= k <= last ==> request_in(#[trigger] state_after(prefix, cursors.take(k)))
                == Some(crawl_requests(prefix, cursors)[k]),
        forall|k: int|
            last < k <= cursors.len() ==> request_in(
                #[trigger] state_after(prefix, cursors.take(k)),
            ) is None,
{
    lemma_pages_read_skips_cursors(cursors, last);
    assert forall|k: int| 0 <= k <= last implies request_in(
        #[trigger] state_after(prefix, cursors.take(k)),
    ) == Some(crawl_requests(prefix, cursors)[k]) by {
        lemma_state_while_cursors(prefix, cursors.take(k));
        assert(marker_for(cursors.take(k), k) == marker_for(cursors, k));
    }
    assert forall|k: int| last < k <= cursors.len() implies request_in(
        #[trigger] state_after(prefix, cursors.take(k)),
    ) is None by {
        lemma_state_after_last_page(prefix, cursors.take(k), last);
    }
}

/// A listing in which every page comes with a cursor is read to its end,
/// with one request per page.
pub proof fn lemma_crawl_without_last_page(prefix: Seq<char>, cursors: Seq<Option<Seq<char>>>)
    requires
        forall|k: int| 0 <= k < cursors.len() ==> cursors[k] is Some,
    ensures
        pages_read(cursors) == cursors.len(),
        crawl_requests(prefix, cursors).len() == cursors.len(),
{
    lemma_pages_read_skips_cursors(cursors, cursors.len() as int);
}

/// A crawl of one listing: hands out the address of the next page and takes
/// the cursor each page came with.
#[derive(Debug)]
pub struct ListingPaginator {
    prefix: String,
    marker: String,
    exhausted: bool,
}

impl View for ListingPaginator {
    type V = PaginatorView;

    closed spec fn view(&self) -> PaginatorView {
        PaginatorView { prefix: self.prefix@, marker: self.marker@, exhausted: self.exhausted }
    }
}

impl ListingPaginator {
    /// A crawl of the listing of `prefix`, before its first page.
    pub fn new(prefix: &str) -> (paginator: ListingPaginator)
        ensures
            paginator@ == initial_state(prefix@),
    {
        ListingPaginator { prefix: prefix.to_owned(), marker: String::new(), exhausted: false }
    }

    /// A crawl of the listing of the root prefix, under which every symbol
    /// has its own prefix.
    pub fn for_symbols() -> (paginator: ListingPaginator)
        ensures
            paginator@ == initial_state(root_prefix()),
    {
        ListingPaginator::new("data/spot/daily/klines/")
    }

    /// A crawl of the listing of the archives of `symbol` at `interval`.
    pub fn for_archives(symbol: &str, interval: &str) -> (paginator: ListingPaginator)
        ensures
            paginator@ == initial_state(archive_prefix(symbol@, interval@)),
    {
        let prefix = build_archive_prefix(symbol, interval);
        ListingPaginator::new(prefix.as_str())
    }

    /// Whether the last page has been seen.
    pub fn is_exhausted(&self) -> (exhausted: bool)
        ensures
            exhausted == self@.exhausted,
    {
        self.exhausted
    }

    /// The address of the next page, or `None` once the crawl is exhausted.
    pub fn next_request(&self) -> (request: Option<String>)
        ensures
            match request_in(self@) {
                Some(url) => request matches Some(text) && text@ == url,
                None => request is None,
            },
    {
        if self.exhausted {
            None
        } else {
            Some(build_listing_url(self.prefix.as_str(), self.marker.as_str()))
        }
    }

    /// The requests a crawl of `prefix` makes against a recorded listing whose
    /// pages came with `cursors`: one for each page, up to and with the first
    /// page without a cursor.
    pub fn crawl(prefix: &str, cursors: &Vec<Option<String>>) -> (requests: Vec<String>)
        ensures
            texts(requests@) == crawl_requests(prefix@, cursor_texts(cursors@)),
    {
        let ghost recorded = cursor_texts(cursors@);
        let mut paginator = ListingPaginator::new(prefix);
        let mut requests: Vec<String> = Vec::new();
        let mut i: usize = 0;
        while i < cursors.len() && !paginator.is_exhausted()
            invariant
                i <= cursors.len(),
                recorded == cursor_texts(cursors@),
                paginator@.prefix == prefix@,
                paginator@.exhausted ==> pages_read(recorded) == i,
                !paginator@.exhausted ==> paginator@.marker == marker_for(recorded, i as int)
                    && pages_read(recorded) == pages_read_from(recorded, i as int),
                requests.len() == i,
                forall|k: int|
                    0 <= k < i ==> (#[trigger] requests[k])@ == listing_url(
                        prefix@,
                        marker_for(recorded, k),
                    ),
            decreases cursors.len() - i,
        {
            match paginator.next_request() {
                Some(url) => {
                    requests.push(url);
                },
                None => {},
            }
            paginator.advance(&cursors[i]);
            i += 1;
        }
        assert(texts(requests@) =~= crawl_requests(prefix@, recorded));
        requests
    }

    /// Takes note of the cursor the page just read came with.
    pub fn advance(&mut self, next_marker: &Option<String>)
        ensures
            final(self)@ == step(
                old(self)@,
                match *next_marker {
                    Some(marker) => Some(marker@),
                    None => None,
                },
            ),
    {
        if !self.exhausted {
            match next_marker {
                Some(marker) => {
                    self.marker = marker.clone();
                },
                None => {
                    self.exhausted = true;
                },
            }
        }
    }
}

} // verus!
