//! Symbol discovery: the symbol a listed prefix names, and the filter that
//! keeps the symbols a pattern matches in full.

use crate::error::PipelineError;
use crate::pattern::{regex_compiles, regex_is_match, regex_search};
use crate::paginator::{
    crawl_requests, cursor_texts, lemma_pages_read_bounds, pages_read, root_prefix,
    ListingPaginator,
};
use crate::text::{chars_of, file_start, find_file_start, string_of};
use crate::types::{marker_text, texts, SymbolResult};
use vstd::prelude::*;
use vstd::string::*;

verus! {

/// The symbol a prefix names: what stands between its last `/` and the `/`
/// before that (or the start). A prefix without `/` names none.
pub open spec fn symbol_of_prefix(prefix: Seq<char>) -> Option<Seq<char>> {
    let end = file_start(prefix) - 1;
    if end < 0 {
        None
    } else {
        Some(prefix.subrange(file_start(prefix.subrange(0, end)), end))
    }
}

/// The symbol that `prefix` names; a prefix without `/` is malformed.
pub fn derive_symbol(prefix: &str) -> (derived: Result<String, PipelineError>)
    ensures
        match symbol_of_prefix(prefix@) {
            Some(symbol) => derived matches Ok(text) && text@ == symbol,
            None => derived == Err::<String, PipelineError>(PipelineError::MalformedPrefix),
        },
{
    let chars = chars_of(prefix);
    assert(chars@.subrange(0, chars.len() as int) =~= prefix@);
    let behind = find_file_start(&chars, chars.len());
    if behind == 0 {
        return Err(PipelineError::MalformedPrefix);
    }
    let end = behind - 1;
    let start = find_file_start(&chars, end);
    Ok(string_of(&chars, start, end))
}

/// Whether every prefix names a symbol.
pub open spec fn all_name_symbols(prefixes: Seq<Seq<char>>) -> bool {
    forall|i: int| 0 <= i < prefixes.len() ==> symbol_of_prefix(#[trigger] prefixes[i]) is Some
}

/// The symbols that the prefixes name, in order.
pub open spec fn symbols_of(prefixes: Seq<Seq<char>>) -> Seq<Seq<char>> {
    prefixes.map_values(|prefix: Seq<char>| symbol_of_prefix(prefix)->0)
}

/// The symbols that the prefixes of `page` name, in order. A prefix that
/// names none makes the page malformed.
pub fn page_symbols(page: &SymbolResult) -> (derived: Result<Vec<String>, PipelineError>)
    ensures
        all_name_symbols(page.prefixes()) ==> (derived matches Ok(symbols) && texts(symbols@)
            == symbols_of(page.prefixes())),
        !all_name_symbols(page.prefixes()) ==> (derived matches Err(error) && error
            == PipelineError::MalformedPrefix),
{
    let ghost prefixes = page.prefixes();
    let mut symbols: Vec<String> = Vec::new();
    let mut i: usize = 0;
    assert(texts(symbols@) =~= symbols_of(prefixes.take(0)));
    while i < page.common_prefixes.len()
        invariant
            i <= page.common_prefixes.len(),
            prefixes == page.prefixes(),
            forall|k: int| 0 <= k < i ==> symbol_of_prefix(#[trigger] prefixes[k]) is Some,
            texts(symbols@) == symbols_of(prefixes.take(i as int)),
        decreases page.common_prefixes.len() - i,
    {
        assert(prefixes[i as int] == page.common_prefixes[i as int].prefix@);
        match derive_symbol(page.common_prefixes[i].prefix.as_str()) {
            Ok(symbol) => {
                let ghost before = symbols@;
                symbols.push(symbol);
                proof {
                    assert(texts(symbols@) =~= texts(before).push(symbol@));
                    assert(symbols_of(prefixes.take(i + 1)) =~= symbols_of(
                        prefixes.take(i as int),
                    ).push(symbol@));
                }
            },
            Err(_) => {
                return Err(PipelineError::MalformedPrefix);
            },
        }
        i += 1;
    }
    assert(prefixes.take(i as int) =~= prefixes);
    Ok(symbols)
}

/// `pattern` made to match whole texts only: `^(?:pattern)$`.
pub open spec fn anchored(pattern: Seq<char>) -> Seq<char> {
    "^(?:"@ + pattern + ")$"@
}

/// Whether `pattern` can be used as a filter: it compiles as given and
/// between the anchors.
pub open spec fn pattern_accepted(pattern: Seq<char>) -> bool {
    regex_compiles(pattern) && regex_compiles(anchored(pattern))
}

/// Whether `pattern` matches the whole of `symbol`.
pub open spec fn symbol_passes(pattern: Seq<char>, symbol: Seq<char>) -> bool {
    regex_is_match(anchored(pattern), symbol)
}

/// The test that [`symbol_passes`] makes for `pattern`.
pub open spec fn passes(pattern: Seq<char>) -> spec_fn(Seq<char>) -> bool {
    |symbol: Seq<char>| symbol_passes(pattern, symbol)
}

/// What two searches say of a symbol: `plain` is the search for the pattern
/// as given, `whole` the search for the anchored pattern. The symbol passes
/// where both patterns compiled and the anchored one matched; where either
/// did not compile, the pattern is invalid.
pub open spec fn full_match_verdict(plain: Option<bool>, whole: Option<bool>) -> Result<
    bool,
    PipelineError,
> {
    match (plain, whole) {
        (Some(_), Some(hit)) => Ok(hit),
        _ => Err(PipelineError::InvalidPattern),
    }
}

/// Executable form of [`full_match_verdict`].
pub fn full_match_outcome(plain: Option<bool>, whole: Option<bool>) -> (verdict: Result<
    bool,
    PipelineError,
>)
    ensures
        verdict == full_match_verdict(plain, whole),
{
    match (plain, whole) {
        (Some(_), Some(hit)) => Ok(hit),
        _ => Err(PipelineError::InvalidPattern),
    }
}

/// `pattern` between the anchors.
fn anchor(pattern: &str) -> (whole: String)
    ensures
        whole@ == anchored(pattern@),
{
    let mut whole = "^(?:".to_owned();
    whole.append(pattern);
    whole.append(")$");
    whole
}

/// Whether `pattern` can be used as a filter (see [`pattern_accepted`]).
pub fn pattern_is_valid(pattern: &str) -> (valid: bool)
    ensures
        valid == pattern_accepted(pattern@),
{
    let plain = regex_search(pattern, "");
    let whole = regex_search(anchor(pattern).as_str(), "");
    plain.is_some() && whole.is_some()
}

/// Whether `pattern` matches the whole of `symbol`. The pattern is searched
/// for twice: as given, so that a pattern that is no expression by itself is
/// refused, and anchored. A pattern that compiles by itself but not between
/// the anchors is refused as invalid too.
pub fn matches_fully(pattern: &str, symbol: &str) -> (verdict: Result<bool, PipelineError>)
    ensures
        verdict == (if pattern_accepted(pattern@) {
            Ok::<bool, PipelineError>(symbol_passes(pattern@, symbol@))
        } else {
            Err::<bool, PipelineError>(PipelineError::InvalidPattern)
        }),
{
    let plain = regex_search(pattern, symbol);
    let whole = regex_search(anchor(pattern).as_str(), symbol);
    full_match_outcome(plain, whole)
}

/// The verdict on item `index`: a missing verdict counts as `false`.
pub open spec fn verdict_at(verdicts: Seq<bool>, index: int) -> bool {
    0 <= index < verdicts.len() && verdicts[index]
}

/// The items of `symbols` whose verdict is `true`, in order.
pub open spec fn masked(symbols: Seq<Seq<char>>, verdicts: Seq<bool>) -> Seq<Seq<char>>
    decreases symbols.len(),
{
    if symbols.len() == 0 {
        symbols
    } else {
        let front = masked(symbols.drop_last(), verdicts);
        if verdict_at(verdicts, symbols.len() - 1) {
            front.push(symbols.last())
        } else {
            front
        }
    }
}

/// Keeping by verdicts that are the test's answers is filtering by the test.
pub proof fn lemma_masked_is_filter(
    symbols: Seq<Seq<char>>,
    verdicts: Seq<bool>,
    test: spec_fn(Seq<char>) -> bool,
)
    requires
        forall|i: int|
            0 <= i < symbols.len() ==> verdict_at(verdicts, i) == test(#[trigger] symbols[i]),
    ensures
        masked(symbols, verdicts) == symbols.filter(test),
    decreases symbols.len(),
{
    reveal(Seq::filter);
    if symbols.len() > 0 {
        lemma_masked_is_filter(symbols.drop_last(), verdicts, test);
    }
}

/// Keeps the symbols whose verdict is `true`, in order. A symbol without a
/// verdict is not kept.
pub fn retain_symbols(symbols: &Vec<String>, verdicts: &Vec<bool>) -> (kept: Vec<String>)
    ensures
        texts(kept@) == masked(texts(symbols@), verdicts@),
{
    let ghost all = texts(symbols@);
    let mut kept: Vec<String> = Vec::new();
    let mut i: usize = 0;
    assert(all.take(0) =~= Seq::<Seq<char>>::empty());
    while i < symbols.len()
        invariant
            i <= symbols.len(),
            all == texts(symbols@),
            texts(kept@) == masked(all.take(i as int), verdicts@),
        decreases symbols.len() - i,
    {
        proof {
            let next = all.take(i + 1);
            assert(next.drop_last() =~= all.take(i as int));
            assert(next.last() == symbols[i as int]@);
        }
        if i < verdicts.len() && verdicts[i] {
            let ghost before = kept@;
            kept.push(symbols[i].clone());
            assert(texts(kept@) =~= texts(before).push(symbols[i as int]@));
        }
        i += 1;
    }
    assert(all.take(i as int) =~= all);
    kept
}

/// Keeps the symbols that `pattern` matches in full, in order. A pattern
/// that cannot be used as a filter is invalid, whether or not there are
/// symbols to test.
pub fn filter_symbols(symbols: &Vec<String>, pattern: &str) -> (kept: Result<
    Vec<String>,
    PipelineError,
>)
    ensures
        pattern_accepted(pattern@) ==> (kept matches Ok(list) && texts(list@) == texts(
            symbols@,
        ).filter(passes(pattern@))),
        !pattern_accepted(pattern@) ==> (kept matches Err(error) && error
            == PipelineError::InvalidPattern),
{
    if !pattern_is_valid(pattern) {
        return Err(PipelineError::InvalidPattern);
    }
    let ghost all = texts(symbols@);
    let mut verdicts: Vec<bool> = Vec::new();
    let mut i: usize = 0;
    while i < symbols.len()
        invariant
            i <= symbols.len(),
            verdicts.len() == i,
            all == texts(symbols@),
            pattern_accepted(pattern@),
            forall|k: int| 0 <= k < i ==> verdicts[k] == passes(pattern@)(#[trigger] all[k]),
        decreases symbols.len() - i,
    {
        match matches_fully(pattern, symbols[i].as_str()) {
            Ok(hit) => {
                verdicts.push(hit);
            },
            Err(error) => {
                return Err(error);
            },
        }
        i += 1;
    }
    let kept = retain_symbols(symbols, &verdicts);
    proof {
        lemma_masked_is_filter(all, verdicts@, passes(pattern@));
    }
    Ok(kept)
}

/// The cursors the pages of a recorded listing came with.
pub open spec fn page_cursors(pages: Seq<SymbolResult>) -> Seq<Option<Seq<char>>> {
    pages.map_values(|page: SymbolResult| page.cursor())
}

/// The pages of a recorded listing that a crawl reads: up to and with the
/// first page without a cursor.
pub open spec fn pages_seen(pages: Seq<SymbolResult>) -> Seq<SymbolResult> {
    pages.take(pages_read(page_cursors(pages)))
}

/// Whether every prefix of every page names a symbol.
pub open spec fn pages_name_symbols(pages: Seq<SymbolResult>) -> bool {
    forall|i: int| 0 <= i < pages.len() ==> all_name_symbols(#[trigger] pages[i].prefixes())
}

/// The symbols that the prefixes of the pages name, page after page.
pub open spec fn symbols_of_pages(pages: Seq<SymbolResult>) -> Seq<Seq<char>>
    decreases pages.len(),
{
    if pages.len() == 0 {
        Seq::empty()
    } else {
        symbols_of_pages(pages.drop_last()) + symbols_of(pages.last().prefixes())
    }
}

/// What symbol discovery gives for a recorded listing: the symbols of the
/// pages read that `pattern` matches in full.
pub open spec fn discovered_symbols(pages: Seq<SymbolResult>, pattern: Seq<char>) -> Seq<
    Seq<char>,
> {
    symbols_of_pages(pages_seen(pages)).filter(passes(pattern))
}

/// Discovery gives exactly the listed symbols that the pattern matches in
/// full: a symbol is among the discovered ones if and only if a prefix of a
/// page read names it and the pattern matches the whole of it.
pub proof fn lemma_discovered_exactly_matching(
    pages: Seq<SymbolResult>,
    pattern: Seq<char>,
    symbol: Seq<char>,
)
    ensures
        discovered_symbols(pages, pattern).contains(symbol) <==> (symbols_of_pages(
            pages_seen(pages),
        ).contains(symbol) && symbol_passes(pattern, symbol)),
{
    let listed = symbols_of_pages(pages_seen(pages));
    let kept = listed.filter(passes(pattern));
    if kept.contains(symbol) {
        listed.lemma_filter_contains_rev(passes(pattern), symbol);
        let i = choose|i: int| 0 <= i < kept.len() && kept[i] == symbol;
        listed.lemma_filter_pred(passes(pattern), i);
    }
    if listed.contains(symbol) && symbol_passes(pattern, symbol) {
        let i = choose|i: int| 0 <= i < listed.len() && listed[i] == symbol;
        listed.lemma_filter_contains(passes(pattern), i);
    }
}

/// The outcome of symbol discovery on a recorded listing.
#[derive(Debug)]
pub struct SymbolCrawl {
    /// The listing requests made, one per page read.
    pub requests: Vec<String>,
    /// The symbols discovered, in the order of the listing.
    pub symbols: Vec<String>,
}

/// The cursors of the pages, copied out.
fn cursors_of(pages: &Vec<SymbolResult>) -> (cursors: Vec<Option<String>>)
    ensures
        cursor_texts(cursors@) == page_cursors(pages@),
{
    let mut cursors: Vec<Option<String>> = Vec::new();
    let mut i: usize = 0;
    while i < pages.len()
        invariant
            i <= pages.len(),
            cursors.len() == i,
            forall|k: int|
                0 <= k < i ==> marker_text(#[trigger] cursors[k]) == pages[k].cursor(),
        decreases pages.len() - i,
    {
        let cursor = match &pages[i].next_marker {
            Some(marker) => Some(marker.clone()),
            None => None,
        };
        cursors.push(cursor);
        i += 1;
    }
    assert(cursor_texts(cursors@) =~= page_cursors(pages@));
    cursors
}

/// Symbol discovery against a recorded listing of the root prefix: walks the
/// pages as a crawl does, up to and with the first page without a cursor,
/// takes the symbol of each prefix, and keeps the symbols that
/// `symbol_filter` matches in full.
///
/// A prefix that names no symbol, on a page that is read, is a malformed
/// listing. A filter that cannot be used (see [`pattern_accepted`]) is an
/// invalid pattern.
pub fn fetch(pages: &Vec<SymbolResult>, symbol_filter: &str) -> (crawl: Result<
    SymbolCrawl,
    PipelineError,
>)
    ensures
        !pages_name_symbols(pages_seen(pages@)) ==> (crawl matches Err(error) && error
            == PipelineError::MalformedPrefix),
        pages_name_symbols(pages_seen(pages@)) && !pattern_accepted(symbol_filter@) ==> (
        crawl matches Err(error) && error == PipelineError::InvalidPattern),
        pages_name_symbols(pages_seen(pages@)) && pattern_accepted(symbol_filter@) ==> (
        crawl matches Ok(found) && texts(found.requests@) == crawl_requests(
            root_prefix(),
            page_cursors(pages@),
        ) && texts(found.symbols@) == discovered_symbols(pages@, symbol_filter@)),
{
    let cursors = cursors_of(pages);
    let requests = ListingPaginator::crawl("data/spot/daily/klines/", &cursors);
    let count = requests.len();
    let ghost seen = pages_seen(pages@);
    proof {
        assert(texts(requests@).len() == requests@.len());
        lemma_pages_read_bounds(page_cursors(pages@), 0);
    }
    let mut symbols: Vec<String> = Vec::new();
    let mut i: usize = 0;
    assert(seen.take(0) =~= Seq::<SymbolResult>::empty());
    while i < count
        invariant
            i <= count == seen.len() <= pages.len(),
            seen == pages@.take(count as int),
            seen == pages_seen(pages@),
            pages_name_symbols(seen.take(i as int)),
            texts(symbols@) == symbols_of_pages(seen.take(i as int)),
        decreases count - i,
    {
        proof {
            let next = seen.take(i + 1);
            assert(next.drop_last() =~= seen.take(i as int));
            assert(next.last() == pages[i as int]);
            assert(seen[i as int] == pages[i as int]);
        }
        match page_symbols(&pages[i]) {
            Ok(listed) => {
                let mut listed = listed;
                let ghost before = symbols@;
                let ghost added = listed@;
                symbols.append(&mut listed);
                assert(texts(symbols@) =~= texts(before) + texts(added));
            },
            Err(_) => {
                assert(!all_name_symbols(seen[i as int].prefixes()));
                return Err(PipelineError::MalformedPrefix);
            },
        }
        proof {
            let next = seen.take(i + 1);
            assert forall|k: int| 0 <= k < next.len() implies all_name_symbols(
                #[trigger] next[k].prefixes(),
            ) by {
                if k < i {
                    assert(next[k] == seen.take(i as int)[k]);
                }
            }
        }
        i += 1;
    }
    assert(seen.take(count as int) =~= seen);
    match filter_symbols(&symbols, symbol_filter) {
        Ok(kept) => Ok(SymbolCrawl { requests, symbols: kept }),
        Err(_) => Err(PipelineError::InvalidPattern),
    }
}

} // verus!
