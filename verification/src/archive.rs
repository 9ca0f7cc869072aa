//! Archive keys: the file name grammar, what a key says of its archive, and
//! the names of the files an archive is staged in and unpacked to.

use crate::date::{date_of_fields, Date};
use crate::error::PipelineError;
use crate::pattern::{char_is_word, is_word_char};
use crate::text::{
    all_digits, char_is_digit, chars_of, decimal_value, file_start, find_file_start, is_digit,
    lemma_decimal_of_padded, lemma_decimal_value_bound, lemma_padded_decimal_digits,
    lemma_padded_of_decimal, padded_decimal, parse_digits, pow10, push_char, push_chars,
    push_padded, string_of,
};
use vstd::prelude::*;
use vstd::string::*;

verus! {

/// A word: one or more word characters.
pub open spec fn is_word(s: Seq<char>) -> bool {
    s.len() > 0 && forall|i: int| 0 <= i < s.len() ==> is_word_char(#[trigger] s[i])
}

/// The suffix that marks a key as an archive: `.zip`.
pub open spec fn archive_suffix() -> Seq<char> {
    seq!['.', 'z', 'i', 'p']
}

/// The suffix of an unpacked file: `.csv`.
pub open spec fn extracted_suffix() -> Seq<char> {
    seq!['.', 'c', 's', 'v']
}

/// The host that serves the archives, with the trailing `/`.
pub open spec fn content_host() -> Seq<char> {
    "https://data.binance.vision/"@
}

/// The length of `-YYYY-MM-DD.zip`, the part of a key that follows the symbol
/// and the interval.
pub open spec fn dated_tail_len() -> int {
    15
}

/// Whether `key` ends in the archive suffix.
pub open spec fn is_archive_key(key: Seq<char>) -> bool {
    key.len() >= 4 && key.subrange(key.len() - 4, key.len() as int) == archive_suffix()
}

/// Whether `key` ends in `-YYYY-MM-DD.zip`, each letter a digit.
pub open spec fn has_dated_tail(key: Seq<char>) -> bool {
    let t = key.len() - dated_tail_len();
    &&& t >= 0
    &&& key[t] == '-'
    &&& all_digits(key.subrange(t + 1, t + 5))
    &&& key[t + 5] == '-'
    &&& all_digits(key.subrange(t + 6, t + 8))
    &&& key[t + 8] == '-'
    &&& all_digits(key.subrange(t + 9, t + 11))
    &&& key.subrange(t + 11, key.len() as int) == archive_suffix()
}

/// The date written in the tail of `key`, if those digits name a day.
pub open spec fn tail_date(key: Seq<char>) -> Option<Date>
    recommends
        has_dated_tail(key),
{
    let t = key.len() - dated_tail_len();
    date_of_fields(
        Some(
            (
                decimal_value(key.subrange(t + 1, t + 5)) as i32,
                decimal_value(key.subrange(t + 6, t + 8)) as u32,
                decimal_value(key.subrange(t + 9, t + 11)) as u32,
            ),
        ),
    )
}

/// The index of the first `-` of `s`, or its length where `s` has none.
pub open spec fn first_dash(s: Seq<char>) -> int
    decreases s.len(),
{
    if s.len() == 0 {
        0
    } else if s.first() == '-' {
        0
    } else {
        1 + first_dash(s.drop_first())
    }
}

/// What an archive key says: the symbol and interval of the archive, the day
/// it covers, and the address it is fetched from.
pub struct ArchiveView {
    pub symbol: Seq<char>,
    pub interval: Seq<char>,
    pub date: Date,
    pub source_url: Seq<char>,
}

impl ArchiveView {
    /// Symbol and interval are words, and the date is a day of a year that
    /// is written in four digits.
    pub open spec fn well_formed(self) -> bool {
        &&& is_word(self.symbol)
        &&& is_word(self.interval)
        &&& self.date.well_formed()
        &&& 0 <= self.date.year <= 9999
    }
}

/// Reads `key` by the grammar `<dir>/<symbol>-<interval>-<YYYY>-<MM>-<DD>.zip`,
/// where the directory part is optional, symbol and interval are words and
/// the date is a day that exists. `None` where the key does not follow it.
pub open spec fn parse_key(key: Seq<char>) -> Option<ArchiveView> {
    if has_dated_tail(key) {
        let t = key.len() - dated_tail_len();
        let head = key.subrange(file_start(key.subrange(0, t)), t);
        let dash = first_dash(head);
        let symbol = head.subrange(0, dash);
        let interval = head.subrange(dash + 1, head.len() as int);
        if dash < head.len() && is_word(symbol) && is_word(interval) {
            match tail_date(key) {
                Some(date) => Some(
                    ArchiveView { symbol, interval, date, source_url: content_host() + key },
                ),
                None => None,
            }
        } else {
            None
        }
    } else {
        None
    }
}

/// Whether `chars[from..to]` is a word.
fn range_is_word(chars: &Vec<char>, from: usize, to: usize) -> (r: bool)
    requires
        from <= to <= chars.len(),
    ensures
        r == is_word(chars@.subrange(from as int, to as int)),
{
    if from == to {
        return false;
    }
    let ghost range = chars@.subrange(from as int, to as int);
    let mut i: usize = from;
    while i < to
        invariant
            from <= i <= to <= chars.len(),
            range == chars@.subrange(from as int, to as int),
            forall|k: int| 0 <= k < i - from ==> is_word_char(#[trigger] range[k]),
        decreases to - i,
    {
        if !char_is_word(chars[i]) {
            assert(range[i - from] == chars[i as int]);
            return false;
        }
        assert(range[i - from] == chars[i as int]);
        i += 1;
    }
    true
}

/// Whether `chars[from..to]` are all digits.
fn range_is_digits(chars: &Vec<char>, from: usize, to: usize) -> (r: bool)
    requires
        from <= to <= chars.len(),
    ensures
        r == all_digits(chars@.subrange(from as int, to as int)),
{
    let ghost range = chars@.subrange(from as int, to as int);
    let mut i: usize = from;
    while i < to
        invariant
            from <= i <= to <= chars.len(),
            range == chars@.subrange(from as int, to as int),
            forall|k: int| 0 <= k < i - from ==> is_digit(#[trigger] range[k]),
        decreases to - i,
    {
        if !char_is_digit(chars[i]) {
            assert(range[i - from] == chars[i as int]);
            return false;
        }
        assert(range[i - from] == chars[i as int]);
        i += 1;
    }
    true
}

/// Whether `chars` ends in the archive suffix.
fn ends_with_archive_suffix(chars: &Vec<char>) -> (r: bool)
    ensures
        r == is_archive_key(chars@),
{
    let n = chars.len();
    if n < 4 {
        return false;
    }
    let r = chars[n - 4] == '.' && chars[n - 3] == 'z' && chars[n - 2] == 'i' && chars[n - 1]
        == 'p';
    proof {
        let tail = chars@.subrange(n - 4, n as int);
        assert(tail[0] == chars[n - 4] && tail[1] == chars[n - 3] && tail[2] == chars[n - 2]
            && tail[3] == chars[n - 1]);
        if r {
            assert(tail =~= archive_suffix());
        }
    }
    r
}

/// Whether `chars` ends in `-YYYY-MM-DD.zip`.
fn check_dated_tail(chars: &Vec<char>) -> (r: bool)
    ensures
        r == has_dated_tail(chars@),
{
    let n = chars.len();
    if n < 15 {
        return false;
    }
    let t = n - 15;
    let suffix = ends_with_archive_suffix(chars);
    chars[t] == '-' && range_is_digits(chars, t + 1, t + 5) && chars[t + 5] == '-'
        && range_is_digits(chars, t + 6, t + 8) && chars[t + 8] == '-' && range_is_digits(
        chars,
        t + 9,
        t + 11,
    ) && suffix
}

/// The index of the first `-` in `chars[from..to]`, or `to`.
fn find_first_dash(chars: &Vec<char>, from: usize, to: usize) -> (dash: usize)
    requires
        from <= to <= chars.len(),
    ensures
        from <= dash <= to,
        dash - from == first_dash(chars@.subrange(from as int, to as int)),
{
    let mut p: usize = from;
    while p < to && chars[p] != '-'
        invariant
            from <= p <= to <= chars.len(),
            first_dash(chars@.subrange(from as int, to as int)) == (p - from) + first_dash(
                chars@.subrange(p as int, to as int),
            ),
        decreases to - p,
    {
        proof {
            let here = chars@.subrange(p as int, to as int);
            assert(here.first() == chars[p as int]);
            assert(here.drop_first() == chars@.subrange(p + 1, to as int));
        }
        p += 1;
    }
    proof {
        let here = chars@.subrange(p as int, to as int);
        if p < to {
            assert(here.first() == chars[p as int]);
        }
    }
    p
}

/// A key that parses names a well-formed archive.
pub proof fn lemma_parse_key_well_formed(key: Seq<char>)
    requires
        parse_key(key) is Some,
    ensures
        parse_key(key)->0.well_formed(),
        is_archive_key(key),
{
    let t = key.len() - dated_tail_len();
    let year = key.subrange(t + 1, t + 5);
    lemma_decimal_value_bound(year);
    reveal_with_fuel(pow10, 5);
    assert(key.subrange(t + 11, key.len() as int) =~= key.subrange(
        key.len() - 4,
        key.len() as int,
    ));
}

/// One archive of the remote store: which symbol and interval it belongs to,
/// the day it covers and where it is fetched from.
#[derive(Debug)]
pub struct ArchiveRef {
    symbol: String,
    interval: String,
    date: Date,
    source_url: String,
}

impl View for ArchiveRef {
    type V = ArchiveView;

    closed spec fn view(&self) -> ArchiveView {
        ArchiveView {
            symbol: self.symbol@,
            interval: self.interval@,
            date: self.date,
            source_url: self.source_url@,
        }
    }
}

impl Clone for ArchiveRef {
    fn clone(&self) -> (copy: ArchiveRef)
        ensures
            copy@ == self@,
    {
        proof {
            use_type_invariant(self);
        }
        ArchiveRef {
            symbol: self.symbol.clone(),
            interval: self.interval.clone(),
            date: self.date,
            source_url: self.source_url.clone(),
        }
    }
}

/// The file name of an archive without its suffix:
/// `<symbol>-<interval>-<YYYY>-<MM>-<DD>`.
pub open spec fn file_stem(archive: ArchiveView) -> Seq<char> {
    archive.symbol.push('-') + archive.interval.push('-') + date_stem(archive.date)
}

/// A date as it stands in a file name: `YYYY-MM-DD`.
pub open spec fn date_stem(date: Date) -> Seq<char> {
    padded_decimal(date.year as nat, 4).push('-') + padded_decimal(date.month as nat, 2).push('-')
        + padded_decimal(date.day as nat, 2)
}

/// A date as a directory under the output root: `YYYY/MM/DD/`.
pub open spec fn date_directory(date: Date) -> Seq<char> {
    padded_decimal(date.year as nat, 4).push('/') + padded_decimal(date.month as nat, 2).push('/')
        + padded_decimal(date.day as nat, 2).push('/')
}

/// `dir` as the front of a path: with a `/` behind it, unless it is empty or
/// ends in one already.
pub open spec fn with_separator(dir: Seq<char>) -> Seq<char> {
    if dir.len() == 0 || dir.last() == '/' {
        dir
    } else {
        dir.push('/')
    }
}

/// The directory an archive of `date` is unpacked into:
/// `<data_dir>/<YYYY>/<MM>/<DD>/`.
pub open spec fn target_directory_of(data_dir: Seq<char>, date: Date) -> Seq<char> {
    with_separator(data_dir) + date_directory(date)
}

/// The file that unpacking an archive leaves behind, whose presence marks the
/// archive as ingested: `<data_dir>/<YYYY>/<MM>/<DD>/<stem>.csv`.
pub open spec fn target_path_of(data_dir: Seq<char>, archive: ArchiveView) -> Seq<char> {
    target_directory_of(data_dir, archive.date) + file_stem(archive) + extracted_suffix()
}

/// The file an archive is staged in while it is downloaded:
/// `<temp_dir>/<stem>.zip`.
pub open spec fn temp_path_of(temp_dir: Seq<char>, archive: ArchiveView) -> Seq<char> {
    with_separator(temp_dir) + file_stem(archive) + archive_suffix()
}

/// Appends `dir` to `path`, and a `/` unless `dir` is empty or ends in one.
fn push_directory(path: &mut String, dir: &str)
    ensures
        final(path)@ == old(path)@ + with_separator(dir@),
{
    let chars = chars_of(dir);
    let n = chars.len();
    push_chars(path, &chars, 0, n);
    assert(chars@.subrange(0, n as int) =~= dir@);
    if n > 0 && chars[n - 1] != '/' {
        push_char(path, '/');
        assert(path@ =~= old(path)@ + dir@.push('/'));
    }
}

/// Appends `YYYY<sep>MM<sep>DD` to `path`.
fn push_date(path: &mut String, date: &Date, separator: char)
    requires
        0 <= date.year,
    ensures
        final(path)@ == old(path)@ + (padded_decimal(date.year as nat, 4).push(separator)
            + padded_decimal(date.month as nat, 2).push(separator) + padded_decimal(
            date.day as nat,
            2,
        )),
{
    push_padded(path, date.year as u32, 4);
    push_char(path, separator);
    push_padded(path, date.month, 2);
    push_char(path, separator);
    push_padded(path, date.day, 2);
    assert(path@ =~= old(path)@ + (padded_decimal(date.year as nat, 4).push(separator)
        + padded_decimal(date.month as nat, 2).push(separator) + padded_decimal(
        date.day as nat,
        2,
    )));
}

impl ArchiveRef {
    #[verifier::type_invariant]
    spec fn valid(self) -> bool {
        self@.well_formed()
    }

    /// Reads an archive key by the file name grammar (see [`parse_key`]).
    /// A key that does not follow it is reported as malformed.
    pub fn from_key(key: &str) -> (parsed: Result<ArchiveRef, PipelineError>)
        ensures
            match parse_key(key@) {
                Some(view) => parsed matches Ok(archive) && archive@ == view,
                None => parsed == Err::<ArchiveRef, PipelineError>(PipelineError::MalformedKey),
            },
            parsed matches Ok(archive) ==> archive@.well_formed(),
    {
        let chars = chars_of(key);
        if !check_dated_tail(&chars) {
            return Err(PipelineError::MalformedKey);
        }
        let n = chars.len();
        let t = n - 15;
        let start = find_file_start(&chars, t);
        let dash = find_first_dash(&chars, start, t);
        let ghost head = key@.subrange(start as int, t as int);
        proof {
            assert(head.subrange(0, dash - start) =~= key@.subrange(start as int, dash as int));
        }
        if dash >= t {
            return Err(PipelineError::MalformedKey);
        }
        proof {
            assert(head.subrange(dash - start + 1, head.len() as int) =~= key@.subrange(
                dash + 1,
                t as int,
            ));
        }
        if !range_is_word(&chars, start, dash) || !range_is_word(&chars, dash + 1, t) {
            return Err(PipelineError::MalformedKey);
        }
        proof {
            lemma_decimal_value_bound(key@.subrange(t + 1, t + 5));
            lemma_decimal_value_bound(key@.subrange(t + 6, t + 8));
            lemma_decimal_value_bound(key@.subrange(t + 9, t + 11));
            reveal_with_fuel(pow10, 5);
        }
        let year = parse_digits(&chars, t + 1, t + 5);
        let month = parse_digits(&chars, t + 6, t + 8);
        let day = parse_digits(&chars, t + 9, t + 11);
        match Date::from_ymd(year as i32, month, day) {
            None => Err(PipelineError::MalformedKey),
            Some(date) => {
                let symbol = string_of(&chars, start, dash);
                let interval = string_of(&chars, dash + 1, t);
                let mut source_url = "https://data.binance.vision/".to_owned();
                source_url.append(key);
                Ok(ArchiveRef { symbol, interval, date, source_url })
            },
        }
    }

    /// The symbol the archive belongs to.
    pub fn symbol(&self) -> (symbol: &str)
        ensures
            symbol@ == self@.symbol,
            self@.well_formed(),
    {
        proof {
            use_type_invariant(self);
        }
        self.symbol.as_str()
    }

    /// The sampling interval of the archive.
    pub fn interval(&self) -> (interval: &str)
        ensures
            interval@ == self@.interval,
            self@.well_formed(),
    {
        proof {
            use_type_invariant(self);
        }
        self.interval.as_str()
    }

    /// The day the archive covers.
    pub fn date(&self) -> (date: Date)
        ensures
            date == self@.date,
            self@.well_formed(),
    {
        proof {
            use_type_invariant(self);
        }
        self.date
    }

    /// The address the archive is fetched from.
    pub fn source_url(&self) -> (url: &str)
        ensures
            url@ == self@.source_url,
            self@.well_formed(),
    {
        proof {
            use_type_invariant(self);
        }
        self.source_url.as_str()
    }

    /// Appends the file name of the archive, without a suffix, to `path`.
    fn push_file_stem(&self, path: &mut String)
        ensures
            final(path)@ == old(path)@ + file_stem(self@),
    {
        proof {
            use_type_invariant(self);
        }
        path.append(self.symbol.as_str());
        push_char(path, '-');
        path.append(self.interval.as_str());
        push_char(path, '-');
        let ghost front = path@;
        push_date(path, &self.date, '-');
        assert(path@ =~= old(path)@ + file_stem(self@));
    }

    /// The file name of the archive without its suffix.
    pub fn file_stem(&self) -> (stem: String)
        ensures
            stem@ == file_stem(self@),
    {
        let mut stem = String::new();
        self.push_file_stem(&mut stem);
        stem
    }

    /// The directory under `data_dir` the archive is unpacked into.
    pub fn target_directory(&self, data_dir: &str) -> (dir: String)
        ensures
            dir@ == target_directory_of(data_dir@, self@.date),
    {
        proof {
            use_type_invariant(self);
        }
        let mut dir = String::new();
        push_directory(&mut dir, data_dir);
        push_date(&mut dir, &self.date, '/');
        push_char(&mut dir, '/');
        assert(dir@ =~= target_directory_of(data_dir@, self@.date));
        dir
    }

    /// The file under `data_dir` that unpacking the archive leaves behind.
    pub fn target_path(&self, data_dir: &str) -> (path: String)
        ensures
            path@ == target_path_of(data_dir@, self@),
    {
        let mut path = self.target_directory(data_dir);
        self.push_file_stem(&mut path);
        path.append(".csv");
        proof {
            reveal_strlit(".csv");
            assert(".csv"@ =~= extracted_suffix());
        }
        path
    }

    /// The file under `temp_dir` the archive is staged in.
    pub fn temp_path(&self, temp_dir: &str) -> (path: String)
        ensures
            path@ == temp_path_of(temp_dir@, self@),
    {
        let mut path = String::new();
        push_directory(&mut path, temp_dir);
        self.push_file_stem(&mut path);
        path.append(".zip");
        proof {
            reveal_strlit(".zip");
            assert(".zip"@ =~= archive_suffix());
        }
        path
    }
}

/// Whether `key` ends in the archive suffix.
pub fn is_archive(key: &str) -> (r: bool)
    ensures
        r == is_archive_key(key@),
{
    let chars = chars_of(key);
    ends_with_archive_suffix(&chars)
}

/// Joining the same front to two texts gives equal texts only for equal
/// texts.
pub proof fn lemma_same_front(front: Seq<char>, a: Seq<char>, b: Seq<char>)
    requires
        front + a == front + b,
    ensures
        a == b,
{
    assert((front + a).subrange(front.len() as int, (front + a).len() as int) =~= a);
    assert((front + b).subrange(front.len() as int, (front + b).len() as int) =~= b);
}

/// A key that follows the grammar ends in the file name that is rebuilt from
/// what it says: the staged and the unpacked file are named after the remote
/// one.
pub proof fn lemma_key_ends_in_file_name(key: Seq<char>)
    requires
        parse_key(key) is Some,
    ensures
        key == key.subrange(0, file_start(key.subrange(0, key.len() - dated_tail_len())))
            + file_stem(parse_key(key)->0) + archive_suffix(),
{
    let t = key.len() - dated_tail_len();
    let start = file_start(key.subrange(0, t));
    let archive = parse_key(key)->0;
    let year = key.subrange(t + 1, t + 5);
    let month = key.subrange(t + 6, t + 8);
    let day = key.subrange(t + 9, t + 11);
    lemma_file_start_bounds(key.subrange(0, t));
    lemma_decimal_value_bound(year);
    lemma_decimal_value_bound(month);
    lemma_decimal_value_bound(day);
    reveal_with_fuel(pow10, 5);
    lemma_padded_of_decimal(year);
    lemma_padded_of_decimal(month);
    lemma_padded_of_decimal(day);
    assert(date_stem(archive.date) =~= key.subrange(t + 1, t + 11));
    let head = key.subrange(start, t);
    lemma_first_dash_is_dash(head);
    assert(archive.symbol.push('-') + archive.interval =~= head);
    assert(file_stem(archive) =~= key.subrange(start, t + 11));
    assert(key =~= key.subrange(0, start) + file_stem(archive) + archive_suffix());
}

/// The first `-` of a text lies inside it or at its end, and is a `-` where
/// it lies inside.
pub proof fn lemma_first_dash_is_dash(s: Seq<char>)
    ensures
        0 <= first_dash(s) <= s.len(),
        first_dash(s) < s.len() ==> s[first_dash(s)] == '-',
    decreases s.len(),
{
    if s.len() > 0 && s.first() != '-' {
        lemma_first_dash_is_dash(s.drop_first());
    }
}

/// The file name starts inside the text.
pub proof fn lemma_file_start_bounds(s: Seq<char>)
    ensures
        0 <= file_start(s) <= s.len(),
    decreases s.len(),
{
    if s.len() > 0 && s.last() != '/' {
        lemma_file_start_bounds(s.drop_last());
    }
}

/// Two words with a `-` behind each, followed by anything, are told apart by
/// the first `-`: equal texts have equal words and equal rests.
pub proof fn lemma_dashed_word_splits(
    first: Seq<char>,
    rest: Seq<char>,
    other: Seq<char>,
    other_rest: Seq<char>,
)
    requires
        is_word(first),
        is_word(other),
        first.push('-') + rest == other.push('-') + other_rest,
    ensures
        first == other,
        rest == other_rest,
{
    let left = first.push('-') + rest;
    let right = other.push('-') + other_rest;
    if first.len() < other.len() {
        assert(left[first.len() as int] == '-');
        assert(right[first.len() as int] == other[first.len() as int]);
        assert(is_word_char(other[first.len() as int]));
    }
    if other.len() < first.len() {
        assert(right[other.len() as int] == '-');
        assert(left[other.len() as int] == first[other.len() as int]);
        assert(is_word_char(first[other.len() as int]));
    }
    assert(first =~= left.subrange(0, first.len() as int));
    assert(other =~= right.subrange(0, other.len() as int));
    assert(rest =~= left.subrange(first.len() as int + 1, left.len() as int));
    assert(other_rest =~= right.subrange(other.len() as int + 1, right.len() as int));
}

/// Dates of four-digit years are told apart by their text, whatever the
/// separator.
pub proof fn lemma_date_text_tells_date(a: Date, b: Date, separator: char)
    requires
        a.well_formed(),
        b.well_formed(),
        0 <= a.year <= 9999,
        0 <= b.year <= 9999,
        padded_decimal(a.year as nat, 4).push(separator) + padded_decimal(a.month as nat, 2).push(
            separator,
        ) + padded_decimal(a.day as nat, 2) == padded_decimal(b.year as nat, 4).push(separator)
            + padded_decimal(b.month as nat, 2).push(separator) + padded_decimal(
            b.day as nat,
            2,
        ),
    ensures
        a == b,
{
    let left = padded_decimal(a.year as nat, 4).push(separator) + padded_decimal(
        a.month as nat,
        2,
    ).push(separator) + padded_decimal(a.day as nat, 2);
    let right = padded_decimal(b.year as nat, 4).push(separator) + padded_decimal(
        b.month as nat,
        2,
    ).push(separator) + padded_decimal(b.day as nat, 2);
    lemma_padded_decimal_digits(a.year as nat, 4);
    lemma_padded_decimal_digits(a.month as nat, 2);
    lemma_padded_decimal_digits(a.day as nat, 2);
    lemma_padded_decimal_digits(b.year as nat, 4);
    lemma_padded_decimal_digits(b.month as nat, 2);
    lemma_padded_decimal_digits(b.day as nat, 2);
    reveal_with_fuel(pow10, 5);
    lemma_decimal_of_padded(a.year as nat, 4);
    lemma_decimal_of_padded(a.month as nat, 2);
    lemma_decimal_of_padded(a.day as nat, 2);
    lemma_decimal_of_padded(b.year as nat, 4);
    lemma_decimal_of_padded(b.month as nat, 2);
    lemma_decimal_of_padded(b.day as nat, 2);
    assert(padded_decimal(a.year as nat, 4) =~= left.subrange(0, 4));
    assert(padded_decimal(b.year as nat, 4) =~= right.subrange(0, 4));
    assert(padded_decimal(a.month as nat, 2) =~= left.subrange(5, 7));
    assert(padded_decimal(b.month as nat, 2) =~= right.subrange(5, 7));
    assert(padded_decimal(a.day as nat, 2) =~= left.subrange(8, 10));
    assert(padded_decimal(b.day as nat, 2) =~= right.subrange(8, 10));
}

/// Archives are told apart by their file names: two well-formed archives
/// with the same file name have the same symbol, interval and date.
pub proof fn lemma_file_stem_tells_archive(a: ArchiveView, b: ArchiveView)
    requires
        a.well_formed(),
        b.well_formed(),
        file_stem(a) == file_stem(b),
    ensures
        a.symbol == b.symbol,
        a.interval == b.interval,
        a.date == b.date,
{
    assert(file_stem(a) =~= a.symbol.push('-') + (a.interval.push('-') + date_stem(a.date)));
    assert(file_stem(b) =~= b.symbol.push('-') + (b.interval.push('-') + date_stem(b.date)));
    lemma_dashed_word_splits(
        a.symbol,
        a.interval.push('-') + date_stem(a.date),
        b.symbol,
        b.interval.push('-') + date_stem(b.date),
    );
    lemma_dashed_word_splits(a.interval, date_stem(a.date), b.interval, date_stem(b.date));
    lemma_date_text_tells_date(a.date, b.date, '-');
}

/// No two archives share a staged file or an unpacked file: where two
/// well-formed archives differ in symbol, interval or date, their files
/// under the same directories differ, so two workers never write to one
/// path.
pub proof fn lemma_paths_tell_archives(a: ArchiveView, b: ArchiveView, dir: Seq<char>)
    requires
        a.well_formed(),
        b.well_formed(),
        a.symbol != b.symbol || a.interval != b.interval || a.date != b.date,
    ensures
        temp_path_of(dir, a) != temp_path_of(dir, b),
        target_path_of(dir, a) != target_path_of(dir, b),
{
    if temp_path_of(dir, a) == temp_path_of(dir, b) {
        let front = with_separator(dir);
        assert(temp_path_of(dir, a) =~= front + (file_stem(a) + archive_suffix()));
        assert(temp_path_of(dir, b) =~= front + (file_stem(b) + archive_suffix()));
        lemma_same_front(front, file_stem(a) + archive_suffix(), file_stem(b) + archive_suffix());
        lemma_same_back(file_stem(a), file_stem(b), archive_suffix());
        lemma_file_stem_tells_archive(a, b);
    }
    if target_path_of(dir, a) == target_path_of(dir, b) {
        let front = with_separator(dir);
        let left = date_directory(a.date) + file_stem(a) + extracted_suffix();
        let right = date_directory(b.date) + file_stem(b) + extracted_suffix();
        assert(target_path_of(dir, a) =~= front + left);
        assert(target_path_of(dir, b) =~= front + right);
        lemma_same_front(front, left, right);
        lemma_same_back(
            date_directory(a.date) + file_stem(a),
            date_directory(b.date) + file_stem(b),
            extracted_suffix(),
        );
        lemma_padded_decimal_digits(a.date.year as nat, 4);
        lemma_padded_decimal_digits(a.date.month as nat, 2);
        lemma_padded_decimal_digits(a.date.day as nat, 2);
        lemma_padded_decimal_digits(b.date.year as nat, 4);
        lemma_padded_decimal_digits(b.date.month as nat, 2);
        lemma_padded_decimal_digits(b.date.day as nat, 2);
        let whole_a = date_directory(a.date) + file_stem(a);
        let whole_b = date_directory(b.date) + file_stem(b);
        assert(date_directory(a.date).len() == 11);
        assert(date_directory(b.date).len() == 11);
        assert(file_stem(a) =~= whole_a.subrange(11, whole_a.len() as int));
        assert(file_stem(b) =~= whole_b.subrange(11, whole_b.len() as int));
        lemma_file_stem_tells_archive(a, b);
    }
}

/// Joining the same back to two texts gives equal texts only for equal
/// texts.
pub proof fn lemma_same_back(a: Seq<char>, b: Seq<char>, back: Seq<char>)
    requires
        a + back == b + back,
    ensures
        a == b,
{
    assert((a + back).len() == a.len() + back.len());
    assert((b + back).len() == b.len() + back.len());
    assert((a + back).subrange(0, a.len() as int) =~= a);
    assert((b + back).subrange(0, b.len() as int) =~= b);
}

} // verus!
