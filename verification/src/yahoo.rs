//! Yahoo Finance data shaping: chart ranges, batched symbol lists, closing
//! prices, and news items from the RSS feed.

use vstd::prelude::*;
use crate::error::AppError;
use crate::models::RssNewsItem;
use crate::sp500::string_views;
use chrono::{Datelike, TimeZone, Utc};
use crate::text::{chars_of, has_prefix, match_at, occurs_at, owned, str_eq, string_from_chars};

verus! {

// ── HTML in feed descriptions ───────────────────────────────────────────────

/// The text outside `<...>` tags: `<` opens a tag, `>` closes one, and
/// neither is kept. `in_tag` says whether a tag is open at the start.
pub open spec fn untagged_from(s: Seq<char>, in_tag: bool) -> Seq<char>
    decreases s.len(),
{
    if s.len() == 0 {
        Seq::empty()
    } else if s[0] == '<' {
        untagged_from(s.drop_first(), true)
    } else if s[0] == '>' {
        untagged_from(s.drop_first(), false)
    } else if in_tag {
        untagged_from(s.drop_first(), true)
    } else {
        seq![s[0]] + untagged_from(s.drop_first(), false)
    }
}

/// The entity a text starts with, if any, as the character it stands for and
/// its length: `&amp;` `&lt;` `&gt;` `&quot;` `&#39;` `&nbsp;`.
pub open spec fn entity_at(s: Seq<char>) -> Option<(char, nat)> {
    if has_prefix(s, seq!['&', 'a', 'm', 'p', ';']) {
        Some(('&', 5))
    } else if has_prefix(s, seq!['&', 'l', 't', ';']) {
        Some(('<', 4))
    } else if has_prefix(s, seq!['&', 'g', 't', ';']) {
        Some(('>', 4))
    } else if has_prefix(s, seq!['&', 'q', 'u', 'o', 't', ';']) {
        Some(('"', 6))
    } else if has_prefix(s, seq!['&', '#', '3', '9', ';']) {
        Some(('\'', 5))
    } else if has_prefix(s, seq!['&', 'n', 'b', 's', 'p', ';']) {
        Some((' ', 6))
    } else {
        None
    }
}

/// The text with each entity decoded once, in one pass from left to right:
/// what an entity decodes to is never read again.
pub open spec fn decode_entities(s: Seq<char>) -> Seq<char>
    decreases s.len(),
{
    if s.len() == 0 {
        Seq::empty()
    } else {
        match entity_at(s) {
            Some(e) => seq![e.0] + decode_entities(s.skip(e.1 as int)),
            None => seq![s[0]] + decode_entities(s.drop_first()),
        }
    }
}

/// A feed description as plain text: tags stripped, then the common entities
/// decoded, each once.
pub open spec fn plain_text(s: Seq<char>) -> Seq<char> {
    decode_entities(untagged_from(s, false))
}

proof fn lemma_occurs_prefix(s: Seq<char>, p: Seq<char>, i: int)
    requires
        0 <= i <= s.len(),
    ensures
        occurs_at(s, p, i) == has_prefix(s.skip(i), p),
{
    if p.len() <= s.skip(i).len() {
        assert(s.skip(i).subrange(0, p.len() as int) =~= s.subrange(i, i + p.len()));
    }
}

fn prefix_at(v: &[char], p: &Vec<char>, i: usize) -> (r: bool)
    requires
        i <= v@.len(),
    ensures
        r == has_prefix(v@.skip(i as int), p@),
{
    proof {
        lemma_occurs_prefix(v@, p@, i as int);
    }
    match_at(v, p.as_slice(), i)
}

fn entity_at_exec(v: &[char], i: usize) -> (r: Option<(char, usize)>)
    requires
        i <= v@.len(),
    ensures
        match r {
            Some(e) => entity_at(v@.skip(i as int)) == Some((e.0, e.1 as nat)),
            None => entity_at(v@.skip(i as int)) is None,
        },
{
    let amp = vec!['&', 'a', 'm', 'p', ';'];
    let lt = vec!['&', 'l', 't', ';'];
    let gt = vec!['&', 'g', 't', ';'];
    let quot = vec!['&', 'q', 'u', 'o', 't', ';'];
    let apos = vec!['&', '#', '3', '9', ';'];
    let nbsp = vec!['&', 'n', 'b', 's', 'p', ';'];
    if prefix_at(v, &amp, i) {
        Some(('&', 5))
    } else if prefix_at(v, &lt, i) {
        Some(('<', 4))
    } else if prefix_at(v, &gt, i) {
        Some(('>', 4))
    } else if prefix_at(v, &quot, i) {
        Some(('"', 6))
    } else if prefix_at(v, &apos, i) {
        Some(('\'', 5))
    } else if prefix_at(v, &nbsp, i) {
        Some((' ', 6))
    } else {
        None
    }
}

fn decode_text(v: &Vec<char>) -> (r: Vec<char>)
    ensures
        r@ == decode_entities(v@),
{
    let mut out: Vec<char> = Vec::new();
    let mut i: usize = 0;
    assert(v@.skip(0) =~= v@);
    assert(out@ + decode_entities(v@) =~= decode_entities(v@));
    while i < v.len()
        invariant
            i <= v@.len(),
            out@ + decode_entities(v@.skip(i as int)) == decode_entities(v@),
        decreases v@.len() - i,
    {
        let ghost rest = v@.skip(i as int);
        let ghost before = out@;
        match entity_at_exec(v.as_slice(), i) {
            Some(e) => {
                out.push(e.0);
                proof {
                    assert(rest.skip(e.1 as int) =~= v@.skip(i + e.1));
                    assert(before.push(e.0) + decode_entities(rest.skip(e.1 as int)) =~= before + (
                    seq![e.0] + decode_entities(rest.skip(e.1 as int))));
                }
                i = i + e.1;
            },
            None => {
                out.push(v[i]);
                proof {
                    assert(rest.drop_first() =~= v@.skip(i + 1));
                    assert(rest[0] == v@[i as int]);
                    assert(before.push(v@[i as int]) + decode_entities(rest.drop_first()) =~= before
                        + (seq![rest[0]] + decode_entities(rest.drop_first())));
                }
                i = i + 1;
            },
        }
    }
    assert(v@.skip(i as int) =~= Seq::<char>::empty());
    assert(out@ + Seq::<char>::empty() =~= out@);
    out
}

fn strip_tags(s: &str) -> (r: String)
    ensures
        r@ == untagged_from(s@, false),
{
    let v = chars_of(s);
    let mut out: Vec<char> = Vec::new();
    let mut in_tag = false;
    let mut i: usize = 0;
    assert(s@.skip(0) =~= s@);
    while i < v.len()
        invariant
            i <= v@.len(),
            v@ == s@,
            out@ + untagged_from(s@.skip(i as int), in_tag) == untagged_from(s@, false),
        decreases v@.len() - i,
    {
        let ghost rest = s@.skip(i as int);
        proof {
            assert(rest.drop_first() =~= s@.skip(i + 1));
            assert(rest[0] == v@[i as int]);
        }
        let c = v[i];
        if c == '<' {
            in_tag = true;
        } else if c == '>' {
            in_tag = false;
        } else if !in_tag {
            let ghost before = out@;
            out.push(c);
            proof {
                assert(out@ + untagged_from(s@.skip(i + 1), false) =~= before + (seq![c] + untagged_from(rest.drop_first(), false)));
            }
        }
        i = i + 1;
    }
    assert(s@.skip(v@.len() as int) =~= Seq::<char>::empty());
    assert(out@ + Seq::<char>::empty() =~= out@);
    string_from_chars(out.as_slice())
}

/// Strips HTML tags and decodes common entities from an RSS description.
pub fn strip_html(s: &str) -> (r: String)
    ensures
        r@ == plain_text(s@),
{
    let t = strip_tags(s);
    let v = chars_of(t.as_str());
    let out = decode_text(&v);
    string_from_chars(out.as_slice())
}

// ── Chart ranges and symbol batches ─────────────────────────────────────────

/// The chart range that covers `limit` daily prices.
pub open spec fn range_for(limit: u32) -> &'static str {
    if limit <= 65 {
        "3mo"
    } else if limit <= 130 {
        "6mo"
    } else if limit <= 260 {
        "1y"
    } else if limit <= 520 {
        "2y"
    } else {
        "5y"
    }
}

/// The chart range requested for `limit` daily prices.
pub fn chart_range(limit: u32) -> (r: &'static str)
    ensures
        r == range_for(limit),
{
    if limit <= 65 {
        "3mo"
    } else if limit <= 130 {
        "6mo"
    } else if limit <= 260 {
        "1y"
    } else if limit <= 520 {
        "2y"
    } else {
        "5y"
    }
}

/// Most symbols per quote request.
pub const BATCH_SIZE: usize = 200;

/// The symbols joined by commas.
pub open spec fn comma_joined(ts: Seq<Seq<char>>) -> Seq<char>
    decreases ts.len(),
{
    if ts.len() == 0 {
        Seq::empty()
    } else if ts.len() == 1 {
        ts[0]
    } else {
        comma_joined(ts.drop_last()) + seq![','] + ts.last()
    }
}

/// The request batches: consecutive runs of at most `BATCH_SIZE` symbols,
/// each joined by commas.
pub open spec fn batches(ts: Seq<Seq<char>>) -> Seq<Seq<char>>
    decreases ts.len(),
{
    if ts.len() == 0 {
        Seq::empty()
    } else if ts.len() <= BATCH_SIZE {
        seq![comma_joined(ts)]
    } else {
        seq![comma_joined(ts.take(BATCH_SIZE as int))] + batches(ts.skip(BATCH_SIZE as int))
    }
}

/// The symbols go out in ⌈n / BATCH_SIZE⌉ requests.
pub proof fn law_batch_count(ts: Seq<Seq<char>>)
    ensures
        batches(ts).len() == (ts.len() + BATCH_SIZE - 1) / (BATCH_SIZE as int),
    decreases ts.len(),
{
    if ts.len() > BATCH_SIZE {
        law_batch_count(ts.skip(BATCH_SIZE as int));
    }
}

fn join_commas(ts: &[String], from: usize, to: usize) -> (r: String)
    requires
        from <= to <= ts@.len(),
    ensures
        r@ == comma_joined(string_views(ts@.subrange(from as int, to as int))),
{
    let mut out: Vec<char> = Vec::new();
    let mut i: usize = from;
    assert(string_views(ts@.subrange(from as int, from as int)) =~= Seq::<Seq<char>>::empty());
    while i < to
        invariant
            from <= i <= to <= ts@.len(),
            out@ == comma_joined(string_views(ts@.subrange(from as int, i as int))),
        decreases to - i,
    {
        let ghost before = out@;
        if i > from {
            out.push(',');
        }
        let w = chars_of(ts[i].as_str());
        let mut k: usize = 0;
        let ghost mid = out@;
        while k < w.len()
            invariant
                k <= w@.len(),
                out@ == mid + w@.take(k as int),
            decreases w@.len() - k,
        {
            out.push(w[k]);
            k = k + 1;
            assert(w@.take(k as int) =~= w@.take((k - 1) as int).push(w@[k - 1]));
        }
        proof {
            assert(w@.take(w@.len() as int) =~= w@);
            let next = string_views(ts@.subrange(from as int, i + 1));
            assert(next.drop_last() =~= string_views(ts@.subrange(from as int, i as int)));
            assert(next.last() == ts@[i as int]@);
            if i > from {
                assert(out@ =~= before + seq![','] + w@);
            } else {
                assert(out@ =~= w@);
            }
        }
        i = i + 1;
    }
    string_from_chars(out.as_slice())
}

/// The comma-joined symbol batches of the market-cap quote requests.
pub fn market_cap_batches(tickers: &Vec<String>) -> (r: Vec<String>)
    ensures
        string_views(r@) == batches(string_views(tickers@)),
{
    let n = tickers.len();
    let mut out: Vec<String> = Vec::new();
    let mut start: usize = 0;
    proof {
        assert(string_views(tickers@).skip(0) =~= string_views(tickers@));
    }
    while start < n
        invariant
            n == tickers@.len(),
            start <= n,
            string_views(out@) + batches(string_views(tickers@).skip(start as int)) == batches(string_views(tickers@)),
        decreases n - start,
    {
        let end = if n - start <= BATCH_SIZE { n } else { start + BATCH_SIZE };
        let b = join_commas(tickers.as_slice(), start, end);
        let ghost rest = string_views(tickers@).skip(start as int);
        let ghost before = out@;
        out.push(b);
        proof {
            assert(string_views(tickers@.subrange(start as int, end as int)) =~= rest.take((end - start) as int));
            if n - start <= BATCH_SIZE {
                assert(rest.take((end - start) as int) =~= rest);
                assert(string_views(tickers@).skip(end as int) =~= Seq::<Seq<char>>::empty());
            } else {
                assert(rest.skip(BATCH_SIZE as int) =~= string_views(tickers@).skip(end as int));
            }
            assert(string_views(out@) =~= string_views(before).push(b@));
            assert(string_views(out@) + batches(string_views(tickers@).skip(end as int)) =~= string_views(before) + batches(rest));
        }
        start = end;
    }
    assert(string_views(tickers@).skip(n as int) =~= Seq::<Seq<char>>::empty());
    assert(string_views(out@) + Seq::<Seq<char>>::empty() =~= string_views(out@));
    out
}

// ── Closing prices ──────────────────────────────────────────────────────────

/// The price of the last entry dated on or before `day`, if any.
pub open spec fn last_on_or_before<P>(entries: Seq<(i32, P)>, day: i32) -> Option<P>
    decreases entries.len(),
{
    if entries.len() == 0 {
        None
    } else if entries.last().0 <= day {
        Some(entries.last().1)
    } else {
        last_on_or_before(entries.drop_last(), day)
    }
}

/// The closing price on a day, or on the nearest earlier trading day, from
/// dated prices in chart order (oldest first); not found when there is none.
pub fn price_on_or_before<P: Copy>(entries: &Vec<(i32, P)>, day: i32) -> (r: Result<P, AppError>)
    ensures
        match last_on_or_before(entries@, day) {
            Some(p) => r == Ok::<P, AppError>(p),
            None => r matches Err(e) && e is NotFound,
        },
{
    let mut i: usize = entries.len();
    assert(entries@.take(entries@.len() as int) =~= entries@);
    while i > 0
        invariant
            i <= entries@.len(),
            last_on_or_before(entries@, day) == last_on_or_before(entries@.take(i as int), day),
        decreases i,
    {
        proof {
            assert(entries@.take(i as int).drop_last() =~= entries@.take(i - 1));
        }
        if entries[i - 1].0 <= day {
            return Ok(entries[i - 1].1);
        }
        i = i - 1;
    }
    Err(AppError::NotFound)
}

/// Daily prices newest first, at most `limit`: the chart's (oldest-first)
/// entries reversed and cut; not found when none is left.
pub fn newest_first_prices<T>(chart: Vec<T>, limit: u32) -> (r: Result<Vec<T>, AppError>)
    ensures
        match r {
            Ok(v) => v@.len() > 0 && v@.len() == (if chart@.len() < limit { chart@.len() } else { limit as nat })
                && forall|i: int| 0 <= i < v@.len() ==> #[trigger] v@[i] == chart@[chart@.len() - 1 - i],
            Err(e) => e is NotFound && (chart@.len() == 0 || limit == 0),
        },
{
    let ghost orig = chart@;
    let mut chart = chart;
    let mut out: Vec<T> = Vec::new();
    while chart.len() > 0 && (out.len() as u64) < (limit as u64)
        invariant
            chart@ == orig.take(chart@.len() as int),
            out@.len() == orig.len() - chart@.len(),
            out@.len() <= limit,
            forall|i: int| 0 <= i < out@.len() ==> #[trigger] out@[i] == orig[orig.len() - 1 - i],
        decreases chart@.len(),
    {
        let ghost n = chart@.len();
        let x = chart.pop().unwrap();
        proof {
            assert(chart@ =~= orig.take(n - 1));
        }
        out.push(x);
    }
    if out.len() == 0 {
        Err(AppError::NotFound)
    } else {
        Ok(out)
    }
}

// ── News ────────────────────────────────────────────────────────────────────

/// The fields of a feed item as the RSS parser gives them: title, link,
/// publication date, source title, description.
pub struct FeedItem {
    pub title: Option<String>,
    pub link: Option<String>,
    pub pub_date: Option<String>,
    pub source_title: Option<String>,
    pub description: Option<String>,
}

/// The RFC 3339 form of an RFC 2822 date (`DateTime::parse_from_rfc2822`
/// then `to_rfc3339`), none when it does not parse.
pub uninterp spec fn rfc3339_of(rfc2822: Seq<char>) -> Option<Seq<char>>;

/// Converts an RFC 2822 date to RFC 3339 with `chrono`. The result is named.
#[verifier::external_body]
fn to_rfc3339(s: &str) -> (r: Option<String>)
    ensures
        match r {
            Some(x) => rfc3339_of(s@) == Some(x@),
            None => rfc3339_of(s@) is None,
        },
{
    chrono::DateTime::parse_from_rfc2822(s).ok().map(|dt| dt.to_rfc3339())
}

pub open spec fn text_or_empty(s: Option<String>) -> Seq<char> {
    match s {
        Some(t) => t@,
        None => Seq::empty(),
    }
}

/// The text of an optional string.
pub open spec fn opt_text(o: Option<String>) -> Option<Seq<char>> {
    match o {
        Some(t) => Some(t@),
        None => None,
    }
}

/// A feed item's fields as text: title, link, publication date, source
/// title, description.
pub open spec fn feed_fields(f: FeedItem) -> (Option<Seq<char>>, Option<Seq<char>>, Option<Seq<char>>, Option<Seq<char>>, Option<Seq<char>>) {
    (opt_text(f.title), opt_text(f.link), opt_text(f.pub_date), opt_text(f.source_title), opt_text(f.description))
}

pub open spec fn text_or_none(s: Option<Seq<char>>) -> Seq<char> {
    match s {
        Some(t) => t,
        None => Seq::empty(),
    }
}

/// `n` is the news item of a feed item with fields `f`.
pub open spec fn news_of(n: RssNewsItem, f: (Option<Seq<char>>, Option<Seq<char>>, Option<Seq<char>>, Option<Seq<char>>, Option<Seq<char>>)) -> bool {
    &&& n.title@ == text_or_none(f.0)
    &&& n.url@ == text_or_none(f.1)
    &&& match f.2 {
        Some(d) => match rfc3339_of(d) {
            Some(x) => n.published matches Some(p) && p@ == x,
            None => n.published is None,
        },
        None => n.published is None,
    }
    &&& opt_text(n.source) == f.3
    &&& match f.4 {
        Some(d) => n.summary matches Some(s) && s@ == plain_text(d),
        None => n.summary is None,
    }
}

fn text_of(s: &Option<String>) -> (r: String)
    ensures
        r@ == text_or_empty(*s),
{
    match s {
        Some(t) => t.clone(),
        None => String::new(),
    }
}

/// The first `limit` feed items as news items.
pub fn news_items(items: &Vec<FeedItem>, limit: usize) -> (r: Vec<RssNewsItem>)
    ensures
        r@.len() == (if items@.len() < limit { items@.len() } else { limit as nat }),
        forall|i: int| 0 <= i < r@.len() ==> news_of(#[trigger] r@[i], feed_fields(items@[i])),
{
    let n = if items.len() < limit { items.len() } else { limit };
    let mut out: Vec<RssNewsItem> = Vec::new();
    let mut i: usize = 0;
    while i < n
        invariant
            n <= items@.len(),
            n == (if items@.len() < limit { items@.len() } else { limit as nat }),
            i <= n,
            out@.len() == i,
            forall|k: int| 0 <= k < i ==> news_of(#[trigger] out@[k], feed_fields(items@[k])),
        decreases n - i,
    {
        let f = &items[i];
        let published = match &f.pub_date {
            Some(d) => to_rfc3339(d.as_str()),
            None => None,
        };
        let summary = match &f.description {
            Some(d) => Some(strip_html(d.as_str())),
            None => None,
        };
        let source = match &f.source_title {
            Some(s) => Some(s.clone()),
            None => None,
        };
        out.push(RssNewsItem { title: text_of(&f.title), url: text_of(&f.link), published, source, summary });
        i = i + 1;
    }
    out
}

/// The feed items RSS parsing (`rss::Channel::read_from`) reads from some
/// bytes, each as its fields; the parser's error message when the bytes are
/// not a feed.
pub uninterp spec fn rss_items(bytes: Seq<u8>) -> Result<Seq<(Option<Seq<char>>, Option<Seq<char>>, Option<Seq<char>>, Option<Seq<char>>, Option<Seq<char>>)>, Seq<char>>;

/// Parses an RSS feed with `rss::Channel::read_from` and hands out each
/// item's title, link, publication date, source title and description. The
/// result is named.
#[verifier::external_body]
fn read_rss(bytes: &[u8]) -> (r: Result<Vec<FeedItem>, String>)
    ensures
        match r {
            Ok(v) => rss_items(bytes@) == Ok::<_, Seq<char>>(v@.map_values(|f: FeedItem| feed_fields(f))),
            Err(m) => rss_items(bytes@) == Err::<Seq<(Option<Seq<char>>, Option<Seq<char>>, Option<Seq<char>>, Option<Seq<char>>, Option<Seq<char>>)>, _>(m@),
        },
{
    match rss::Channel::read_from(bytes) {
        Ok(channel) => Ok(channel.items().iter().map(|item| FeedItem {
            title: item.title().map(str::to_owned),
            link: item.link().map(str::to_owned),
            pub_date: item.pub_date().map(str::to_owned),
            source_title: item.source().and_then(|s| s.title()).map(str::to_owned),
            description: item.description().map(str::to_owned),
        }).collect()),
        Err(e) => Err(e.to_string()),
    }
}

/// The first `limit` news items of a fetched RSS feed; an internal error with
/// the parser's message when the bytes are not a feed.
pub fn news_from_feed(bytes: &[u8], limit: usize) -> (r: Result<Vec<RssNewsItem>, AppError>)
    ensures
        match rss_items(bytes@) {
            Err(m) => r matches Err(e) && e matches AppError::Internal(x) && x@ == m,
            Ok(items) => r matches Ok(v) && v@.len() == (if items.len() < limit { items.len() } else { limit as nat })
                && forall|i: int| 0 <= i < v@.len() ==> news_of(#[trigger] v@[i], items[i]),
        },
{
    match read_rss(bytes) {
        Err(m) => Err(AppError::Internal(m)),
        Ok(items) => {
            let v = news_items(&items, limit);
            assert forall|i: int| 0 <= i < v@.len() implies news_of(#[trigger] v@[i], items@.map_values(|f: FeedItem| feed_fields(f))[i]) by {
                assert(news_of(v@[i], feed_fields(items@[i])));
            }
            Ok(v)
        },
    }
}

// ── Dated closes ────────────────────────────────────────────────────────────

/// The UTC calendar day of a Unix timestamp in seconds (`Utc.timestamp_opt`):
/// its `%Y-%m-%d` text and its day number (`num_days_from_ce`); none when the
/// timestamp is out of range.
pub uninterp spec fn utc_day(ts: i64) -> Option<(Seq<char>, int)>;

/// The UTC day of a timestamp with `chrono`. The result is named.
#[verifier::external_body]
fn utc_day_of(ts: i64) -> (r: Option<(String, i32)>)
    ensures
        match r {
            Some(d) => utc_day(ts) == Some((d.0@, d.1 as int)),
            None => utc_day(ts) is None,
        },
{
    Utc.timestamp_opt(ts, 0).single().map(|dt| (dt.format("%Y-%m-%d").to_string(), dt.date_naive().num_days_from_ce()))
}

/// The chart's bars (timestamp, close) that fall on a UTC day, in chart
/// order, each with its date text.
pub open spec fn dated_bars<V>(bars: Seq<(i64, V)>) -> Seq<(Seq<char>, V)>
    decreases bars.len(),
{
    if bars.len() == 0 {
        Seq::empty()
    } else {
        match utc_day(bars.last().0) {
            Some(d) => dated_bars(bars.drop_last()).push((d.0, bars.last().1)),
            None => dated_bars(bars.drop_last()),
        }
    }
}

/// The chart's bars that fall on a UTC day, in chart order, each with its day
/// number.
pub open spec fn day_bars<V>(bars: Seq<(i64, V)>) -> Seq<(i32, V)>
    decreases bars.len(),
{
    if bars.len() == 0 {
        Seq::empty()
    } else {
        match utc_day(bars.last().0) {
            Some(d) => day_bars(bars.drop_last()).push((d.1 as i32, bars.last().1)),
            None => day_bars(bars.drop_last()),
        }
    }
}

/// Daily closes from chart bars (oldest first): bars with no UTC day are
/// dropped, the others carry their date text; newest first, at most `limit`;
/// not found when none is left.
pub fn dated_closes<V: Copy>(bars: Vec<(i64, V)>, limit: u32) -> (r: Result<Vec<(String, V)>, AppError>)
    ensures
        ({
            let d = dated_bars(bars@);
            match r {
                Ok(v) => v@.len() > 0 && v@.len() == (if d.len() < limit { d.len() } else { limit as nat })
                    && forall|i: int| 0 <= i < v@.len() ==> (#[trigger] v@[i]).0@ == d[d.len() - 1 - i].0
                        && v@[i].1 == d[d.len() - 1 - i].1,
                Err(e) => e is NotFound && (d.len() == 0 || limit == 0),
            }
        }),
{
    let mut dated: Vec<(String, V)> = Vec::new();
    let mut i: usize = 0;
    while i < bars.len()
        invariant
            i <= bars@.len(),
            dated@.len() == dated_bars(bars@.take(i as int)).len(),
            forall|k: int| 0 <= k < dated@.len() ==> (#[trigger] dated@[k]).0@ == dated_bars(bars@.take(i as int))[k].0
                && dated@[k].1 == dated_bars(bars@.take(i as int))[k].1,
        decreases bars@.len() - i,
    {
        proof {
            assert(bars@.take(i + 1).drop_last() =~= bars@.take(i as int));
        }
        match utc_day_of(bars[i].0) {
            Some(d) => {
                dated.push((d.0, bars[i].1));
            },
            None => {},
        }
        i = i + 1;
    }
    assert(bars@.take(bars@.len() as int) =~= bars@);
    newest_first_prices(dated, limit)
}

/// The close on a day, or on the nearest earlier trading day, from chart bars
/// (oldest first) placed on their UTC days; not found when there is none.
pub fn close_on_or_before<V: Copy>(bars: &Vec<(i64, V)>, day: i32) -> (r: Result<V, AppError>)
    ensures
        match last_on_or_before(day_bars(bars@), day) {
            Some(p) => r == Ok::<V, AppError>(p),
            None => r matches Err(e) && e is NotFound,
        },
{
    let mut entries: Vec<(i32, V)> = Vec::new();
    let mut i: usize = 0;
    while i < bars.len()
        invariant
            i <= bars@.len(),
            entries@ == day_bars(bars@.take(i as int)),
        decreases bars@.len() - i,
    {
        proof {
            assert(bars@.take(i + 1).drop_last() =~= bars@.take(i as int));
        }
        match utc_day_of(bars[i].0) {
            Some(d) => {
                entries.push((d.1, bars[i].1));
            },
            None => {},
        }
        i = i + 1;
    }
    assert(bars@.take(bars@.len() as int) =~= bars@);
    price_on_or_before(&entries, day)
}

} // verus!
