use stock_analysis::error::AppError;
use chrono::{Datelike, NaiveDate};
use stock_analysis::yahoo::{
    chart_range, close_on_or_before, dated_closes, market_cap_batches, news_from_feed, news_items, newest_first_prices, price_on_or_before, strip_html,
    FeedItem, BATCH_SIZE,
};

#[test]
fn strip_html_removes_tags_and_entities() {
    assert_eq!(strip_html("<p>Hello <b>world</b></p>"), "Hello world");
    assert_eq!(strip_html("A &amp; B &lt;3&gt; &quot;q&quot; it&#39;s&nbsp;ok"), "A & B <3> \"q\" it's ok");
    assert_eq!(strip_html("plain"), "plain");
    assert_eq!(strip_html(""), "");
    // Entities are decoded after tags are stripped, so an encoded tag survives as text.
    assert_eq!(strip_html("&lt;b&gt;x"), "<b>x");
    assert_eq!(strip_html("<p>x &amp;lt; y</p>"), "x &lt; y");
    assert_eq!(strip_html("&amp;amp;"), "&amp;");
}

#[test]
fn chart_ranges() {
    assert_eq!(chart_range(1), "3mo");
    assert_eq!(chart_range(65), "3mo");
    assert_eq!(chart_range(66), "6mo");
    assert_eq!(chart_range(260), "1y");
    assert_eq!(chart_range(520), "2y");
    assert_eq!(chart_range(521), "5y");
}

#[test]
fn market_cap_batches_join_and_split() {
    let t: Vec<String> = vec!["A".into(), "B".into(), "C".into()];
    assert_eq!(market_cap_batches(&t), vec!["A,B,C"]);
    assert!(market_cap_batches(&vec![]).is_empty());
    let many: Vec<String> = (0..BATCH_SIZE + 1).map(|i| format!("T{i}")).collect();
    let b = market_cap_batches(&many);
    assert_eq!(b.len(), 2);
    assert_eq!(b[1], format!("T{BATCH_SIZE}"));
    assert!(b[0].starts_with("T0,T1,"));
    assert_eq!(b[0].split(',').count(), BATCH_SIZE);
}

#[test]
fn closing_price_on_or_before_a_day() {
    let prices = vec![(10, 1.0f64), (12, 2.0), (15, 3.0)];
    assert_eq!(price_on_or_before(&prices, 12).unwrap(), 2.0);
    assert_eq!(price_on_or_before(&prices, 14).unwrap(), 2.0);
    assert_eq!(price_on_or_before(&prices, 99).unwrap(), 3.0);
    assert!(matches!(price_on_or_before(&prices, 9), Err(AppError::NotFound)));
}

#[test]
fn prices_newest_first() {
    assert_eq!(newest_first_prices(vec![1, 2, 3, 4], 3).unwrap(), vec![4, 3, 2]);
    assert_eq!(newest_first_prices(vec![1, 2], 10).unwrap(), vec![2, 1]);
    assert!(matches!(newest_first_prices(Vec::<i32>::new(), 5), Err(AppError::NotFound)));
    assert!(matches!(newest_first_prices(vec![1], 0), Err(AppError::NotFound)));
}

#[test]
fn feed_items_become_news() {
    let items = vec![
        FeedItem {
            title: Some("Big news".into()),
            link: Some("https://x".into()),
            pub_date: Some("Tue, 01 Jul 2003 10:52:37 +0200".into()),
            source_title: Some("Wire".into()),
            description: Some("<p>Shares &amp; more</p>".into()),
        },
        FeedItem { title: None, link: None, pub_date: Some("not a date".into()), source_title: None, description: None },
        FeedItem { title: Some("third".into()), link: None, pub_date: None, source_title: None, description: None },
    ];
    let n = news_items(&items, 2);
    assert_eq!(n.len(), 2);
    assert_eq!(n[0].title, "Big news");
    assert_eq!(n[0].url, "https://x");
    assert_eq!(n[0].published.as_deref(), Some("2003-07-01T10:52:37+02:00"));
    assert_eq!(n[0].source.as_deref(), Some("Wire"));
    assert_eq!(n[0].summary.as_deref(), Some("Shares & more"));
    assert_eq!(n[1].title, "");
    assert!(n[1].published.is_none());
    assert!(n[1].summary.is_none());
}

#[test]
fn news_from_a_feed() {
    let feed = br#"<?xml version="1.0"?><rss version="2.0"><channel><title>t</title><link>l</link><description>d</description>
<item><title>First</title><link>https://a.example/1</link><pubDate>Tue, 02 Jan 2024 10:00:00 +0000</pubDate><description>&lt;b&gt;Up&lt;/b&gt; 5%</description><source url="https://s.example">Wire</source></item>
<item><title>Second</title><link>https://a.example/2</link></item>
<item><title>Third</title></item>
</channel></rss>"#;
    let items = news_from_feed(feed, 2).unwrap();
    assert_eq!(items.len(), 2);
    assert_eq!(items[0].title, "First");
    assert_eq!(items[0].url, "https://a.example/1");
    assert_eq!(items[0].published.as_deref(), Some("2024-01-02T10:00:00+00:00"));
    assert_eq!(items[0].source.as_deref(), Some("Wire"));
    assert_eq!(items[0].summary.as_deref(), Some("Up 5%"));
    assert_eq!(items[1].title, "Second");
    assert!(items[1].published.is_none());
    assert!(items[1].summary.is_none());
    assert!(matches!(news_from_feed(b"not a feed", 5), Err(AppError::Internal(_))));
}

#[test]
fn closes_dated_by_utc_day() {
    // 2024-01-01, 2024-01-02 and 2024-01-03 at 14:30 UTC, and a timestamp out of range.
    let bars = vec![(1704119400i64, 1.0f64), (i64::MAX, 9.0), (1704205800, 2.0), (1704292200, 3.0)];
    let closes = dated_closes(bars.clone(), 2).unwrap();
    assert_eq!(closes, vec![("2024-01-03".to_string(), 3.0), ("2024-01-02".to_string(), 2.0)]);
    assert_eq!(dated_closes(bars.clone(), 10).unwrap().len(), 3);
    assert!(matches!(dated_closes(bars.clone(), 0), Err(AppError::NotFound)));
    assert!(matches!(dated_closes(vec![(i64::MAX, 1.0)], 5), Err(AppError::NotFound)));
    let jan2 = NaiveDate::from_ymd_opt(2024, 1, 2).unwrap().num_days_from_ce();
    assert_eq!(close_on_or_before(&bars, jan2).unwrap(), 2.0);
    assert_eq!(close_on_or_before(&bars, jan2 + 10).unwrap(), 3.0);
    assert!(matches!(close_on_or_before(&bars, jan2 - 5), Err(AppError::NotFound)));
}
