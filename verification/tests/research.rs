use mj_server::research::{
    configured_feeds, eastmoney_headline, eastmoney_news, NewsPayloadError, merge_headlines, rss_news, sentiment_hits, session_date,
    EastmoneyRow, JsonField, NewsItem, RssEntry,
};

fn news(title: &str, at: &str) -> NewsItem {
    NewsItem {
        source: "s".into(),
        title: title.into(),
        url: String::new(),
        published_at: at.into(),
    }
}

#[test]
fn feeds_are_name_bar_url_pairs() {
    let raw = Some(" 新浪 | https://a.example/rss ;bad; |https://b; c|  ;d|https://d ".to_string());
    assert_eq!(
        configured_feeds(raw),
        vec![
            ("新浪".to_string(), "https://a.example/rss".to_string()),
            ("d".to_string(), "https://d".to_string()),
        ]
    );
    assert!(configured_feeds(None).is_empty());
    assert!(configured_feeds(Some(String::new())).is_empty());
}

#[test]
fn rss_items_become_headlines() {
    let entry = RssEntry {
        title: "公司盈利增长并创新高".into(),
        link: "https://example.com/a".into(),
        published_at: "Fri, 18 Sep 2026 01:00:00 GMT".into(),
    };
    let items = rss_news("test", &[entry]);
    assert_eq!(items.len(), 1);
    assert_eq!(items[0].source, "test");
    assert_eq!(items[0].url, "https://example.com/a");
    let (pos, neg) = sentiment_hits(&items);
    assert_eq!((pos, neg), (3, 0));
}

#[test]
fn rss_keeps_fifteen_non_blank_titles_trimmed() {
    let mut entries = vec![RssEntry { title: "   ".into(), link: "x".into(), published_at: "y".into() }];
    for i in 0..20 {
        entries.push(RssEntry {
            title: format!(" t{i} "),
            link: format!(" l{i}"),
            published_at: format!("d{i} "),
        });
    }
    let items = rss_news("feed", &entries);
    assert_eq!(items.len(), 15);
    assert_eq!(items[0].title, "t0");
    assert_eq!(items[0].url, "l0");
    assert_eq!(items[0].published_at, "d0");
    assert_eq!(items[14].title, "t14");
}

#[test]
fn headline_tone_counts_positive_and_negative_words() {
    let items = vec![news("股价下跌，公司亏损", "1"), news("回购计划", "2"), news("平稳", "3")];
    assert_eq!(sentiment_hits(&items), (1, 2));
    assert_eq!(sentiment_hits(&[]), (0, 0));
}

#[test]
fn headlines_merge_newest_first_without_repeats() {
    let items = vec![
        news("a", "2026-09-17"),
        news("b", "2026-09-18"),
        news("b", "2026-09-18"),
        news("c", "2026-09-18"),
        news("d", "2026-09-16"),
    ];
    let merged = merge_headlines(items).unwrap();
    let titles: Vec<&str> = merged.iter().map(|n| n.title.as_str()).collect();
    assert_eq!(titles, vec!["b", "c", "a", "d"]);
    assert!(merge_headlines(Vec::new()).is_none());
    let many: Vec<NewsItem> = (0..40).map(|i| news(&format!("t{i}"), &format!("{i:02}"))).collect();
    let merged = merge_headlines(many).unwrap();
    assert_eq!(merged.len(), 30);
    assert_eq!(merged[0].title, "t39");
}

#[test]
fn session_date_takes_ten_bytes_when_possible() {
    assert_eq!(session_date("2026-09-17 16:00:00"), "2026-09-17");
    assert_eq!(session_date("--"), "--");
    assert_eq!(session_date("一二三四"), "一二三四");
    assert_eq!(session_date("a一二三四五"), "a一二三");
}

fn text(s: &str) -> JsonField {
    JsonField::Text(s.to_string())
}

#[test]
fn eastmoney_rows_become_headlines() {
    let row = EastmoneyRow {
        media_name: text("证券时报"),
        title: text("公司回购"),
        unique_url: text("https://a.example/1"),
        url: text("https://b.example/1"),
        show_time: text("2026-09-18 09:30:00"),
    };
    let n = eastmoney_headline(row).unwrap();
    assert_eq!(n.source, "证券时报");
    assert_eq!(n.title, "公司回购");
    assert_eq!(n.url, "https://a.example/1");
    assert_eq!(n.published_at, "2026-09-18 09:30:00");

    let row = EastmoneyRow {
        media_name: JsonField::Other,
        title: text("标题"),
        unique_url: JsonField::Missing,
        url: text("https://b.example/2"),
        show_time: JsonField::Missing,
    };
    let n = eastmoney_headline(row).unwrap();
    assert_eq!(n.source, "东方财富聚合");
    assert_eq!(n.url, "https://b.example/2");
    assert_eq!(n.published_at, "");

    // A present but non-text uniqueUrl hides url.
    let row = EastmoneyRow {
        media_name: JsonField::Missing,
        title: text("标题"),
        unique_url: JsonField::Other,
        url: text("https://b.example/3"),
        show_time: JsonField::Other,
    };
    assert_eq!(eastmoney_headline(row).unwrap().url, "");

    let row = EastmoneyRow {
        media_name: text("x"),
        title: JsonField::Other,
        unique_url: JsonField::Missing,
        url: JsonField::Missing,
        show_time: JsonField::Missing,
    };
    assert!(eastmoney_headline(row).is_none());
}

#[test]
fn eastmoney_replies_are_read_from_data_list() {
    let body = r#"{"data":{"list":[
        {"mediaName":"证券时报","title":"公司回购","uniqueUrl":"https://a.example/1","showTime":"2026-09-18 09:30:00"},
        {"title":null,"url":"https://b.example/2"},
        {"title":"无来源","url":"https://b.example/3","showTime":7},
        "not an object"
    ]}}"#;
    let items = eastmoney_news(body).unwrap();
    assert_eq!(items.len(), 2);
    assert_eq!(items[0].source, "证券时报");
    assert_eq!(items[0].title, "公司回购");
    assert_eq!(items[0].url, "https://a.example/1");
    assert_eq!(items[0].published_at, "2026-09-18 09:30:00");
    assert_eq!(items[1].source, "东方财富聚合");
    assert_eq!(items[1].url, "https://b.example/3");
    assert_eq!(items[1].published_at, "");
    assert_eq!(eastmoney_news("not json").unwrap_err(), NewsPayloadError::MissingList);
    assert_eq!(eastmoney_news(r#"{"data":{}}"#).unwrap_err(), NewsPayloadError::MissingList);
    assert!(eastmoney_news(r#"{"data":{"list":[]}}"#).unwrap().is_empty());
}
