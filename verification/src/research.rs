//! Research context: news feeds, headlines and their tone.
use vstd::prelude::*;
use vstd::string::StringSliceAdditionalSpecFns;
use vstd::utf8::{encode_utf8, is_char_boundary};

use crate::text::{
    chars_eq, chars_of, contains, contains_str, find, find_char, lemma_find_char, lemma_lex_irreflexive,
    lemma_lex_total, lemma_lex_transitive, lex_lt, owned, split, split_char, str_ge, string_of, trim,
    trim_bounds, trimmed, views,
};

verus! {

broadcast use vstd::string::group_string_axioms;

/// One headline.
#[derive(Debug, Clone)]
pub struct NewsItem {
    pub source: String,
    pub title: String,
    pub url: String,
    pub published_at: String,
}

/// One `<item>` of an RSS channel, its missing elements read as empty text.
#[derive(Debug, Clone)]
pub struct RssEntry {
    pub title: String,
    pub link: String,
    pub published_at: String,
}

/// A configured feed: `name|url`, both parts trimmed and non-empty.
pub open spec fn feed_of(entry: Seq<char>) -> Option<(Seq<char>, Seq<char>)> {
    let t = trim(entry);
    match find_char(t, '|') {
        None => None,
        Some(i) => {
            let name = trim(t.take(i));
            let url = trim(t.skip(i + 1));
            if name.len() == 0 || url.len() == 0 {
                None
            } else {
                Some((name, url))
            }
        },
    }
}

/// The valid feeds among `;`-separated entries, in order.
pub open spec fn feeds_of(entries: Seq<Seq<char>>) -> Seq<(Seq<char>, Seq<char>)>
    decreases entries.len(),
{
    if entries.len() == 0 {
        Seq::empty()
    } else {
        let r = feeds_of(entries.drop_last());
        match feed_of(entries.last()) {
            Some(f) => r.push(f),
            None => r,
        }
    }
}

/// Views of a list of string pairs.
pub open spec fn pair_views(v: Seq<(String, String)>) -> Seq<(Seq<char>, Seq<char>)> {
    v.map_values(|p: (String, String)| (p.0@, p.1@))
}

/// One configured feed entry.
fn parse_feed(entry: &str) -> (r: Option<(String, String)>)
    ensures
        match r {
            Some(p) => feed_of(entry@) == Some((p.0@, p.1@)),
            None => feed_of(entry@) is None,
        },
{
    let v = chars_of(entry);
    let (a, b) = trim_bounds(&v, 0, v.len());
    let ghost t = v@.subrange(a as int, b as int);
    proof {
        assert(v@.subrange(0, v@.len() as int) =~= v@);
    }
    let inner = string_of(&v, a, b);
    let w = chars_of(inner.as_str());
    let bar = match find(&w, '|') {
        Some(i) => i,
        None => return None,
    };
    proof {
        lemma_find_char(w@, '|');
        assert(w@.subrange(0, bar as int) =~= t.take(bar as int));
        assert(w@.subrange(bar + 1, w@.len() as int) =~= t.skip(bar + 1));
    }
    let (na, nb) = trim_bounds(&w, 0, bar);
    let (ua, ub) = trim_bounds(&w, bar + 1, w.len());
    if na == nb || ua == ub {
        return None;
    }
    Some((string_of(&w, na, nb), string_of(&w, ua, ub)))
}

/// Feeds named by the `MJ_NEWS_FEEDS` setting (`name|url;name|url`); entries
/// that are not two non-blank parts around `|` are skipped. No setting, no
/// feeds.
pub fn configured_feeds(raw: Option<String>) -> (r: Vec<(String, String)>)
    ensures
        pair_views(r@) == match raw {
            Some(s) => feeds_of(split_char(s@, ';')),
            None => Seq::empty(),
        },
{
    let mut r: Vec<(String, String)> = Vec::new();
    let s = match raw {
        Some(s) => s,
        None => {
            assert(pair_views(r@) =~= Seq::<(Seq<char>, Seq<char>)>::empty());
            return r;
        },
    };
    let entries = split(&chars_of(s.as_str()), ';');
    let ghost es = views(entries@);
    let mut i: usize = 0;
    while i < entries.len()
        invariant
            i <= entries@.len(),
            es == views(entries@),
            pair_views(r@) == feeds_of(es.take(i as int)),
        decreases entries@.len() - i,
    {
        assert(es.take(i + 1).drop_last() =~= es.take(i as int));
        assert(es.take(i + 1).last() == entries@[i as int]@);
        let ghost before = pair_views(r@);
        match parse_feed(entries[i].as_str()) {
            Some(p) => {
                r.push(p);
                assert(pair_views(r@) =~= before.push((p.0@, p.1@)));
            },
            None => {},
        }
        i = i + 1;
    }
    assert(es.take(es.len() as int) =~= es);
    r
}

/// What a JSON object holds under one key, as far as the news parser reads
/// it.
#[derive(Debug, Clone)]
pub enum JsonField {
    /// The key is absent.
    Missing,
    /// The key holds a string.
    Text(String),
    /// The key holds something other than a string (a number, `null`, ...).
    Other,
}

/// The fields of one row of the Eastmoney news list.
#[derive(Debug, Clone)]
pub struct EastmoneyRow {
    pub media_name: JsonField,
    pub title: JsonField,
    pub unique_url: JsonField,
    pub url: JsonField,
    pub show_time: JsonField,
}

/// The text a field holds, if it holds a string.
pub open spec fn field_text(f: JsonField) -> Option<Seq<char>> {
    match f {
        JsonField::Text(s) => Some(s@),
        _ => None,
    }
}

/// A field's text, or `d` when it holds none.
pub open spec fn text_or(f: JsonField, d: Seq<char>) -> Seq<char> {
    match field_text(f) {
        Some(s) => s,
        None => d,
    }
}

/// Source shown for an Eastmoney headline without a medium.
pub open spec fn eastmoney_source() -> Seq<char> {
    "东方财富聚合"@
}

/// The headline of an Eastmoney news row: none without a text title;
/// otherwise the medium (or the aggregator's name), the title, the link
/// (`uniqueUrl` when that key is present, else `url`; empty unless text) and
/// the display time (empty unless text).
pub open spec fn eastmoney_headline_of(row: EastmoneyRow, n: NewsItem) -> bool {
    &&& field_text(row.title) == Some(n.title@)
    &&& n.source@ == text_or(row.media_name, eastmoney_source())
    &&& n.url@ == text_or(
        if row.unique_url is Missing {
            row.url
        } else {
            row.unique_url
        },
        Seq::empty(),
    )
    &&& n.published_at@ == text_or(row.show_time, Seq::empty())
}

/// A field's text, or `d`.
fn text_or_default(f: JsonField, d: &str) -> (s: String)
    ensures
        s@ == text_or(f, d@),
{
    match f {
        JsonField::Text(t) => t,
        _ => owned(d),
    }
}

/// The headline of one Eastmoney news row; see [`eastmoney_headline_of`].
pub fn eastmoney_headline(row: EastmoneyRow) -> (r: Option<NewsItem>)
    ensures
        r is None <==> field_text(row.title) is None,
        r matches Some(n) ==> eastmoney_headline_of(row, n),
{
    proof {
        reveal_strlit("");
    }
    let title = match row.title {
        JsonField::Text(t) => t,
        _ => return None,
    };
    let link = match row.unique_url {
        JsonField::Missing => row.url,
        other => other,
    };
    let source = text_or_default(row.media_name, "东方财富聚合");
    let url = text_or_default(link, "");
    let published_at = text_or_default(row.show_time, "");
    assert(source@ == text_or(row.media_name, eastmoney_source()));
    assert(url@ == text_or(
        if row.unique_url is Missing {
            row.url
        } else {
            row.unique_url
        },
        Seq::empty(),
    ));
    assert(published_at@ == text_or(row.show_time, Seq::empty()));
    Some(NewsItem { source, title, url, published_at })
}

/// The rows of an Eastmoney news reply: the elements of the array under
/// `data.list`, each read as an [`EastmoneyRow`] (an element that is not an
/// object has every field missing). `None` when the text is not JSON or holds
/// no array there. A function of the text alone, as serde_json parses it.
pub uninterp spec fn eastmoney_rows_of(body: Seq<char>) -> Option<Seq<EastmoneyRow>>;

/// serde_json's `from_str` into a `Value`, the array at `/data/list`, and each
/// element's fields told apart as missing, text or other; named
/// [`eastmoney_rows_of`].
#[verifier::external_body]
fn eastmoney_rows(body: &str) -> (r: Option<Vec<EastmoneyRow>>)
    ensures
        match r {
            Some(v) => eastmoney_rows_of(body@) == Some(v@),
            None => eastmoney_rows_of(body@) is None,
        },
{
    let value: serde_json::Value = serde_json::from_str(body).ok()?;
    let field = |v: Option<&serde_json::Value>| match v.map(|x| x.as_str()) {
        None => JsonField::Missing,
        Some(Some(t)) => JsonField::Text(t.to_string()),
        Some(None) => JsonField::Other,
    };
    Some(value.pointer("/data/list")?.as_array()?.iter().map(|row| EastmoneyRow {
        media_name: field(row.get("mediaName")),
        title: field(row.get("title")),
        unique_url: field(row.get("uniqueUrl")),
        url: field(row.get("url")),
        show_time: field(row.get("showTime")),
    }).collect())
}

/// The rows with a text title, in order.
pub open spec fn titled_rows(rows: Seq<EastmoneyRow>) -> Seq<EastmoneyRow>
    decreases rows.len(),
{
    if rows.len() == 0 {
        Seq::empty()
    } else {
        let r = titled_rows(rows.drop_last());
        if field_text(rows.last().title) is Some {
            r.push(rows.last())
        } else {
            r
        }
    }
}

/// The headlines of Eastmoney rows: one per row with a text title, in order,
/// made by [`eastmoney_headline`].
pub fn eastmoney_headlines(rows: Vec<EastmoneyRow>) -> (r: Vec<NewsItem>)
    ensures
        r@.len() == titled_rows(rows@).len(),
        forall|k: int|
            0 <= k < r@.len() ==> eastmoney_headline_of(titled_rows(rows@)[k], #[trigger] r@[k]),
{
    let ghost all = rows@;
    assert(all.len() == rows.len());
    let mut out: Vec<NewsItem> = Vec::new();
    let mut rest = rows;
    let mut i: usize = 0;
    while rest.len() > 0
        invariant
            i + rest@.len() == all.len(),
            all.len() <= usize::MAX,
            rest@ == all.skip(i as int),
            out@.len() == titled_rows(all.take(i as int)).len(),
            forall|k: int|
                0 <= k < out@.len() ==> eastmoney_headline_of(
                    titled_rows(all.take(i as int))[k],
                    #[trigger] out@[k],
                ),
        decreases rest@.len(),
    {
        let row = rest.remove(0);
        let ghost prev = titled_rows(all.take(i as int));
        assert(all.take(i + 1).drop_last() =~= all.take(i as int));
        assert(all.take(i + 1).last() == row);
        assert(rest@ =~= all.skip(i + 1));
        let ghost next = titled_rows(all.take(i + 1));
        assert forall|k: int| 0 <= k < prev.len() implies next[k] == prev[k] by {}
        match eastmoney_headline(row) {
            Some(n) => {
                out.push(n);
            },
            None => {},
        }
        i = i + 1;
    }
    assert(all.take(all.len() as int) =~= all);
    out
}

/// Why an Eastmoney news reply gave no rows.
#[derive(Debug, Clone, Copy, PartialEq, Eq)]
pub enum NewsPayloadError {
    /// The reply is not JSON, or holds no array under `data.list`.
    MissingList,
}

/// The headlines of an Eastmoney news reply: an error exactly when the reply
/// has no rows (see [`eastmoney_rows_of`]), else one headline per row with a
/// text title, in order.
pub fn eastmoney_news(body: &str) -> (r: Result<Vec<NewsItem>, NewsPayloadError>)
    ensures
        r is Err <==> eastmoney_rows_of(body@) is None,
        r matches Ok(v) ==> {
            let rows = eastmoney_rows_of(body@)->0;
            &&& v@.len() == titled_rows(rows).len()
            &&& forall|k: int|
                0 <= k < v@.len() ==> eastmoney_headline_of(titled_rows(rows)[k], #[trigger] v@[k])
        },
{
    match eastmoney_rows(body) {
        Some(rows) => Ok(eastmoney_headlines(rows)),
        None => Err(NewsPayloadError::MissingList),
    }
}

/// The entries with a non-blank title, in order.
pub open spec fn rss_kept(items: Seq<RssEntry>) -> Seq<RssEntry>
    decreases items.len(),
{
    if items.len() == 0 {
        Seq::empty()
    } else {
        let r = rss_kept(items.drop_last());
        if trim(items.last().title@).len() != 0 {
            r.push(items.last())
        } else {
            r
        }
    }
}

/// The headline made from one RSS entry of a feed: every field trimmed.
pub open spec fn rss_news_of(source: Seq<char>, e: RssEntry, n: NewsItem) -> bool {
    &&& n.source@ == source
    &&& n.title@ == trim(e.title@)
    &&& n.url@ == trim(e.link@)
    &&& n.published_at@ == trim(e.published_at@)
}

/// Most headlines taken from one feed.
pub open spec fn rss_cap() -> nat {
    15
}

/// Headlines of one RSS feed: the first 15 entries with a non-blank title,
/// with title, link and date trimmed.
pub fn rss_news(source: &str, items: &[RssEntry]) -> (r: Vec<NewsItem>)
    ensures
        r@.len() == if rss_kept(items@).len() < rss_cap() {
            rss_kept(items@).len()
        } else {
            rss_cap()
        },
        forall|k: int| 0 <= k < r@.len() ==> rss_news_of(source@, rss_kept(items@)[k], #[trigger] r@[k]),
{
    let mut r: Vec<NewsItem> = Vec::new();
    let mut i: usize = 0;
    while i < items.len()
        invariant
            i <= items@.len(),
            r@.len() == if rss_kept(items@.take(i as int)).len() < 15 {
                rss_kept(items@.take(i as int)).len()
            } else {
                15
            },
            forall|k: int|
                0 <= k < r@.len() ==> rss_news_of(
                    source@,
                    rss_kept(items@.take(i as int))[k],
                    #[trigger] r@[k],
                ),
        decreases items@.len() - i,
    {
        let ghost prev = rss_kept(items@.take(i as int));
        assert(items@.take(i + 1).drop_last() =~= items@.take(i as int));
        assert(items@.take(i + 1).last() == items@[i as int]);
        let title = trimmed(items[i].title.as_str());
        if !title.as_str().is_empty() && r.len() < 15 {
            let n = NewsItem {
                source: owned(source),
                title,
                url: trimmed(items[i].link.as_str()),
                published_at: trimmed(items[i].published_at.as_str()),
            };
            r.push(n);
        }
        proof {
            let next = rss_kept(items@.take(i + 1));
            assert forall|k: int| 0 <= k < prev.len() implies next[k] == prev[k] by {}
        }
        i = i + 1;
    }
    assert(items@.take(items@.len() as int) =~= items@);
    r
}

/// Words that make a headline sound positive.
pub open spec fn positive_words() -> Seq<Seq<char>> {
    seq!["增长"@, "突破"@, "上调"@, "回购"@, "增持"@, "利好"@, "创新高"@, "盈利"@]
}

/// Words that make a headline sound negative.
pub open spec fn negative_words() -> Seq<Seq<char>> {
    seq!["下跌"@, "下调"@, "减持"@, "亏损"@, "风险"@, "调查"@, "暴跌"@, "违约"@]
}

/// A word whose first character no listed word starts with is not listed.
proof fn lemma_not_listed(words: Seq<Seq<char>>, x: Seq<char>)
    requires
        x.len() > 0,
        forall|i: int| 0 <= i < words.len() ==> words[i].len() > 0 && words[i][0] != x[0],
    ensures
        !words.contains(x),
{
    if words.contains(x) {
        let i = choose|i: int| 0 <= i < words.len() && words[i] == x;
        assert(words[i][0] == x[0]);
    }
}

/// The tone word lists: share buying, rating upgrades, growth, breakouts,
/// buy-backs, good news, new highs and profits sound positive; falls,
/// downgrades, share selling, losses, risks, investigations, crashes and
/// defaults sound negative. Share buying (增持) and share selling (减持), and
/// upgrades (上调) and downgrades (下调), fall on opposite sides, and no word
/// is on both.
pub proof fn law_tone_words()
    ensures
        positive_words().len() == 8,
        negative_words().len() == 8,
        positive_words().contains("增持"@),
        !positive_words().contains("减持"@),
        negative_words().contains("减持"@),
        !negative_words().contains("增持"@),
        positive_words().contains("上调"@),
        !positive_words().contains("下调"@),
        negative_words().contains("下调"@),
        !negative_words().contains("上调"@),
        positive_words().contains("增长"@) && positive_words().contains("突破"@)
            && positive_words().contains("回购"@) && positive_words().contains("利好"@)
            && positive_words().contains("创新高"@) && positive_words().contains("盈利"@),
        negative_words().contains("下跌"@) && negative_words().contains("亏损"@)
            && negative_words().contains("风险"@) && negative_words().contains("调查"@)
            && negative_words().contains("暴跌"@) && negative_words().contains("违约"@),
        forall|w: Seq<char>| positive_words().contains(w) ==> !negative_words().contains(w),
{
    reveal_strlit("增长");
    reveal_strlit("突破");
    reveal_strlit("上调");
    reveal_strlit("回购");
    reveal_strlit("增持");
    reveal_strlit("利好");
    reveal_strlit("创新高");
    reveal_strlit("盈利");
    reveal_strlit("下跌");
    reveal_strlit("下调");
    reveal_strlit("减持");
    reveal_strlit("亏损");
    reveal_strlit("风险");
    reveal_strlit("调查");
    reveal_strlit("暴跌");
    reveal_strlit("违约");
    let p = positive_words();
    let n = negative_words();
    assert(p[0] == "增长"@ && p[1] == "突破"@ && p[2] == "上调"@ && p[3] == "回购"@);
    assert(p[4] == "增持"@ && p[5] == "利好"@ && p[6] == "创新高"@ && p[7] == "盈利"@);
    assert(n[0] == "下跌"@ && n[1] == "下调"@ && n[2] == "减持"@ && n[3] == "亏损"@);
    assert(n[4] == "风险"@ && n[5] == "调查"@ && n[6] == "暴跌"@ && n[7] == "违约"@);
    lemma_not_listed(p, "减持"@);
    lemma_not_listed(p, "下调"@);
    lemma_not_listed(n, "增持"@);
    lemma_not_listed(n, "上调"@);
    assert forall|w: Seq<char>| p.contains(w) implies !n.contains(w) by {
        let i = choose|i: int| 0 <= i < p.len() && p[i] == w;
        lemma_not_listed(n, w);
    }
}

/// Hits of a list split in two add up.
proof fn lemma_word_hits_concat(t: Seq<char>, a: Seq<Seq<char>>, b: Seq<Seq<char>>)
    ensures
        word_hits(t, a + b) == word_hits(t, a) + word_hits(t, b),
    decreases b.len(),
{
    if b.len() == 0 {
        assert(a + b =~= a);
    } else {
        lemma_word_hits_concat(t, a, b.drop_last());
        assert((a + b).drop_last() =~= a + b.drop_last());
        assert((a + b).last() == b.last());
    }
}

/// A list none of whose words occurs in the title gives no hit.
proof fn lemma_word_hits_none(t: Seq<char>, words: Seq<Seq<char>>)
    requires
        forall|i: int| 0 <= i < words.len() ==> !contains_str(t, #[trigger] words[i]),
    ensures
        word_hits(t, words) == 0,
    decreases words.len(),
{
    if words.len() > 0 {
        lemma_word_hits_none(t, words.drop_last());
    }
}

/// A headline whose only listed word is 增持 (share buying) counts one
/// positive hit and no negative one.
pub proof fn law_share_buying_is_positive(title: Seq<char>)
    requires
        contains_str(title, "增持"@),
        forall|i: int|
            0 <= i < positive_words().len() && positive_words()[i] != "增持"@ ==> !contains_str(
                title,
                #[trigger] positive_words()[i],
            ),
        forall|i: int|
            0 <= i < negative_words().len() && negative_words()[i] != "增持"@ ==> !contains_str(
                title,
                #[trigger] negative_words()[i],
            ),
    ensures
        word_hits(title, positive_words()) == 1,
        word_hits(title, negative_words()) == 0,
{
    law_tone_words();
    let p = positive_words();
    let n = negative_words();
    reveal_strlit("增持");
    reveal_strlit("增长");
    reveal_strlit("突破");
    reveal_strlit("上调");
    reveal_strlit("回购");
    reveal_strlit("利好");
    reveal_strlit("创新高");
    reveal_strlit("盈利");
    let x = "增持"@;
    assert(p[0] != x) by {
        assert(p[0][1] != x[1]);
    }
    assert(p[1] != x) by {
        assert(p[1][0] != x[0]);
    }
    assert(p[2] != x) by {
        assert(p[2][0] != x[0]);
    }
    assert(p[3] != x) by {
        assert(p[3][0] != x[0]);
    }
    assert(p[5] != x) by {
        assert(p[5][0] != x[0]);
    }
    assert(p[6] != x) by {
        assert(p[6][0] != x[0]);
    }
    assert(p[7] != x) by {
        assert(p[7][0] != x[0]);
    }
    let a = p.take(4);
    let b = p.skip(5);
    assert(p =~= a + seq![x] + b);
    assert forall|i: int| 0 <= i < a.len() implies !contains_str(title, #[trigger] a[i]) by {
        assert(a[i] == p[i]);
    }
    assert forall|i: int| 0 <= i < b.len() implies !contains_str(title, #[trigger] b[i]) by {
        assert(b[i] == p[i + 5]);
    }
    lemma_word_hits_none(title, a);
    lemma_word_hits_none(title, b);
    lemma_word_hits_concat(title, a, seq![x]);
    lemma_word_hits_concat(title, a + seq![x], b);
    assert(word_hits(title, seq![x]) == 1) by {
        assert(seq![x].drop_last() =~= Seq::<Seq<char>>::empty());
        assert(seq![x].last() == x);
        assert(word_hits(title, Seq::<Seq<char>>::empty()) == 0);
    }
    assert forall|i: int| 0 <= i < n.len() implies !contains_str(title, #[trigger] n[i]) by {
        if n[i] == "增持"@ {
            assert(n.contains(n[i]));
        }
    }
    lemma_word_hits_none(title, n);
}

/// How many of `words` occur in `title`.
pub open spec fn word_hits(title: Seq<char>, words: Seq<Seq<char>>) -> nat
    decreases words.len(),
{
    if words.len() == 0 {
        0
    } else {
        word_hits(title, words.drop_last()) + if contains_str(title, words.last()) {
            1nat
        } else {
            0nat
        }
    }
}

/// Word hits summed over all headlines.
pub open spec fn total_hits(items: Seq<NewsItem>, words: Seq<Seq<char>>) -> nat
    decreases items.len(),
{
    if items.len() == 0 {
        0
    } else {
        total_hits(items.drop_last(), words) + word_hits(items.last().title@, words)
    }
}

proof fn lemma_word_hits_le(title: Seq<char>, words: Seq<Seq<char>>)
    ensures
        word_hits(title, words) <= words.len(),
    decreases words.len(),
{
    if words.len() > 0 {
        lemma_word_hits_le(title, words.drop_last());
    }
}

proof fn lemma_total_hits_le(items: Seq<NewsItem>, words: Seq<Seq<char>>)
    ensures
        total_hits(items, words) <= items.len() * words.len(),
    decreases items.len(),
{
    if items.len() > 0 {
        lemma_total_hits_le(items.drop_last(), words);
        lemma_word_hits_le(items.last().title@, words);
        assert((items.len() - 1) * words.len() + words.len() == items.len() * words.len())
            by (nonlinear_arith);
    }
}

/// How many of `words` occur in `title`.
fn count_words(title: &[char], words: &Vec<Vec<char>>) -> (n: usize)
    ensures
        n == word_hits(title@, words@.map_values(|w: Vec<char>| w@)),
{
    let ghost ws = words@.map_values(|w: Vec<char>| w@);
    let mut n: usize = 0;
    let mut i: usize = 0;
    while i < words.len()
        invariant
            i <= words@.len(),
            ws == words@.map_values(|w: Vec<char>| w@),
            n == word_hits(title@, ws.take(i as int)),
            n <= i,
        decreases words@.len() - i,
    {
        assert(ws.take(i + 1).drop_last() =~= ws.take(i as int));
        assert(ws.take(i + 1).last() == words@[i as int]@);
        if contains(title, &words[i]) {
            n = n + 1;
        }
        i = i + 1;
    }
    assert(ws.take(ws.len() as int) =~= ws);
    n
}

/// The exec word lists.
fn word_list(positive: bool) -> (ws: Vec<Vec<char>>)
    ensures
        ws@.map_values(|w: Vec<char>| w@) == if positive {
            positive_words()
        } else {
            negative_words()
        },
{
    let ws = if positive {
        vec![
            chars_of("增长"),
            chars_of("突破"),
            chars_of("上调"),
            chars_of("回购"),
            chars_of("增持"),
            chars_of("利好"),
            chars_of("创新高"),
            chars_of("盈利"),
        ]
    } else {
        vec![
            chars_of("下跌"),
            chars_of("下调"),
            chars_of("减持"),
            chars_of("亏损"),
            chars_of("风险"),
            chars_of("调查"),
            chars_of("暴跌"),
            chars_of("违约"),
        ]
    };
    assert(ws@.map_values(|w: Vec<char>| w@) =~= if positive {
        positive_words()
    } else {
        negative_words()
    });
    ws
}

/// Tone of a set of headlines: how many positive and how many negative
/// words occur over all titles (each word counted once per title).
pub fn sentiment_hits(items: &[NewsItem]) -> (r: (usize, usize))
    requires
        items@.len() <= usize::MAX / 8,
    ensures
        r.0 == total_hits(items@, positive_words()),
        r.1 == total_hits(items@, negative_words()),
{
    let pos = word_list(true);
    let neg = word_list(false);
    let mut p: usize = 0;
    let mut n: usize = 0;
    let mut i: usize = 0;
    while i < items.len()
        invariant
            i <= items@.len() <= usize::MAX / 8,
            pos@.map_values(|w: Vec<char>| w@) == positive_words(),
            neg@.map_values(|w: Vec<char>| w@) == negative_words(),
            p == total_hits(items@.take(i as int), positive_words()),
            n == total_hits(items@.take(i as int), negative_words()),
        decreases items@.len() - i,
    {
        assert(items@.take(i + 1).drop_last() =~= items@.take(i as int));
        assert(items@.take(i + 1).last() == items@[i as int]);
        proof {
            lemma_total_hits_le(items@.take(i as int), positive_words());
            lemma_total_hits_le(items@.take(i as int), negative_words());
            assert(i * 8 <= usize::MAX - 8) by (nonlinear_arith)
                requires
                    i < usize::MAX / 8,
            ;
        }
        let title = chars_of(items[i].title.as_str());
        let a = count_words(&title, &pos);
        let b = count_words(&title, &neg);
        proof {
            lemma_word_hits_le(title@, positive_words());
            lemma_word_hits_le(title@, negative_words());
        }
        p = p + a;
        n = n + b;
        i = i + 1;
    }
    assert(items@.take(items@.len() as int) =~= items@);
    (p, n)
}

// ───────────── merging headlines ─────────────

/// Headlines kept after merging all sources.
pub open spec fn headline_cap() -> nat {
    30
}

/// Sort key of a headline: its publication time text.
pub open spec fn news_key(n: NewsItem) -> Seq<char> {
    n.published_at@
}

/// Where a headline goes in a list sorted newest first: before the first
/// entry with an earlier key, so that entries with the same key keep their
/// arrival order.
pub open spec fn insert_pos(s: Seq<NewsItem>, x: NewsItem) -> int
    decreases s.len(),
{
    if s.len() == 0 {
        0
    } else if lex_lt(news_key(s[0]), news_key(x)) {
        0
    } else {
        1 + insert_pos(s.drop_first(), x)
    }
}

/// Stable sort by publication time, newest first (`sort_by` with the
/// comparison reversed).
pub open spec fn sort_newest_first(s: Seq<NewsItem>) -> Seq<NewsItem>
    decreases s.len(),
{
    if s.len() == 0 {
        Seq::empty()
    } else {
        let r = sort_newest_first(s.drop_last());
        r.insert(insert_pos(r, s.last()), s.last())
    }
}

/// Consecutive headlines with the same title collapsed to the first one
/// (`dedup_by` on the title).
pub open spec fn dedup_titles(s: Seq<NewsItem>) -> Seq<NewsItem>
    decreases s.len(),
{
    if s.len() <= 1 {
        s
    } else {
        let r = dedup_titles(s.drop_last());
        if r.last().title@ == s.last().title@ {
            r
        } else {
            r.push(s.last())
        }
    }
}

/// The merged headlines: sorted newest first, repeated titles collapsed,
/// at most 30 kept.
pub open spec fn merged_of(s: Seq<NewsItem>) -> Seq<NewsItem> {
    let d = dedup_titles(sort_newest_first(s));
    if d.len() <= headline_cap() {
        d
    } else {
        d.take(headline_cap() as int)
    }
}

/// Ordered newest first.
pub open spec fn newest_first(s: Seq<NewsItem>) -> bool {
    forall|i: int, j: int| 0 <= i < j < s.len() ==> !lex_lt(news_key(s[i]), news_key(s[j]))
}

proof fn lemma_insert_pos_bounds(s: Seq<NewsItem>, x: NewsItem)
    ensures
        0 <= insert_pos(s, x) <= s.len(),
        forall|k: int| 0 <= k < insert_pos(s, x) ==> !lex_lt(news_key(s[k]), news_key(x)),
        insert_pos(s, x) < s.len() ==> lex_lt(news_key(s[insert_pos(s, x)]), news_key(x)),
    decreases s.len(),
{
    if s.len() > 0 && !lex_lt(news_key(s[0]), news_key(x)) {
        lemma_insert_pos_bounds(s.drop_first(), x);
        assert forall|k: int| 1 <= k < s.len() implies s[k] == s.drop_first()[k - 1] by {}
    }
}

/// Sorting keeps the headlines (as a multiset) and orders them newest first.
pub proof fn lemma_sort_newest_first(s: Seq<NewsItem>)
    ensures
        sort_newest_first(s).to_multiset() == s.to_multiset(),
        sort_newest_first(s).len() == s.len(),
        newest_first(sort_newest_first(s)),
    decreases s.len(),
{
    broadcast use vstd::seq_lib::group_to_multiset_ensures;

    if s.len() > 0 {
        let r = sort_newest_first(s.drop_last());
        let x = s.last();
        lemma_sort_newest_first(s.drop_last());
        lemma_insert_pos_bounds(r, x);
        let p = insert_pos(r, x);
        let out = r.insert(p, x);
        assert(s =~= s.drop_last().push(x));
        assert(out.to_multiset() =~= r.to_multiset().insert(x)) by {
            broadcast use vstd::multiset::group_multiset_axioms;

            assert(out.remove(p) =~= r);
            assert(out[p] == x);
            assert(out.contains(x));
            assert(out.to_multiset().count(x) > 0);
        }
        assert forall|i: int, j: int| 0 <= i < j < out.len() implies !lex_lt(
            news_key(out[i]),
            news_key(out[j]),
        ) by {
            if i < p && j == p {
            } else if i == p && j > p {
                // r[j-1] is at or after position p, so it is earlier than x
                if lex_lt(news_key(x), news_key(r[j - 1])) {
                    lemma_lex_transitive(news_key(r[p]), news_key(x), news_key(r[j - 1]));
                    lemma_lex_irreflexive(news_key(r[j - 1]));
                    if p < j - 1 {
                        lemma_lex_total(news_key(r[p]), news_key(r[j - 1]));
                    }
                }
            } else if i < p && j > p {
            } else {
            }
        }
    }
}

/// Collapsing repeats keeps the first entry and only entries of the list.
proof fn lemma_dedup_subsequence(s: Seq<NewsItem>)
    ensures
        dedup_titles(s).len() <= s.len(),
        s.len() > 0 ==> dedup_titles(s).len() > 0 && dedup_titles(s)[0] == s[0],
        forall|i: int| 0 <= i < dedup_titles(s).len() ==> s.contains(#[trigger] dedup_titles(s)[i]),
    decreases s.len(),
{
    let out = dedup_titles(s);
    if s.len() <= 1 {
        assert forall|i: int| 0 <= i < out.len() implies s.contains(#[trigger] out[i]) by {
            assert(out[i] == s[i]);
        }
    } else {
        let p = s.drop_last();
        let r = dedup_titles(p);
        lemma_dedup_subsequence(p);
        assert forall|i: int| 0 <= i < out.len() implies s.contains(#[trigger] out[i]) by {
            if i < r.len() {
                assert(out[i] == r[i]);
                assert(p.contains(r[i]));
                let k = choose|k: int| 0 <= k < p.len() && p[k] == r[i];
                assert(s[k] == p[k]);
            } else {
                assert(out[i] == s[s.len() - 1]);
            }
        }
    }
}

/// Collapsing repeats of a list sorted newest first keeps it sorted.
proof fn lemma_dedup_keeps_order(s: Seq<NewsItem>)
    requires
        newest_first(s),
    ensures
        newest_first(dedup_titles(s)),
        forall|i: int| 0 <= i && i + 1 < dedup_titles(s).len() ==> dedup_titles(s)[i].title@
            != #[trigger] dedup_titles(s)[i + 1].title@,
    decreases s.len(),
{
    if s.len() > 1 {
        let p = s.drop_last();
        let r = dedup_titles(p);
        assert(newest_first(p)) by {
            assert forall|i: int, j: int| 0 <= i < j < p.len() implies !lex_lt(
                news_key(p[i]),
                news_key(p[j]),
            ) by {
                assert(p[i] == s[i] && p[j] == s[j]);
            }
        }
        lemma_dedup_keeps_order(p);
        lemma_dedup_subsequence(p);
        let out = dedup_titles(s);
        assert forall|i: int| 0 <= i && i + 1 < out.len() implies out[i].title@
            != #[trigger] out[i + 1].title@ by {
            if out != r && i + 1 == r.len() {
                assert(out[i] == r.last());
                assert(out[i + 1] == s.last());
            } else {
                assert(out[i] == r[i] && out[i + 1] == r[i + 1]);
            }
        }
        if out != r {
            assert(out == r.push(s.last()));
            assert forall|i: int, j: int| 0 <= i < j < out.len() implies !lex_lt(
                news_key(out[i]),
                news_key(out[j]),
            ) by {
                if j == r.len() {
                    assert(p.contains(r[i]));
                    let k = choose|k: int| 0 <= k < p.len() && p[k] == r[i];
                    assert(p[k] == s[k]);
                    assert(out[i] == s[k]);
                    assert(out[j] == s[s.len() - 1]);
                } else {
                    assert(out[i] == r[i] && out[j] == r[j]);
                }
            }
        }
    }
}

/// The merged headlines come newest first, no title directly repeats, at
/// most 30 are kept, and each of them is one of the given headlines.
pub proof fn law_merged_headlines(s: Seq<NewsItem>)
    ensures
        newest_first(merged_of(s)),
        merged_of(s).len() <= headline_cap(),
        forall|i: int| 0 <= i && i + 1 < merged_of(s).len() ==> merged_of(s)[i].title@
            != #[trigger] merged_of(s)[i + 1].title@,
        forall|i: int| 0 <= i < merged_of(s).len() ==> s.contains(#[trigger] merged_of(s)[i]),
{
    lemma_sort_newest_first(s);
    lemma_dedup_keeps_order(sort_newest_first(s));
    lemma_dedup_subsequence(sort_newest_first(s));
    let sorted = sort_newest_first(s);
    let d = dedup_titles(sorted);
    let m = merged_of(s);
    assert forall|i: int| 0 <= i < m.len() implies s.contains(#[trigger] m[i]) by {
        assert(m[i] == d[i]);
        assert(sorted.contains(d[i]));
        vstd::seq_lib::to_multiset_contains(sorted, d[i]);
        vstd::seq_lib::to_multiset_contains(s, d[i]);
    }
    if d.len() > headline_cap() {
        assert forall|i: int, j: int| 0 <= i < j < m.len() implies !lex_lt(
            news_key(m[i]),
            news_key(m[j]),
        ) by {
            assert(m[i] == d[i] && m[j] == d[j]);
        }
        assert forall|i: int| 0 <= i && i + 1 < m.len() implies m[i].title@
            != #[trigger] m[i + 1].title@ by {
            assert(m[i] == d[i] && m[i + 1] == d[i + 1]);
        }
    }
}

/// The merged headlines are ordered by their whole publication text, newest
/// first: no headline is published (as text) before a later one in the list.
/// Two headlines of the same day with different times come in time order.
pub proof fn law_merged_newest_first_by_time(s: Seq<NewsItem>)
    ensures
        forall|i: int, j: int|
            0 <= i < j < merged_of(s).len() ==> !lex_lt(
                (#[trigger] merged_of(s)[i]).published_at@,
                (#[trigger] merged_of(s)[j]).published_at@,
            ),
{
    law_merged_headlines(s);
    let m = merged_of(s);
    assert forall|i: int, j: int| 0 <= i < j < m.len() implies !lex_lt(
        (#[trigger] m[i]).published_at@,
        (#[trigger] m[j]).published_at@,
    ) by {
        assert(!lex_lt(news_key(m[i]), news_key(m[j])));
    }
}

proof fn lemma_dedup_nonempty(s: Seq<NewsItem>)
    requires
        s.len() > 0,
    ensures
        dedup_titles(s).len() > 0,
    decreases s.len(),
{
    if s.len() > 1 {
        lemma_dedup_nonempty(s.drop_last());
    }
}

/// Merges the headlines of all sources: newest first (ties keep their
/// order), consecutive repeats of a title dropped, at most 30 kept. `None`
/// when there is no headline at all.
pub fn merge_headlines(items: Vec<NewsItem>) -> (r: Option<Vec<NewsItem>>)
    ensures
        match r {
            Some(v) => items@.len() > 0 && v@ == merged_of(items@),
            None => items@.len() == 0,
        },
{
    let ghost input = items@;
    assert(input.len() == items.len());
    let mut rest = items;
    let mut sorted: Vec<NewsItem> = Vec::new();
    let mut k: usize = 0;
    while rest.len() > 0
        invariant
            k + rest@.len() == input.len(),
            input.len() <= usize::MAX,
            rest@ == input.skip(k as int),
            sorted@ == sort_newest_first(input.take(k as int)),
        decreases rest@.len(),
    {
        let x = rest.remove(0);
        assert(input.take(k + 1).drop_last() =~= input.take(k as int));
        assert(input.take(k + 1).last() == x);
        assert(rest@ =~= input.skip(k + 1));
        let xk = chars_of(x.published_at.as_str());
        let mut j: usize = 0;
        assert(sorted@.skip(0) =~= sorted@);
        while j < sorted.len()
            invariant
                j <= sorted@.len(),
                xk@ == news_key(x),
                insert_pos(sorted@, x) == j + insert_pos(sorted@.skip(j as int), x),
            ensures
                j <= sorted@.len(),
                insert_pos(sorted@, x) == j,
            decreases sorted@.len() - j,
        {
            let sk = chars_of(sorted[j].published_at.as_str());
            // `sorted[j] < x` means x goes here.
            if !str_ge(&sk, &xk) {
                assert(sorted@.skip(j as int)[0] == sorted@[j as int]);
                assert(insert_pos(sorted@.skip(j as int), x) == 0);
                break;
            }
            assert(sorted@.skip(j as int).drop_first() =~= sorted@.skip(j + 1));
            j = j + 1;
            proof {
                if j == sorted@.len() {
                    assert(sorted@.skip(j as int) =~= Seq::<NewsItem>::empty());
                }
            }
        }
        sorted.insert(j, x);
        k = k + 1;
    }
    assert(input.take(input.len() as int) =~= input);
    if sorted.len() == 0 {
        return None;
    }
    // Collapse consecutive repeats of a title.
    let mut out: Vec<NewsItem> = Vec::new();
    let ghost srt = sorted@;
    assert(srt.len() == sorted.len());
    let mut taken: usize = 0;
    let mut src = sorted;
    while src.len() > 0
        invariant
            taken + src@.len() == srt.len(),
            srt.len() <= usize::MAX,
            srt.len() > 0,
            src@ == srt.skip(taken as int),
            taken == 0 ==> out@.len() == 0,
            taken > 0 ==> out@ == dedup_titles(srt.take(taken as int)),
        decreases src@.len(),
    {
        let x = src.remove(0);
        assert(srt.take(taken + 1).drop_last() =~= srt.take(taken as int));
        assert(srt.take(taken + 1).last() == x);
        assert(src@ =~= srt.skip(taken + 1));
        proof {
            if taken > 0 {
                lemma_dedup_nonempty(srt.take(taken as int));
            }
        }
        if out.len() == 0 {
            assert(srt.take(1) =~= seq![x]);
            out.push(x);
        } else {
            let last_title = chars_of(out[out.len() - 1].title.as_str());
            let t = chars_of(x.title.as_str());
            if !chars_eq(&last_title, &t) {
                out.push(x);
            }
        }
        taken = taken + 1;
    }
    assert(srt.take(srt.len() as int) =~= srt);
    out.truncate(30);
    Some(out)
}

/// The trading date of a US-market quote time: its first ten bytes when they
/// end on a character boundary, else the whole text.
pub open spec fn session_date_bytes(t: Seq<char>) -> Seq<u8> {
    let b = encode_utf8(t);
    if b.len() >= 10 && is_char_boundary(b, 10) {
        b.subrange(0, 10)
    } else {
        b
    }
}

/// Trading date shown for a US index quote (`time_text.get(..10)`, or the
/// whole text when that slice is not available).
pub fn session_date(time_text: &str) -> (r: String)
    ensures
        encode_utf8(r@) == session_date_bytes(time_text@),
        !(encode_utf8(time_text@).len() >= 10 && is_char_boundary(encode_utf8(time_text@), 10))
            ==> r@ == time_text@,
{
    proof {
        vstd::utf8::encode_utf8_valid_utf8(time_text@);
    }
    let bytes = time_text.as_bytes();
    if bytes.len() >= 10 && time_text.is_char_boundary(10) {
        let (head, _) = time_text.split_at(10);
        assert(head.spec_bytes() == encode_utf8(head@));
        assert(time_text.spec_bytes() == encode_utf8(time_text@));
        owned(head)
    } else {
        owned(time_text)
    }
}

} // verus!
