use chrono::Datelike;
use chrono::Timelike;
use searchrank::prettify::CivilDateTime;
use searchrank::prettify::DisplayedWebpage;
use searchrank::prettify::InfoEntry;
use searchrank::prettify::Link;
use searchrank::prettify::RetrievedWebpage;
use searchrank::prettify::Span;
use searchrank::prettify::entity_link_to_html;
use searchrank::prettify::html_escape;
use searchrank::prettify::maybe_prettify_entity_date;
use searchrank::prettify::now_seconds;
use searchrank::prettify::prepare_info;
use searchrank::prettify::prettify_date;
use searchrank::prettify::prettify_url;
use searchrank::prettify::thousand_sep_number;

fn civil_of(dt: chrono::NaiveDateTime, secs: i64) -> CivilDateTime {
    let _ = dt.hour();
    CivilDateTime {
        secs,
        year: dt.year() as u64,
        month: dt.month() as u64,
        day: dt.day() as u64,
    }
}

#[test]
fn prettify_date_in_hours() {
    let now = chrono::Utc::now();
    let date = civil_of(now.naive_utc(), now.timestamp());
    assert_eq!(prettify_date(&date, now.timestamp()), "1 hour ago".to_string());

    let earlier = now - chrono::Duration::seconds(4000);
    let date = civil_of(earlier.naive_utc(), earlier.timestamp());
    assert_eq!(prettify_date(&date, now.timestamp()), "2 hours ago".to_string());
}

#[test]
fn prettify_date_future_counts_as_one_hour_ago() {
    let now = chrono::Utc::now();
    let later = now + chrono::Duration::seconds(5000);
    let date = civil_of(later.naive_utc(), later.timestamp());
    assert_eq!(prettify_date(&date, now.timestamp()), "1 hour ago".to_string());
}

#[test]
fn prettify_date_days() {
    let now = chrono::Utc::now();
    let earlier = now - chrono::Duration::days(1);
    let date = civil_of(earlier.naive_utc(), earlier.timestamp());
    assert_eq!(prettify_date(&date, now.timestamp()), "1 day ago".to_string());

    let earlier = now - chrono::Duration::days(2);
    let date = civil_of(earlier.naive_utc(), earlier.timestamp());
    assert_eq!(prettify_date(&date, now.timestamp()), "2 days ago".to_string());
}

#[test]
fn prettify_date_rest() {
    let parsed = chrono::DateTime::parse_from_rfc3339("1996-12-19T16:39:57-08:00").unwrap();
    let date = civil_of(parsed.naive_local(), parsed.timestamp());
    assert_eq!(prettify_date(&date, now_seconds()), "19. Dec. 1996".to_string());
}

#[test]
fn simple_link_to_html() {
    assert_eq!(
        entity_link_to_html(
            Span {
                text: "some text with a link".to_string(),
                links: vec![Link {
                    start: 5,
                    end: 9,
                    target: "text article".to_string()
                }]
            },
            10000
        ),
        "some <a href=\"https://en.wikipedia.org/wiki/text_article\">text</a> with a link"
            .to_string()
    );
}

#[test]
fn truncated_link_to_html() {
    assert_eq!(
        entity_link_to_html(
            Span {
                text: "some text".to_string(),
                links: vec![Link {
                    start: 5,
                    end: 9,
                    target: "text article".to_string()
                }]
            },
            7
        ),
        "some <a href=\"https://en.wikipedia.org/wiki/text_article\">te</a>...".to_string()
    );
}

#[test]
fn einstein_date() {
    assert_eq!(
        maybe_prettify_entity_date("1879 3 14 ".to_string()),
        "14/03/1879".to_string()
    );
}

#[test]
fn entity_date_span_prettify() {
    assert_eq!(
        maybe_prettify_entity_date(" 1999 5 27 1879 3 14  ".to_string()),
        "14/03/1879 - 27/05/1999".to_string()
    );
}

#[test]
fn sep_number() {
    assert_eq!(thousand_sep_number(0), "0".to_string());
    assert_eq!(thousand_sep_number(10), "10".to_string());
    assert_eq!(thousand_sep_number(100), "100".to_string());
    assert_eq!(thousand_sep_number(1000), "1.000".to_string());
    assert_eq!(thousand_sep_number(10_000), "10.000".to_string());
    assert_eq!(thousand_sep_number(100_000), "100.000".to_string());
    assert_eq!(thousand_sep_number(512_854), "512.854".to_string());
    assert_eq!(thousand_sep_number(9_512_854), "9.512.854".to_string());
}

#[test]
fn non_date_value_passes_through() {
    assert_eq!(
        maybe_prettify_entity_date("born in Ulm".to_string()),
        "born in Ulm".to_string()
    );
    // an invalid calendar date is left alone
    assert_eq!(
        maybe_prettify_entity_date("1879 2 30".to_string()),
        "1879 2 30".to_string()
    );
}

#[test]
fn html_escape_decodes_then_strips() {
    // would be "aamp;b" if the decoder handed its input back unchanged
    assert_eq!(html_escape("a&amp;b"), "ab".to_string());
    assert_eq!(html_escape("x<y>z"), "xyz".to_string());
}

#[test]
fn url_beautification() {
    assert_eq!(
        prettify_url(&"https://example.com/a/b?q=1".to_string()),
        "https://example.com › a › b".to_string()
    );
    assert_eq!(
        prettify_url(&"https://example.com/".to_string()),
        "https://example.com".to_string()
    );
}

#[test]
fn displayed_webpage_fields() {
    let now = now_seconds();
    let page = RetrievedWebpage {
        title: "A &amp; B".to_string(),
        url: "https://example.com/page?x=2".to_string(),
        snippet: "snippet".to_string(),
        body: "body".to_string(),
        favicon: Some(vec![77, 97, 110]),
        primary_image_uuid: None,
        updated_time: None,
    };
    let shown = DisplayedWebpage::from(page, now);
    assert_eq!(shown.title, "A  B".to_string());
    assert_eq!(shown.site, "example.com".to_string());
    assert_eq!(shown.pretty_url, "https://example.com › page".to_string());
    // standard base64 of b"Man"
    assert_eq!(shown.favicon_base64, "TWFu".to_string());
    assert_eq!(shown.last_updated, None);
}

#[test]
fn info_preparation_drops_blocked_keys_and_caps_at_five() {
    let mut info = Vec::new();
    for (key, text, occ) in [
        ("caption", "hidden", 99u64),
        ("born", "1879 3 14", 50),
        ("a", "va", 5),
        ("b", "vb", 4),
        ("c", "vc", 3),
        ("d", "vd", 2),
        ("e", "ve", 1),
    ] {
        info.push(InfoEntry {
            key: key.to_string(),
            value: Span { text: text.to_string(), links: Vec::new() },
            occurrence: occ,
        });
    }
    let shown = prepare_info(&info);
    assert_eq!(shown.len(), 5);
    assert_eq!(shown[0], ("born".to_string(), "14/03/1879".to_string()));
    assert_eq!(shown[1], ("a".to_string(), "va".to_string()));
}
