use link_titles::json::{Json, Member};
use link_titles::youtube::{
    describe, duration_seconds, holds_long_number, string, video, VideoError,
};
use link_titles::units::major_duration_unit;

fn members(list: Vec<(&str, Json)>) -> Json {
    Json::Object(
        list.into_iter()
            .map(|(k, v)| Member {
                name: k.to_string(),
                value: v,
                written: String::new(),
            })
            .collect(),
    )
}

fn words(s: &str) -> Json {
    Json::Text(s.to_string())
}

fn answer(title: Json, channel: Json, published: Json, duration: Json) -> Json {
    members(vec![
        ("kind", words("youtube#videoListResponse")),
        (
            "items",
            Json::Array(vec![members(vec![
                ("id", words("JwhjqdSPw5g")),
                (
                    "snippet",
                    members(vec![
                        ("publishedAt", published),
                        ("title", title),
                        ("channelTitle", channel),
                    ]),
                ),
                ("contentDetails", members(vec![("duration", duration)])),
            ])]),
        ),
    ])
}

#[test]
fn aiweechoo() {
    let resp = answer(
        words("Platinum Level Circulation (Avicii x Tsukihi Araragi x Nadeko Sengoku)"),
        words("shoopfex"),
        words("2013-03-08T20:07:18.000Z"),
        words("PT5M11S"),
    );
    assert_eq!(
        "5m 2013-03-08 ፤ [shoopfex] ፤ Platinum Level Circulation (Avicii x Tsukihi Araragi x Nadeko Sengoku)",
        video(&resp).unwrap().as_str()
    )
}

#[test]
fn video_takes_the_day_at_the_given_offset() {
    let resp = answer(
        words("t"),
        words("c"),
        words("2020-12-31T23:30:00-05:00"),
        words("PT45S"),
    );
    assert_eq!("45s 2020-12-31 ፤ [c] ፤ t", video(&resp).unwrap());
}

#[test]
fn duration_major_unit_scenarios() {
    assert_eq!("5m", major_duration_unit(duration_seconds("PT5M").unwrap()));
    assert_eq!("45s", major_duration_unit(duration_seconds("PT45S").unwrap()));
    assert_eq!("1h", major_duration_unit(duration_seconds("PT1H").unwrap()));
    assert_eq!("1h", major_duration_unit(duration_seconds("PT60M").unwrap()));
    assert_eq!("49h", major_duration_unit(duration_seconds("P2DT1H").unwrap()));
}

#[test]
fn duration_seconds_reads_and_refuses() {
    assert_eq!(Some(7), duration_seconds("PT7S"));
    assert_eq!(Some(7), duration_seconds("PT7.005S"));
    assert_eq!(Some(604800 + 86400 + 3600 + 60 + 1), duration_seconds("P1W1DT1H1M1S"));
    assert_eq!(
        Some(604800 + 86400 + 36000 + 600 + 10),
        duration_seconds("P1W1DT10H10M10.5S")
    );
    assert_eq!(Some(0), duration_seconds("PT"));
    assert_eq!(None, duration_seconds(""));
    assert_eq!(None, duration_seconds("5M"));
    assert_eq!(None, duration_seconds("PT5X"));
}

#[test]
fn duration_seconds_takes_numbers_of_thirteen_digits() {
    assert_eq!(Some(9999999999999 * 604800), duration_seconds("P9999999999999WT"));
    assert_eq!(
        Some(9999999999999 * (604800 + 86400 + 3600 + 60 + 1)),
        duration_seconds("P9999999999999W9999999999999DT9999999999999H9999999999999M9999999999999S")
    );
    assert_eq!(Some(9999999999999), duration_seconds("PT9999999999999.123456789S"));
    assert_eq!(None, duration_seconds("P99999999999999WT"));
    assert_eq!(None, duration_seconds("PT10000000000000S"));
    assert_eq!(None, duration_seconds("PT00000000000001S"));
    assert_eq!(None, duration_seconds("PT99999999999999999999S"));
    assert!(holds_long_number("x12345678901234"));
    assert!(!holds_long_number("1234567890123x1234567890123"));
    assert!(!holds_long_number(""));
}

#[test]
fn string_wants_a_string() {
    let value = words("x");
    assert_eq!(Ok("x"), string(Some(&value)));
    assert_eq!(Err(VideoError::ExpectedString), string(Some(&Json::Null)));
    assert_eq!(Err(VideoError::ExpectedString), string(None));
}

#[test]
fn describe_puts_the_parts_together() {
    assert_eq!("2h day ፤ [ch] ፤ ti", describe(7300, "day", "ch", "ti"));
}

#[test]
fn video_errors() {
    let good = || words("2013-03-08T20:07:18Z");
    assert_eq!(Err(VideoError::MissingItems), video(&members(vec![])));
    assert_eq!(
        Err(VideoError::EmptyItems),
        video(&members(vec![("items", Json::Array(vec![]))]))
    );
    assert_eq!(
        Err(VideoError::EmptyItems),
        video(&members(vec![("items", Json::Null)]))
    );
    assert_eq!(
        Err(VideoError::SnippetMissing),
        video(&members(vec![("items", Json::Array(vec![members(vec![])]))]))
    );
    assert_eq!(
        Err(VideoError::ExpectedString),
        video(&answer(Json::Null, words("c"), good(), words("PT1S")))
    );
    assert_eq!(
        Err(VideoError::ExpectedString),
        video(&answer(words("t"), Json::Bool(false), good(), words("PT1S")))
    );
    assert_eq!(
        Err(VideoError::BadDate),
        video(&answer(words("t"), words("c"), words("yesterday"), words("PT1S")))
    );
    assert_eq!(
        Err(VideoError::ExpectedString),
        video(&answer(words("t"), words("c"), good(), Json::Null))
    );
    assert_eq!(
        Err(VideoError::BadDuration),
        video(&answer(words("t"), words("c"), good(), words("soon")))
    );
    let no_details = members(vec![(
        "items",
        Json::Array(vec![members(vec![(
            "snippet",
            members(vec![
                ("publishedAt", good()),
                ("title", words("t")),
                ("channelTitle", words("c")),
            ]),
        )])]),
    )]);
    assert_eq!(Err(VideoError::NoContentDetails), video(&no_details));
}
