use link_titles::json::{Json, Member};
use link_titles::twitter::{render_tweet, TweetError};

fn entry(name: &str, value: Json) -> Member {
    Member {
        name: name.to_string(),
        value,
        written: String::new(),
    }
}

fn post(full_text: &str, name: &str) -> Json {
    Json::Object(vec![
        entry("id_str", Json::Text("210462857140252672".to_string())),
        entry("full_text", Json::Text(full_text.to_string())),
        entry(
            "user",
            Json::Object(vec![
                entry("screen_name", Json::Text("x".to_string())),
                entry("name", Json::Text(name.to_string())),
            ]),
        ),
    ])
}

#[test]
fn doc_sample() {
    assert_eq!(
        "Twitter API — Along with our new #Twitterbird, we've also updated our Display Guidelines: https://t.co/Ed4omjYs ^JC",
        render_tweet(&post(
            "Along with our new #Twitterbird, we've also updated our Display Guidelines: https://t.co/Ed4omjYs  ^JC",
            "Twitter API"
        ))
        .unwrap()
        .as_str()
    )
}

#[test]
fn multiline() {
    assert_eq!(
        "Joel the Forklift! — JIM MORRISON: people are strange, when you’re a stranger ¶ PRODUCER: nice ¶ JIM MORRISON: people are docks, when you’re a doctor ¶ PRODUCER: what ¶ JIM MORRISON: *wiggling fingers* people are ticks, when you’re a tickler ¶ PRODUCER (lips on mic): uh, I think we’re good Jim",
        render_tweet(&post(
            "JIM MORRISON: people are strange, when you’re a stranger\nPRODUCER: nice\nJIM MORRISON: people are docks, when you’re a doctor\nPRODUCER: what\nJIM MORRISON: *wiggling fingers* people are ticks, when you’re a tickler\nPRODUCER (lips on mic): uh, I think we’re good Jim",
            "Joel the Forklift!"
        ))
        .unwrap()
        .as_str()
    )
}

#[test]
fn tweet_from_scenario() {
    assert_eq!("X — a ¶ b", render_tweet(&post("a\nb", "X")).unwrap());
}

#[test]
fn tweet_errors() {
    let object = |members: Vec<(&str, Json)>| {
        Json::Object(members.into_iter().map(|(k, v)| entry(k, v)).collect())
    };
    let text = || Json::Text("t".to_string());
    assert_eq!(Err(TweetError::MissingText), render_tweet(&object(vec![])));
    assert_eq!(Err(TweetError::MissingText), render_tweet(&Json::Null));
    assert_eq!(
        Err(TweetError::TextNotText),
        render_tweet(&object(vec![("full_text", Json::Bool(true))]))
    );
    assert_eq!(
        Err(TweetError::NoUser),
        render_tweet(&object(vec![("full_text", text())]))
    );
    assert_eq!(
        Err(TweetError::UserNotObject),
        render_tweet(&object(vec![("full_text", text()), ("user", text())]))
    );
    assert_eq!(
        Err(TweetError::UserLacksName),
        render_tweet(&object(vec![("full_text", text()), ("user", object(vec![]))]))
    );
    assert_eq!(
        Err(TweetError::NameNotText),
        render_tweet(&object(vec![
            ("full_text", text()),
            ("user", object(vec![("name", Json::Null)]))
        ]))
    );
}
