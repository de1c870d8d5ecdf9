use link_titles::html::{
    find_title, page_outcome, parse_html, process, resolve_title, NoTitleReason, TitleError,
    TitleResult,
    PREVIEW_BYTES,
};

#[test]
fn html() {
    assert_eq!(
        "ponies",
        parse_html(b"<html><head><title>ponies</title></head><body></body></html>")
            .unwrap()
            .as_str()
    );

    assert_eq!(
        "ponies",
        parse_html(b"<html><head><TITle>ponies</TITLE></head><body></body></html>")
            .unwrap()
            .as_str()
    );

    assert_eq!(
        "'",
        parse_html(b"<html><head><title>&#x27;</title></head><body></body></html>")
            .unwrap()
            .as_str()
    );
}

#[test]
fn parse_html_short_pages() {
    assert_eq!("ponies", parse_html(b"<title>ponies</title>").unwrap());
    assert_eq!("'", parse_html(b"<title>&#x27;</title>").unwrap());
    assert_eq!("", parse_html(b"<title></title>").unwrap());
    assert_eq!(
        "a & b",
        parse_html(b"<title lang=\"en\">a &amp; b</title>").unwrap()
    );
}

#[test]
fn parse_html_keeps_text_that_cannot_be_decoded() {
    assert_eq!("a &nosuch; b", parse_html(b"<title>a &nosuch; b<").unwrap());
    assert_eq!("fish & chips", parse_html(b"<title>fish & chips<").unwrap());
    assert_eq!("caf\u{fffd}", parse_html(b"<title>caf\xe9</title>").unwrap());
    assert_eq!("café", parse_html("<title>café</title>".as_bytes()).unwrap());
}

#[test]
fn parse_html_names_what_is_missing() {
    assert_eq!(Err(TitleError::NoTitleTag), parse_html(b""));
    assert_eq!(Err(TitleError::NoTitleTag), parse_html(b"<html><body>x</body></html>"));
    assert_eq!(Err(TitleError::NoTitleTag), parse_html(b"<titl"));
    assert_eq!(Err(TitleError::NoTitleTag), parse_html(b"< title>x</title>"));
    assert_eq!(Err(TitleError::Unterminated), parse_html(b"<title"));
    assert_eq!(Err(TitleError::Unterminated), parse_html(b"<head><title lang=en"));
    assert_eq!(Err(TitleError::AtWindowEnd), parse_html(b"<title>"));
    assert_eq!(Err(TitleError::Unclosed), parse_html(b"<title>ponies"));
}

#[test]
fn find_title_gives_the_span() {
    assert_eq!(Ok((7, 13)), find_title(b"<title>ponies</title>"));
    assert_eq!(Ok((11, 11)), find_title(b"xx<TiTlE a>< <title>b<"));
    assert_eq!(Ok((8, 9)), find_title(b"<titles>x<"));
}

#[test]
fn resolve_title_prefers_the_decoded_text() {
    assert_eq!("b", resolve_title("a".to_string(), Some("b".to_string())));
    assert_eq!("a", resolve_title("a".to_string(), None));
}

#[test]
fn process_reports_the_title() {
    let r = process(b"<title> ponies </title>", Some(5), Some("text/html"));
    assert_eq!(TitleResult::Title(" ponies ".to_string()), r);
    assert_eq!(" ponies ", r.text());
}

#[test]
fn process_reports_what_is_known_without_a_title() {
    let r = process(b"\x89PNG", None, Some("image/png"));
    assert_eq!(
        TitleResult::NoTitle {
            reason: NoTitleReason::Missing,
            observed_size: Some(4),
            content_type: Some("image/png".to_string())
        },
        r
    );
    assert_eq!("No title found. Content-type: image/png. Size: 4 bytes.", r.text());

    let r = process(b"<title> \n </title>", Some(99), None);
    assert_eq!(
        TitleResult::NoTitle {
            reason: NoTitleReason::Empty,
            observed_size: Some(18),
            content_type: None
        },
        r
    );
    assert_eq!("Empty title found. Size: 18 bytes.", r.text());
}

#[test]
fn process_takes_the_declared_length_of_a_long_page() {
    let body = vec![b'x'; PREVIEW_BYTES];
    let r = process(&body, Some(3 * 1024 * 1024), None);
    assert_eq!("No title found. Size: 3.0MiB.", r.text());
    let r = process(&body, None, None);
    assert_eq!("No title found.", r.text());
    let r = process(&body[1..], Some(7), None);
    assert_eq!("No title found. Size: 256.0KiB.", r.text());
    assert_eq!("", TitleResult::Suppressed.text());
}

#[test]
fn page_outcome_reads_answers_of_success_only() {
    let body = b"<title>Not Found</title>";
    assert_eq!(
        TitleResult::Title("Not Found".to_string()),
        page_outcome(200, body, None, None)
    );
    assert_eq!(
        TitleResult::Title("Not Found".to_string()),
        page_outcome(299, body, None, None)
    );
    for status in [404, 500, 301, 199, 300, 0] {
        let r = page_outcome(status, body, Some(7), Some("text/html"));
        assert_eq!(
            TitleResult::NoTitle {
                reason: NoTitleReason::Missing,
                observed_size: Some(24),
                content_type: Some("text/html".to_string())
            },
            r
        );
        assert_eq!("No title found. Content-type: text/html. Size: 24 bytes.", r.text());
    }
    let long = vec![b'x'; PREVIEW_BYTES];
    assert_eq!(
        "No title found. Size: 7 bytes.",
        page_outcome(404, &long, Some(7), None).text()
    );
}
