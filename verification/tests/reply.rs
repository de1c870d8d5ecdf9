use link_titles::reply::limit_length;

fn reference_limit(val: &str) -> &str {
    for end in 365..400 {
        if val.is_char_boundary(end) {
            return &val[..end];
        }
    }
    val
}

#[test]
fn limit_length_keeps_short_lines() {
    assert_eq!("", limit_length(""));
    let s = "x".repeat(364);
    assert_eq!(s, limit_length(&s));
}

#[test]
fn limit_length_cuts_long_lines() {
    let s = "x".repeat(365);
    assert_eq!(s, limit_length(&s));
    let s = "x".repeat(1000);
    assert_eq!(365, limit_length(&s).len());
}

#[test]
fn limit_length_never_splits_a_character() {
    for lead in 0..8 {
        for c in ["é", "፤", "😀", "a"] {
            let s = format!("{}{}", "a".repeat(lead), c.repeat(400));
            let cut = limit_length(&s);
            assert!(s.starts_with(cut));
            assert!(cut.len() >= 365 && cut.len() < 400, "{}", cut.len());
            assert!(std::str::from_utf8(cut.as_bytes()).is_ok());
            assert_eq!(reference_limit(&s), cut);
        }
    }
}
