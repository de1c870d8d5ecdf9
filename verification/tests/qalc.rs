use link_titles::qalc::{qalc_reply, qalc_script, route, Route};

#[test]
fn route_tells_the_calculator_apart() {
    assert_eq!(Route::Calculator(" 1 + 1"), route("!qalc 1 + 1"));
    assert_eq!(Route::Calculator(" "), route("!qalc "));
    assert_eq!(Route::Calculator(" é"), route("!qalc é"));
    assert_eq!(Route::Titles, route("!qalc"));
    assert_eq!(Route::Titles, route("!qalcx 1"));
    assert_eq!(Route::Titles, route(" !qalc 1"));
    assert_eq!(Route::Titles, route("see https://example.com"));
    assert_eq!(Route::Titles, route(""));
}

#[test]
fn qalc_script_puts_each_line_on_its_own() {
    assert_eq!(" 1 + 1\n", qalc_script(" 1 + 1"));
    assert_eq!("a\nb\nc\n", qalc_script("a ;; b ;; c"));
    assert_eq!("\n", qalc_script(""));
    assert_eq!("a ;;b\n", qalc_script("a ;;b"));
    assert_eq!("a\n;; b\n", qalc_script("a ;; ;; b"));
    assert_eq!("é\nü\n", qalc_script("é ;; ü"));
}

#[test]
fn qalc_script_agrees_with_replace() {
    for s in ["", " ;; ", " ;;  ;; ", " ;; ;; ;; ", "x ;;", ";; ;; ;;", "  ;;  ;;  "] {
        assert_eq!(format!("{}\n", s.replace(" ;; ", "\n")), qalc_script(s), "{:?}", s);
    }
}

#[test]
fn qalc_reply_shows_the_answer_on_one_line() {
    assert_eq!("nick: 1 + 1 = 2", qalc_reply("nick", Some("\n  1 + 1 = 2\n")));
    assert_eq!("nick: a ¶ b", qalc_reply("nick", Some("a\nb")));
    assert_eq!("nick: It did not work.", qalc_reply("nick", None));
    let long = "x".repeat(500);
    assert_eq!(format!("n: {}", "x".repeat(365)), qalc_reply("n", Some(&long)));
}
