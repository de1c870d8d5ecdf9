use link_titles::parse::{parse, Command, ParseError, Targeted};

#[test]
fn parse_privmsg_with_leader() {
    let m = parse(":nick!user@host PRIVMSG #chan :hello  world").unwrap();
    assert_eq!("nick!user@host ", m.whom.as_str());
    assert_eq!("nick", m.whom.nick());
    assert_eq!(
        Command::PrivMsg(Targeted {
            dest: "#chan",
            msg: "hello  world"
        }),
        m.command
    );
}

#[test]
fn parse_ping_without_leader() {
    let m = parse("PING :irc.example.org\r\n").unwrap();
    assert_eq!("", m.whom.as_str());
    assert_eq!("", m.whom.nick());
    assert_eq!(Command::Ping(":irc.example.org"), m.command);
}

#[test]
fn parse_notice_and_numeric() {
    let m = parse(":server NOTICE * no-colon here").unwrap();
    assert_eq!(
        Command::Notice(Targeted {
            dest: "*",
            msg: "no-colon here"
        }),
        m.command
    );
    let m = parse(":server 001 bot :Welcome").unwrap();
    assert_eq!(Command::Numeric(1, "bot :Welcome"), m.command);
    assert_eq!("server ", m.whom.nick());
    let m = parse("65535").unwrap();
    assert_eq!(Command::Numeric(65535, ""), m.command);
}

#[test]
fn parse_unknown_command() {
    let m = parse(":a JOIN #chan").unwrap();
    assert_eq!(Command::Unknown("JOIN", "#chan"), m.command);
    let m = parse("  MODE   +i  ").unwrap();
    assert_eq!(Command::Unknown("MODE", "+i"), m.command);
    let m = parse("12a rest").unwrap();
    assert_eq!(Command::Unknown("12a", "rest"), m.command);
}

#[test]
fn parse_errors() {
    assert_eq!(Err(ParseError::MalformedLeader), parse(":nospace"));
    assert_eq!(Err(ParseError::InvalidTargeted), parse("PRIVMSG #chan"));
    assert_eq!(Err(ParseError::InvalidTargeted), parse(":a NOTICE"));
    assert_eq!(Err(ParseError::InvalidNumber), parse("65536 x"));
    assert_eq!(Err(ParseError::InvalidNumber), parse(""));
    assert_eq!(Err(ParseError::InvalidNumber), parse(":leader "));
    assert_eq!(
        Err(ParseError::InvalidNumber),
        parse("99999999999999999999999999 x")
    );
}

#[test]
fn targeted_new_splits_at_the_first_space() {
    assert_eq!(
        Ok(Targeted {
            dest: "#a",
            msg: "b :c"
        }),
        Targeted::new("#a   :b :c  ")
    );
    assert_eq!(Ok(Targeted { dest: "", msg: "x" }), Targeted::new(" x"));
    assert_eq!(Err(ParseError::InvalidTargeted), Targeted::new("nobody"));
}

#[test]
fn parse_keeps_non_ascii_text() {
    let m = parse(":né!x PRIVMSG #ché :héllo ¶ wörld\u{2003}").unwrap();
    assert_eq!("né", m.whom.nick());
    assert_eq!(
        Command::PrivMsg(Targeted {
            dest: "#ché",
            msg: "héllo ¶ wörld"
        }),
        m.command
    );
}
