//! Reading one line of the chat protocol.
//!
//! A line is an optional leader, which begins with a colon and tells who
//! sent the line, then a command word, then what the command is about.

use vstd::prelude::*;
use crate::numbers::{decimal_value, parse_u64};
use crate::text::{
    ascii_bytes, decimal, find_char, is_decimal, lemma_position_from_is, position_from, range_is, to_chars,
    trim_range, trimmed,
};

verus! {

/// One line, taken apart. Its parts are slices of the line.
#[derive(Clone, Debug, PartialEq, Eq)]
pub struct Message<'m> {
    pub whom: Ident<'m>,
    pub command: Command<'m>,
}

/// Who sent a line: the leader without its colon.
#[derive(Clone, Debug, PartialEq, Eq)]
pub struct Ident<'m> {
    inner: &'m str,
}

/// A command that is addressed to somebody.
#[derive(Clone, Debug, PartialEq, Eq)]
pub struct Targeted<'m> {
    pub dest: &'m str,
    pub msg: &'m str,
}

/// What a line asks for.
#[derive(Clone, Debug, PartialEq, Eq)]
pub enum Command<'m> {
    Numeric(u16, &'m str),
    Ping(&'m str),
    Notice(Targeted<'m>),
    PrivMsg(Targeted<'m>),
    Join(&'m str),
    Unknown(&'m str, &'m str),
}

/// Why a line could not be read.
#[derive(Clone, Copy, Debug, PartialEq, Eq, Structural)]
pub enum ParseError {
    /// The line begins with a colon and holds no space.
    MalformedLeader,
    /// A message or notice names nobody: what follows the command holds no
    /// space.
    InvalidTargeted,
    /// The command is made of digits and is no number below 65536; the empty
    /// command is among these.
    InvalidNumber,
}

/// An addressed command, as contracts speak of it.
pub struct TargetedModel {
    pub dest: Seq<char>,
    pub msg: Seq<char>,
}

/// A command, as contracts speak of it.
pub enum CommandModel {
    Numeric(u16, Seq<char>),
    Ping(Seq<char>),
    Notice(TargetedModel),
    PrivMsg(TargetedModel),
    Join(Seq<char>),
    Unknown(Seq<char>, Seq<char>),
}

/// A line taken apart, as contracts speak of it.
pub struct MessageModel {
    pub whom: Seq<char>,
    pub command: CommandModel,
}

impl<'m> View for Ident<'m> {
    type V = Seq<char>;

    closed spec fn view(&self) -> Seq<char> {
        self.inner@
    }
}

impl<'m> View for Targeted<'m> {
    type V = TargetedModel;

    open spec fn view(&self) -> TargetedModel {
        TargetedModel { dest: self.dest@, msg: self.msg@ }
    }
}

impl<'m> View for Command<'m> {
    type V = CommandModel;

    open spec fn view(&self) -> CommandModel {
        match *self {
            Command::Numeric(n, rest) => CommandModel::Numeric(n, rest@),
            Command::Ping(rest) => CommandModel::Ping(rest@),
            Command::Notice(t) => CommandModel::Notice(t@),
            Command::PrivMsg(t) => CommandModel::PrivMsg(t@),
            Command::Join(rest) => CommandModel::Join(rest@),
            Command::Unknown(word, rest) => CommandModel::Unknown(word@, rest@),
        }
    }
}

impl<'m> View for Message<'m> {
    type V = MessageModel;

    open spec fn view(&self) -> MessageModel {
        MessageModel { whom: self.whom@, command: self.command@ }
    }
}

/// Where the first space of `s` stands; the length of `s` if it has none.
pub open spec fn first_space(s: Seq<char>) -> int {
    position_from(s, ' ', 0)
}

/// What a message or notice is about: whom it is for, up to the first
/// space, and the message, which is the rest without the white space around
/// it and without one leading colon.
pub open spec fn targeted(from: Seq<char>) -> Result<TargetedModel, ParseError> {
    let p = first_space(from);
    if p >= from.len() {
        Err(ParseError::InvalidTargeted)
    } else {
        let msg = trimmed(from.skip(p));
        Ok(
            TargetedModel {
                dest: from.take(p),
                msg: if msg.len() > 0 && msg[0] == ':' {
                    msg.skip(1)
                } else {
                    msg
                },
            },
        )
    }
}

/// Whether every character of `s` is an ASCII digit.
pub open spec fn all_decimal(s: Seq<char>) -> bool {
    forall|i: int| 0 <= i < s.len() ==> is_decimal(#[trigger] s[i])
}

/// The number that a command made of digits stands for.
pub open spec fn numeric_code(word: Seq<char>) -> Option<u16> {
    if word.len() > 0 && decimal_value(ascii_bytes(word)) <= u16::MAX {
        Some(decimal_value(ascii_bytes(word)) as u16)
    } else {
        None
    }
}

/// The command that the word `word` asks for, with `rest` after it.
pub open spec fn command(word: Seq<char>, rest: Seq<char>) -> Result<CommandModel, ParseError> {
    if word == "PING"@ {
        Ok(CommandModel::Ping(rest))
    } else if word == "PRIVMSG"@ {
        match targeted(rest) {
            Ok(t) => Ok(CommandModel::PrivMsg(t)),
            Err(e) => Err(e),
        }
    } else if word == "NOTICE"@ {
        match targeted(rest) {
            Ok(t) => Ok(CommandModel::Notice(t)),
            Err(e) => Err(e),
        }
    } else if all_decimal(word) {
        match numeric_code(word) {
            Some(n) => Ok(CommandModel::Numeric(n, rest)),
            None => Err(ParseError::InvalidNumber),
        }
    } else {
        Ok(CommandModel::Unknown(word, rest))
    }
}

/// A line without its leader, taken apart: the command word runs up to the
/// first space, and white space around the parts is left out.
pub open spec fn parsed_body(whom: Seq<char>, rest: Seq<char>) -> Result<
    MessageModel,
    ParseError,
> {
    let rest = trimmed(rest);
    let q = first_space(rest);
    match command(rest.take(q), trimmed(rest.skip(q))) {
        Ok(c) => Ok(MessageModel { whom, command: c }),
        Err(e) => Err(e),
    }
}

/// A line taken apart. The leader of a line that begins with a colon runs
/// from behind the colon up to and including the first space.
pub open spec fn parsed(line: Seq<char>) -> Result<MessageModel, ParseError> {
    if line.len() > 0 && line[0] == ':' {
        let p = first_space(line);
        if p >= line.len() {
            Err(ParseError::MalformedLeader)
        } else {
            parsed_body(line.subrange(1, p + 1), line.skip(p + 1))
        }
    } else {
        parsed_body(Seq::empty(), line)
    }
}

/// Whether `r` is the result that the model `m` asks for.
pub open spec fn matches_parsed<'m>(r: Result<Message<'m>, ParseError>, m: Result<
    MessageModel,
    ParseError,
>) -> bool {
    match r {
        Ok(message) => m == Ok::<MessageModel, ParseError>(message@),
        Err(e) => m == Err::<MessageModel, ParseError>(e),
    }
}

/// The number that the digits `v[from..to]` write, if it is below 65536.
fn read_code(v: &Vec<char>, from: usize, to: usize) -> (r: Option<u16>)
    requires
        from <= to <= v.len(),
        all_decimal(v@.subrange(from as int, to as int)),
    ensures
        r == numeric_code(v@.subrange(from as int, to as int)),
{
    let ghost word = v@.subrange(from as int, to as int);
    let mut bytes: Vec<u8> = Vec::new();
    let mut i: usize = from;
    while i < to
        invariant
            from <= i <= to <= v.len(),
            word == v@.subrange(from as int, to as int),
            all_decimal(word),
            bytes@ == ascii_bytes(word.take(i - from)),
        decreases to - i,
    {
        let c = v[i];
        assert(c == word[i - from]);
        assert(is_decimal(c));
        bytes.push(c as u8);
        assert(bytes@ =~= ascii_bytes(word.take(i + 1 - from)));
        i += 1;
    }
    proof {
        assert(word.take(to - from) =~= word);
        assert forall|j: int| 0 <= j < bytes@.len() implies crate::numbers::is_digit(
            #[trigger] bytes@[j],
        ) by {
            assert(is_decimal(word[j]));
            assert(bytes@[j] == word[j] as u8);
        }
        if word.len() > 0 {
            assert(bytes@[0] != 0x2b) by {
                assert(is_decimal(word[0]));
            }
        }
    }
    match parse_u64(bytes.as_slice()) {
        Some(n) => if n <= 0xffff {
            Some(n as u16)
        } else {
            None
        },
        None => None,
    }
}

impl<'a> Targeted<'a> {
    /// Reads whom a message is for and what it says.
    pub fn new(from: &'a str) -> (r: Result<Targeted<'a>, ParseError>)
        ensures
            match r {
                Ok(t) => targeted(from@) == Ok::<TargetedModel, ParseError>(t@),
                Err(e) => targeted(from@) == Err::<TargetedModel, ParseError>(e),
            },
    {
        let v = to_chars(from);
        let n = v.len();
        let p = find_char(&v, ' ', 0, n);
        proof {
            lemma_position_from_is(from@, ' ', 0, p as int);
        }
        if p >= n {
            return Err(ParseError::InvalidTargeted);
        }
        let (a, b) = trim_range(&v, p, n);
        assert(v@.subrange(p as int, n as int) =~= from@.skip(p as int));
        let ghost msg = v@.subrange(a as int, b as int);
        let start = if a < b && v[a] == ':' {
            assert(msg[0] == v@[a as int]);
            assert(msg.skip(1) =~= v@.subrange(a + 1, b as int));
            a + 1
        } else {
            if a < b {
                assert(msg[0] == v@[a as int]);
            }
            a
        };
        assert(from@.take(p as int) =~= from@.subrange(0, p as int));
        Ok(Targeted { dest: from.substring_char(0, p), msg: from.substring_char(start, b) })
    }
}

impl<'a> Ident<'a> {
    /// The sender as the line spelt it.
    pub fn as_str(&self) -> (s: &'a str)
        ensures
            s@ == self@,
    {
        self.inner
    }

    /// The nickname of the sender: what stands before the first `!`.
    pub fn nick(&self) -> (nick: &str)
        ensures
            nick@ == self@.take(position_from(self@, '!', 0)),
    {
        let v = to_chars(self.inner);
        let p = find_char(&v, '!', 0, v.len());
        proof {
            lemma_position_from_is(self@, '!', 0, p as int);
            assert(self@.take(p as int) =~= self@.subrange(0, p as int));
        }
        self.inner.substring_char(0, p)
    }
}

/// Takes one line apart.
pub fn parse<'m>(line: &'m str) -> (r: Result<Message<'m>, ParseError>)
    ensures
        matches_parsed(r, parsed(line@)),
{
    let v = to_chars(line);
    let n = v.len();
    let (ident_from, ident_to, body_from) = if n > 0 && v[0] == ':' {
        let p = find_char(&v, ' ', 0, n);
        proof {
            lemma_position_from_is(line@, ' ', 0, p as int);
        }
        if p >= n {
            return Err(ParseError::MalformedLeader);
        }
        (1, p + 1, p + 1)
    } else {
        (0, 0, 0)
    };
    let ghost whom = line@.subrange(ident_from as int, ident_to as int);
    let ghost body = line@.skip(body_from as int);
    assert(parsed(line@) == parsed_body(whom, body)) by {
        if !(n > 0 && v@[0] == ':') {
            assert(whom =~= Seq::<char>::empty());
            assert(body =~= line@);
        }
    }
    assert(v@.subrange(body_from as int, n as int) =~= body);
    let (a, b) = trim_range(&v, body_from, n);
    let ghost rest = trimmed(body);
    let q = find_char(&v, ' ', a, b);
    proof {
        assert forall|i: int| 0 <= i < q - a implies #[trigger] rest[i] != ' ' by {
            assert(rest[i] == v@[a + i]);
        }
        if q - a < rest.len() {
            assert(rest[q - a] == v@[q as int]);
        }
        lemma_position_from_is(rest, ' ', 0, q - a);
        assert(rest.take(q - a) =~= v@.subrange(a as int, q as int));
        assert(rest.skip(q - a) =~= v@.subrange(q as int, b as int));
    }
    let (c, d) = trim_range(&v, q, b);
    let ghost word = v@.subrange(a as int, q as int);
    let ghost tail = v@.subrange(c as int, d as int);
    assert(parsed_body(whom, body) == match command(word, tail) {
        Ok(c) => Ok::<MessageModel, ParseError>(MessageModel { whom, command: c }),
        Err(e) => Err::<MessageModel, ParseError>(e),
    });
    let rest_str = line.substring_char(c, d);
    let command = if range_is(&v, a, q, "PING") {
        Command::Ping(rest_str)
    } else if range_is(&v, a, q, "PRIVMSG") {
        match Targeted::new(rest_str) {
            Ok(t) => Command::PrivMsg(t),
            Err(e) => {
                return Err(e);
            },
        }
    } else if range_is(&v, a, q, "NOTICE") {
        match Targeted::new(rest_str) {
            Ok(t) => Command::Notice(t),
            Err(e) => {
                return Err(e);
            },
        }
    } else if all_digits_in(&v, a, q) {
        match read_code(&v, a, q) {
            Some(code) => Command::Numeric(code, rest_str),
            None => {
                return Err(ParseError::InvalidNumber);
            },
        }
    } else {
        Command::Unknown(line.substring_char(a, q), rest_str)
    };
    Ok(Message { whom: Ident { inner: line.substring_char(ident_from, ident_to) }, command })
}

/// Whether the text `v[from..to]` is made of digits.
fn all_digits_in(v: &Vec<char>, from: usize, to: usize) -> (b: bool)
    requires
        from <= to <= v.len(),
    ensures
        b == all_decimal(v@.subrange(from as int, to as int)),
{
    let ghost s = v@.subrange(from as int, to as int);
    let mut i: usize = from;
    while i < to
        invariant
            from <= i <= to <= v.len(),
            s == v@.subrange(from as int, to as int),
            forall|j: int| 0 <= j < i - from ==> is_decimal(#[trigger] s[j]),
        decreases to - i,
    {
        if !decimal(v[i]) {
            assert(!is_decimal(s[i - from]));
            return false;
        }
        i += 1;
    }
    true
}

} // verus!
