//! The calculator command: what is handed to the calculator, and what is
//! said of its answer.

use vstd::prelude::*;
use vstd::string::StringSliceAdditionalSpecFns;
use vstd::utf8::encode_utf8;
use crate::reply::{limit_length, limited};
use crate::sanitize::{cleaned, cleanup_newlines};
use crate::text::{from_chars, range_is, to_chars};

verus! {

/// What a message asks for.
#[derive(Debug, PartialEq, Eq)]
pub enum Route<'m> {
    /// A calculation: what follows the command word, with the space
    /// between the two.
    Calculator(&'m str),
    /// Nothing in particular: the message is searched for links.
    Titles,
}

/// What a message asks for, as contracts speak of it.
pub enum RouteModel {
    Calculator(Seq<char>),
    Titles,
}

impl<'m> View for Route<'m> {
    type V = RouteModel;

    open spec fn view(&self) -> RouteModel {
        match *self {
            Route::Calculator(input) => RouteModel::Calculator(input@),
            Route::Titles => RouteModel::Titles,
        }
    }
}

/// What the message `msg` asks for: a calculation where it begins with
/// `!qalc` and a space.
pub open spec fn routed(msg: Seq<char>) -> RouteModel {
    if msg.len() >= 6 && msg.take(6) == "!qalc "@ {
        RouteModel::Calculator(msg.skip(5))
    } else {
        RouteModel::Titles
    }
}

/// Tells what a message asks for.
pub fn route<'m>(msg: &'m str) -> (r: Route<'m>)
    ensures
        r@ == routed(msg@),
{
    let v = to_chars(msg);
    if v.len() >= 6 && range_is(&v, 0, 6, "!qalc ") {
        assert(v@.subrange(0, 6) =~= msg@.take(6));
        assert(msg@.subrange(5, msg@.len() as int) =~= msg@.skip(5));
        Route::Calculator(msg.substring_char(5, v.len()))
    } else {
        if v.len() >= 6 {
            assert(v@.subrange(0, 6) =~= msg@.take(6));
        }
        Route::Titles
    }
}

/// The sign that separates two lines of a calculation in a message.
pub open spec fn line_break() -> Seq<char> {
    " ;; "@
}

/// Whether the sign that separates two lines stands at `i`.
pub open spec fn break_at(s: Seq<char>, i: int) -> bool {
    0 <= i && i + 4 <= s.len() && s.subrange(i, i + 4) == line_break()
}

/// What becomes of `s` from `i` on when a line feed takes the place of
/// every sign that separates two lines, from left to right.
pub open spec fn lines_from(s: Seq<char>, i: int) -> Seq<char>
    decreases s.len() - i,
{
    if i < 0 || i >= s.len() {
        Seq::empty()
    } else if break_at(s, i) {
        seq!['\n'] + lines_from(s, i + 4)
    } else {
        seq![s[i]] + lines_from(s, i + 1)
    }
}

/// What is handed to the calculator for `input`: its lines, each on a line
/// of its own, and a line feed at the end.
pub open spec fn script_text(input: Seq<char>) -> Seq<char> {
    lines_from(input, 0).push('\n')
}

/// Makes what is handed to the calculator.
pub fn qalc_script(input: &str) -> (script: String)
    ensures
        script@ == script_text(input@),
{
    let v = to_chars(input);
    let mut w: Vec<char> = Vec::new();
    let mut i: usize = 0;
    while i < v.len()
        invariant
            i <= v.len(),
            w@ + lines_from(v@, i as int) == lines_from(v@, 0),
        decreases v.len() - i,
    {
        let ghost before = w@;
        if v.len() - i >= 4 && range_is(&v, i, i + 4, " ;; ") {
            w.push('\n');
            assert(before + (seq!['\n'] + lines_from(v@, i + 4)) =~= before.push('\n')
                + lines_from(v@, i + 4));
            i += 4;
        } else {
            w.push(v[i]);
            assert(before + (seq![v@[i as int]] + lines_from(v@, i + 1)) =~= before.push(
                v@[i as int],
            ) + lines_from(v@, i + 1));
            i += 1;
        }
    }
    assert(w@ + lines_from(v@, v@.len() as int) =~= w@);
    w.push('\n');
    from_chars(&w)
}

/// The answer of the calculator as it is shown: on one line, and capped in
/// length.
pub open spec fn shown_answer(output: Seq<char>) -> Seq<u8> {
    limited(encode_utf8(cleaned(output)))
}

/// Makes what is said to `nick` about a calculation: the answer of the
/// calculator on one line, capped in length, or that it did not work.
pub fn qalc_reply(nick: &str, output: Option<&str>) -> (reply: String)
    ensures
        match output {
            Some(o) => exists|shown: Seq<char>|
                encode_utf8(shown) == shown_answer(o@) && reply@ == nick@ + ": "@ + shown,
            None => reply@ == nick@ + ": It did not work."@,
        },
{
    let mut reply = String::from_str(nick);
    match output {
        Some(o) => {
            let answer = cleanup_newlines(o);
            let shown = limit_length(answer.as_str());
            reply.append(": ");
            reply.append(shown);
            assert(encode_utf8(shown@) == shown_answer(o@));
        },
        None => {
            reply.append(": It did not work.");
        },
    }
    reply
}

} // verus!
