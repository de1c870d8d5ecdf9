//! The lines of the chat protocol on the wire: how a line is sent, and how
//! the bytes that arrive are cut into lines.

use vstd::prelude::*;
use vstd::slice::slice_subrange;
use crate::html::{byte_position, find_byte, lossy_text, utf8_lossy};
use crate::text::{find_char, from_chars, position_from, to_chars, trim_range, trimmed};

verus! {

/// A line that cannot be sent: it holds a line feed.
#[derive(Clone, Copy, Debug, PartialEq, Eq, Structural)]
pub struct BadMessage;

/// Whether a line feed stands in `s`.
pub open spec fn has_line_feed(s: Seq<char>) -> bool {
    position_from(s, '\n', 0) < s.len()
}

/// Makes what is written for one line: the line, and the carriage return
/// and line feed that end it. A line that holds a line feed is refused.
pub fn frame_line(line: &str) -> (r: Result<String, BadMessage>)
    ensures
        match r {
            Ok(framed) => !has_line_feed(line@) && framed@ == line@ + "\r\n"@,
            Err(_) => has_line_feed(line@),
        },
{
    let v = to_chars(line);
    let p = find_char(&v, '\n', 0, v.len());
    proof {
        crate::text::lemma_position_from_is(line@, '\n', 0, p as int);
    }
    if p < v.len() {
        return Err(BadMessage);
    }
    let mut framed = String::from_str(line);
    framed.append("\r\n");
    Ok(framed)
}

/// The first line in the bytes that have arrived, if a whole line has
/// arrived: the bytes before the first line feed, as text without the white
/// space around it.
pub open spec fn first_line(buf: Seq<u8>) -> Option<Seq<char>> {
    let p = byte_position(buf, 0x0a, 0);
    if p < buf.len() {
        Some(trimmed(utf8_lossy(buf.take(p))))
    } else {
        None
    }
}

/// The bytes that stay once the first line is taken out.
pub open spec fn after_first_line(buf: Seq<u8>) -> Seq<u8> {
    let p = byte_position(buf, 0x0a, 0);
    if p < buf.len() {
        buf.skip(p + 1)
    } else {
        buf
    }
}

/// Takes the first whole line out of the bytes that have arrived. Where
/// none has arrived yet the bytes stay as they are.
pub fn take_line(buf: &mut Vec<u8>) -> (line: Option<String>)
    ensures
        match line {
            Some(l) => first_line(old(buf)@) == Some(l@),
            None => first_line(old(buf)@) is None,
        },
        final(buf)@ == after_first_line(old(buf)@),
{
    let n = buf.len();
    let p = find_byte(buf.as_slice(), 0x0a, 0);
    if p >= n {
        return None;
    }
    let text = lossy_text(slice_subrange(buf.as_slice(), 0, p));
    assert(buf@.subrange(0, p as int) =~= buf@.take(p as int));
    let v = to_chars(text.as_str());
    let (a, b) = trim_range(&v, 0, v.len());
    assert(v@.subrange(0, v@.len() as int) =~= v@);
    let mut t: Vec<char> = Vec::new();
    let mut j: usize = a;
    while j < b
        invariant
            a <= j <= b <= v.len(),
            t@ == v@.subrange(a as int, j as int),
        decreases b - j,
    {
        t.push(v[j]);
        assert(t@ =~= v@.subrange(a as int, j + 1));
        j += 1;
    }
    let line = from_chars(&t);
    let mut rest: Vec<u8> = Vec::new();
    let mut k: usize = p + 1;
    while k < n
        invariant
            p + 1 <= k <= n,
            n == buf.len(),
            buf@ == old(buf)@,
            rest@ == buf@.subrange(p + 1, k as int),
        decreases n - k,
    {
        rest.push(buf[k]);
        assert(rest@ =~= buf@.subrange(p + 1, k + 1));
        k += 1;
    }
    assert(buf@.subrange(p + 1, n as int) =~= buf@.skip(p + 1));
    *buf = rest;
    Some(line)
}

/// One end of a connection to a chat server: the bytes that have arrived
/// and have not been read as lines yet. The connection itself is kept by
/// whoever reads and writes it.
pub struct Comm {
    pub buf: Vec<u8>,
}

impl Comm {
    /// An end at which nothing has arrived yet.
    pub fn new() -> (comm: Comm)
        ensures
            comm.buf@.len() == 0,
    {
        Comm { buf: Vec::new() }
    }

    /// Takes in bytes that have arrived, behind those that are held.
    pub fn receive(&mut self, bytes: &[u8])
        ensures
            final(self).buf@ == old(self).buf@ + bytes@,
    {
        let mut i: usize = 0;
        assert(self.buf@ =~= old(self).buf@ + bytes@.take(0));
        while i < bytes.len()
            invariant
                i <= bytes.len(),
                self.buf@ == old(self).buf@ + bytes@.take(i as int),
            decreases bytes.len() - i,
        {
            self.buf.push(bytes[i]);
            assert(self.buf@ =~= old(self).buf@ + bytes@.take(i + 1));
            i += 1;
        }
        assert(bytes@.take(bytes@.len() as int) =~= bytes@);
    }

    /// Makes what is written to send one line.
    pub fn write_line(&self, line: &str) -> (r: Result<String, BadMessage>)
        ensures
            match r {
                Ok(framed) => !has_line_feed(line@) && framed@ == line@ + "\r\n"@,
                Err(_) => has_line_feed(line@),
            },
    {
        frame_line(line)
    }

    /// Takes the first whole line out of the bytes that are held; `None`
    /// where no whole line has arrived yet.
    pub fn read_line(&mut self) -> (line: Option<String>)
        ensures
            match line {
                Some(l) => first_line(old(self).buf@) == Some(l@),
                None => first_line(old(self).buf@) is None,
            },
            final(self).buf@ == after_first_line(old(self).buf@),
    {
        take_line(&mut self.buf)
    }
}

} // verus!
