//! The answers of the providers, as far as they are read here.
//!
//! An answer is a tree of values. The extractors look up a few members of
//! it and take everything else as unknown.

use vstd::prelude::*;
use crate::text::same_text;

verus! {

/// A number of an answer: the way it is written, and its value where it is
/// a whole number that fits.
#[derive(Debug, Clone, PartialEq, Eq)]
pub struct JsonNumber {
    /// The number as the answer writes it.
    pub text: String,
    /// The number, if it is whole, not negative and below 2^64.
    pub unsigned: Option<u64>,
    /// The number, if it is whole and within 64 bits with sign.
    pub signed: Option<i64>,
}

/// One value of an answer.
#[derive(Debug, PartialEq, Eq)]
pub enum Json {
    Null,
    Bool(bool),
    Number(JsonNumber),
    Text(String),
    Array(Vec<Json>),
    /// The members of an object.
    Object(Vec<Member>),
}

/// One member of an object: its name, its value, and the value as the
/// answer writes it. The written form is handed over by whoever decoded
/// the answer.
#[derive(Debug, PartialEq, Eq)]
pub struct Member {
    pub name: String,
    pub value: Json,
    pub written: String,
}

/// The first member of `members` that is named `key`.
pub open spec fn member(members: Seq<Member>, key: Seq<char>) -> Option<Member>
    decreases members.len(),
{
    if members.len() == 0 {
        None
    } else if members[0].name@ == key {
        Some(members[0])
    } else {
        member(members.drop_first(), key)
    }
}

impl Json {
    /// The member named `key`, if this is an object that has one.
    pub open spec fn member_named(self, key: Seq<char>) -> Option<Member> {
        match self {
            Json::Object(members) => member(members@, key),
            _ => None,
        }
    }

    /// The value of the member named `key`, if this is an object that has
    /// one.
    pub open spec fn field(self, key: Seq<char>) -> Option<Json> {
        match self.member_named(key) {
            Some(m) => Some(m.value),
            None => None,
        }
    }

    /// The value of the member named `key` as the answer writes it, if this
    /// is an object that has one.
    pub open spec fn written_field(self, key: Seq<char>) -> Option<Seq<char>> {
        match self.member_named(key) {
            Some(m) => Some(m.written@),
            None => None,
        }
    }

    /// The text, if this is a string.
    pub open spec fn text(self) -> Option<Seq<char>> {
        match self {
            Json::Text(s) => Some(s@),
            _ => None,
        }
    }

    /// The truth value, if this is one.
    pub open spec fn truth(self) -> Option<bool> {
        match self {
            Json::Bool(b) => Some(b),
            _ => None,
        }
    }

    /// The number, if this is a whole number that is not negative.
    pub open spec fn unsigned(self) -> Option<u64> {
        match self {
            Json::Number(n) => n.unsigned,
            _ => None,
        }
    }

    /// The number, if this is a whole number.
    pub open spec fn signed(self) -> Option<i64> {
        match self {
            Json::Number(n) => n.signed,
            _ => None,
        }
    }

    /// The items, if this is an array.
    pub open spec fn items(self) -> Option<Seq<Json>> {
        match self {
            Json::Array(items) => Some(items@),
            _ => None,
        }
    }

    /// The text of the member named `key`, if there is one and it is a
    /// string.
    pub open spec fn text_field(self, key: Seq<char>) -> Option<Seq<char>> {
        match self.field(key) {
            Some(v) => v.text(),
            None => None,
        }
    }

    /// Looks up a member of an object.
    pub fn get_member(&self, key: &str) -> (r: Option<&Member>)
        ensures
            match r {
                Some(m) => self.member_named(key@) == Some(*m),
                None => self.member_named(key@) is None,
            },
    {
        match self {
            Json::Object(members) => {
                let mut i: usize = 0;
                assert(members@.skip(0) =~= members@);
                while i < members.len()
                    invariant
                        i <= members.len(),
                        self.member_named(key@) == member(members@, key@),
                        member(members@.skip(i as int), key@) == member(members@, key@),
                    decreases members.len() - i,
                {
                    proof {
                        assert(members@.skip(i as int)[0] == members@[i as int]);
                        assert(members@.skip(i as int).drop_first() =~= members@.skip(i + 1));
                    }
                    if same_text(members[i].name.as_str(), key) {
                        return Some(&members[i]);
                    }
                    i += 1;
                }
                None
            },
            _ => None,
        }
    }

    /// Looks up the value of a member of an object.
    pub fn get(&self, key: &str) -> (r: Option<&Json>)
        ensures
            match r {
                Some(v) => self.field(key@) == Some(*v),
                None => self.field(key@) is None,
            },
    {
        match self.get_member(key) {
            Some(m) => Some(&m.value),
            None => None,
        }
    }

    /// Looks up the value of a member of an object as the answer writes
    /// it.
    pub fn get_written(&self, key: &str) -> (r: Option<&str>)
        ensures
            match r {
                Some(w) => self.written_field(key@) == Some(w@),
                None => self.written_field(key@) is None,
            },
    {
        match self.get_member(key) {
            Some(m) => Some(m.written.as_str()),
            None => None,
        }
    }

    /// The text of a string.
    pub fn as_str(&self) -> (r: Option<&str>)
        ensures
            match r {
                Some(s) => self.text() == Some(s@),
                None => self.text() is None,
            },
    {
        match self {
            Json::Text(s) => Some(s.as_str()),
            _ => None,
        }
    }

    /// The value of `true` or `false`.
    pub fn as_bool(&self) -> (r: Option<bool>)
        ensures
            r == self.truth(),
    {
        match self {
            Json::Bool(b) => Some(*b),
            _ => None,
        }
    }

    /// The value of a whole number that is not negative.
    pub fn as_u64(&self) -> (r: Option<u64>)
        ensures
            r == self.unsigned(),
    {
        match self {
            Json::Number(n) => n.unsigned,
            _ => None,
        }
    }

    /// The value of a whole number.
    pub fn as_i64(&self) -> (r: Option<i64>)
        ensures
            r == self.signed(),
    {
        match self {
            Json::Number(n) => n.signed,
            _ => None,
        }
    }

    /// The items of an array.
    pub fn as_array(&self) -> (r: Option<&Vec<Json>>)
        ensures
            match r {
                Some(items) => self.items() == Some(items@),
                None => self.items() is None,
            },
    {
        match self {
            Json::Array(items) => Some(items),
            _ => None,
        }
    }

    /// The text of a member that is a string.
    pub fn get_str(&self, key: &str) -> (r: Option<&str>)
        ensures
            match r {
                Some(s) => self.text_field(key@) == Some(s@),
                None => self.text_field(key@) is None,
            },
    {
        match self.get(key) {
            Some(v) => v.as_str(),
            None => None,
        }
    }
}

} // verus!
