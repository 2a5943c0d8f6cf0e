//! A manifest document as a tree of values, as it comes out of the parser
//! and before anything is read from it.

use vstd::prelude::*;
use vstd::string::*;
use crate::text::{first_index, lemma_first_index, lemma_first_index_is};

verus! {

/// One value of a manifest document.
#[derive(Debug)]
pub enum Value {
    String(String),
    Integer(i64),
    /// A floating-point number, kept as the text that denotes it.
    Float(String),
    Boolean(bool),
    /// A date or time, kept as the text that denotes it.
    Datetime(String),
    Array(Vec<Value>),
    /// A table: its entries in the order in which the parser hands them out.
    Table(Vec<ValueEntry>),
}

/// One entry of a table.
#[derive(Debug)]
pub struct ValueEntry {
    pub key: String,
    pub value: Value,
}

/// The keys of a table's entries, in order.
pub open spec fn keys(entries: Seq<ValueEntry>) -> Seq<Seq<char>> {
    Seq::new(entries.len(), |i: int| entries[i].key@)
}

/// The value of the first entry with the key `key`.
pub open spec fn lookup(entries: Seq<ValueEntry>, key: Seq<char>) -> Option<Value> {
    let i = first_index(keys(entries), key);
    if 0 <= i < entries.len() {
        Some(entries[i].value)
    } else {
        None
    }
}

/// Position of the first entry with the key `key`.
pub fn find_entry(entries: &Vec<ValueEntry>, key: &str) -> (r: Option<usize>)
    ensures
        match r {
            Some(i) => i < entries.len() && first_index(keys(entries@), key@) == i,
            None => first_index(keys(entries@), key@) == entries.len(),
        },
{
    let wanted = String::from_str(key);
    let mut i: usize = 0;
    while i < entries.len()
        invariant
            i <= entries.len(),
            wanted@ == key@,
            forall|j: int| 0 <= j < i ==> keys(entries@)[j] != key@,
        decreases entries.len() - i,
    {
        if entries[i].key == wanted {
            proof {
                lemma_first_index_is(keys(entries@), key@, i as int);
            }
            return Some(i);
        }
        i = i + 1;
    }
    proof {
        lemma_first_index_is(keys(entries@), key@, i as int);
    }
    None
}

/// The value under `key` among the entries of a table.
pub fn entry_value<'a>(entries: &'a Vec<ValueEntry>, key: &str) -> (r: Option<&'a Value>)
    ensures
        match r {
            Some(v) => lookup(entries@, key@) == Some(*v),
            None => lookup(entries@, key@) is None,
        },
{
    proof {
        lemma_first_index(keys(entries@), key@);
    }
    match find_entry(entries, key) {
        Some(i) => Some(&entries[i].value),
        None => None,
    }
}

impl Value {
    /// The value under `key`, where this value is a table that has it.
    pub open spec fn field(self, key: Seq<char>) -> Option<Value> {
        match self {
            Value::Table(entries) => lookup(entries@, key),
            _ => None,
        }
    }

    /// The value under `key`, where this value is a table that has it.
    pub fn get(&self, key: &str) -> (r: Option<&Value>)
        ensures
            match r {
                Some(v) => self.field(key@) == Some(*v),
                None => self.field(key@) is None,
            },
    {
        match self {
            Value::Table(entries) => entry_value(entries, key),
            _ => None,
        }
    }

    /// The text of this value, where it is a string.
    pub fn as_str(&self) -> (r: Option<&String>)
        ensures
            match r {
                Some(s) => *self == Value::String(*s),
                None => !(*self is String),
            },
    {
        match self {
            Value::String(s) => Some(s),
            _ => None,
        }
    }

    /// This value, where it is a truth value.
    pub fn as_bool(&self) -> (r: Option<bool>)
        ensures
            match r {
                Some(b) => *self == Value::Boolean(b),
                None => !(*self is Boolean),
            },
    {
        match self {
            Value::Boolean(b) => Some(*b),
            _ => None,
        }
    }

    /// The entries of this value, where it is a table.
    pub fn as_table(&self) -> (r: Option<&Vec<ValueEntry>>)
        ensures
            match r {
                Some(t) => *self == Value::Table(*t),
                None => !(*self is Table),
            },
    {
        match self {
            Value::Table(t) => Some(t),
            _ => None,
        }
    }

    /// The items of this value, where it is an array.
    pub fn as_array(&self) -> (r: Option<&Vec<Value>>)
        ensures
            match r {
                Some(a) => *self == Value::Array(*a),
                None => !(*self is Array),
            },
    {
        match self {
            Value::Array(a) => Some(a),
            _ => None,
        }
    }
}

} // verus!
