//! An abstract TOML value tree.  The system depends only on this tree shape;
//! reading and writing TOML text is left to the surrounding program.
use vstd::prelude::*;

use crate::text;

verus! {

/// One TOML value.
#[derive(Debug)]
pub enum TomlValue {
    Text(String),
    Integer(i64),
    Boolean(bool),
    List(Vec<TomlValue>),
    Table(Vec<(String, TomlValue)>),
}

/// The value stored under `key` in a table's entry list: the first binding
/// wins.
pub open spec fn table_lookup_spec(entries: Seq<(String, TomlValue)>, key: Seq<char>) -> Option<
    TomlValue,
>
    decreases entries.len(),
{
    if entries.len() == 0 {
        Option::None
    } else if entries[0].0@ == key {
        Option::Some(entries[0].1)
    } else {
        table_lookup_spec(entries.skip(1), key)
    }
}

/// The lookup of `key` when the value is a table, `None` otherwise.
pub open spec fn value_lookup_spec(v: TomlValue, key: Seq<char>) -> Option<TomlValue> {
    match v {
        TomlValue::Table(entries) => table_lookup_spec(entries@, key),
        _ => Option::None,
    }
}

impl TomlValue {
    /// The string under this value, if it is text.
    pub fn as_text(&self) -> (r: Option<&String>)
        ensures
            match r {
                Some(s) => self matches TomlValue::Text(t) && t == s,
                None => !(self matches TomlValue::Text(_)),
            },
    {
        match self {
            TomlValue::Text(s) => Some(s),
            _ => None,
        }
    }

    /// The entry list under this value, if it is a table.
    pub fn as_table(&self) -> (r: Option<&Vec<(String, TomlValue)>>)
        ensures
            match r {
                Some(t) => self matches TomlValue::Table(e) && e == t,
                None => !(self matches TomlValue::Table(_)),
            },
    {
        match self {
            TomlValue::Table(e) => Some(e),
            _ => None,
        }
    }

    /// The item list under this value, if it is a list.
    pub fn as_list(&self) -> (r: Option<&Vec<TomlValue>>)
        ensures
            match r {
                Some(l) => self matches TomlValue::List(v) && v == l,
                None => !(self matches TomlValue::List(_)),
            },
    {
        match self {
            TomlValue::List(v) => Some(v),
            _ => None,
        }
    }

    /// The integer under this value, if it is one.
    pub fn as_integer(&self) -> (r: Option<i64>)
        ensures
            match r {
                Some(i) => self matches TomlValue::Integer(j) && j == i,
                None => !(self matches TomlValue::Integer(_)),
            },
    {
        match self {
            TomlValue::Integer(i) => Some(*i),
            _ => None,
        }
    }
}

/// Look a key up in a table entry list.
#[verifier::loop_isolation(false)]
pub fn table_lookup<'a>(entries: &'a Vec<(String, TomlValue)>, key: &str) -> (r: Option<
    &'a TomlValue,
>)
    ensures
        match r {
            Some(v) => table_lookup_spec(entries@, key@) == Option::Some(*v),
            None => table_lookup_spec(entries@, key@) is None,
        },
{
    let n = entries.len();
    let mut i: usize = 0;
    proof {
        assert(entries@.skip(0) =~= entries@);
    }
    while i < n
        invariant
            n == entries.len(),
            i <= n,
            table_lookup_spec(entries@, key@) == table_lookup_spec(entries@.skip(i as int), key@),
        decreases n - i,
    {
        proof {
            assert(entries@.skip(i as int)[0] == entries@[i as int]);
            assert(entries@.skip(i as int).skip(1) =~= entries@.skip(i + 1));
        }
        if text::str_eq(entries[i].0.as_str(), key) {
            return Some(&entries[i].1);
        }
        i += 1;
    }
    proof {
        assert(entries@.skip(n as int) =~= Seq::<(String, TomlValue)>::empty());
    }
    None
}

/// Look a key up in a TOML value, when it is a table.
pub fn value_lookup<'a>(v: &'a TomlValue, key: &str) -> (r: Option<&'a TomlValue>)
    ensures
        match r {
            Some(w) => value_lookup_spec(*v, key@) == Option::Some(*w),
            None => value_lookup_spec(*v, key@) is None,
        },
{
    match v.as_table() {
        Some(entries) => table_lookup(entries, key),
        None => None,
    }
}

} // verus!
