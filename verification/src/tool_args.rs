//! How the shepherd's tools read their arguments: a JSON object of named
//! values, from which a tool takes whole numbers, required and optional
//! texts and lists of texts, and the project it acts on.

use vstd::prelude::*;
use crate::service_worker::{all_digits, digits_value, lemma_digits_grow};
use crate::text::{concat, to_chars, trim, trimmed};

verus! {

/// A JSON value as far as a tool reads it.
#[derive(Debug)]
pub enum ArgValue {
    Null,
    Bool(bool),
    /// A whole number that fits an `i64`.
    Int(i64),
    /// A whole number above `i64::MAX` that fits a `u64`.
    BigUInt(u64),
    Text(String),
    /// A list: for each item its text, when the item is a string.
    List(Vec<Option<String>>),
    /// A fractional number, a number too large for a `u64`, or an object.
    Other,
}

/// The arguments of a tool call: the entries of a JSON object, each key
/// once. Arguments that are not an object have no entries.
#[derive(Debug)]
pub struct ToolArgs {
    pub entries: Vec<(String, ArgValue)>,
}

/// The value under `key` among `entries`: that of its first entry.
pub open spec fn arg_of(entries: Seq<(String, ArgValue)>, key: Seq<char>) -> Option<ArgValue>
    decreases entries.len(),
{
    if entries.len() == 0 {
        None
    } else if entries[0].0@ == key {
        Some(entries[0].1)
    } else {
        arg_of(entries.drop_first(), key)
    }
}

/// The value under `key` is that of the first entry with that key, and
/// there is none when no entry has it.
proof fn lemma_arg_of_first(entries: Seq<(String, ArgValue)>, key: Seq<char>, i: int)
    requires
        0 <= i <= entries.len(),
        forall|k: int| 0 <= k < i ==> (#[trigger] entries[k]).0@ != key,
    ensures
        arg_of(entries, key) == arg_of(entries.skip(i), key),
    decreases i,
{
    if i > 0 {
        assert(entries[0].0@ != key);
        lemma_arg_of_first(entries.drop_first(), key, i - 1);
        assert(entries.drop_first().skip(i - 1) =~= entries.skip(i));
    } else {
        assert(entries.skip(0) =~= entries);
    }
}

impl ToolArgs {
    /// The value under `key`, if the arguments hold one.
    pub fn get(&self, key: &str) -> (r: Option<&ArgValue>)
        ensures
            match r {
                Some(v) => arg_of(self.entries@, key@) == Some(*v),
                None => arg_of(self.entries@, key@) is None,
            },
    {
        let mut i: usize = 0;
        while i < self.entries.len()
            invariant
                i <= self.entries.len(),
                forall|k: int| 0 <= k < i ==> (#[trigger] self.entries@[k]).0@ != key@,
            decreases self.entries.len() - i,
        {
            if crate::text::str_eq(self.entries[i].0.as_str(), key) {
                proof {
                    lemma_arg_of_first(self.entries@, key@, i as int);
                    assert(self.entries@.skip(i as int)[0] == self.entries@[i as int]);
                }
                return Some(&self.entries[i].1);
            }
            i = i + 1;
        }
        proof {
            lemma_arg_of_first(self.entries@, key@, i as int);
            assert(self.entries@.skip(i as int).len() == 0);
        }
        None
    }
}

/// The number `s` writes as an `i64` in the form that `str::parse`
/// accepts: an optional `+` or `-`, then one or more decimal digits, for a
/// value that fits.
pub open spec fn parse_i64(s: Seq<char>) -> Option<i64> {
    let neg = s.len() > 0 && s[0] == '-';
    let d = if s.len() > 0 && (s[0] == '+' || s[0] == '-') { s.drop_first() } else { s };
    if d.len() > 0 && all_digits(d) {
        let v: int = if neg { -(digits_value(d) as int) } else { digits_value(d) as int };
        if i64::MIN <= v <= i64::MAX {
            Some(v as i64)
        } else {
            None
        }
    } else {
        None
    }
}

/// Reads an `i64` as `str::parse` does.
pub fn parse_i64_str(s: &str) -> (r: Option<i64>)
    ensures
        r == parse_i64(s@),
{
    let cs = to_chars(s);
    let neg = cs.len() > 0 && cs[0] == '-';
    let start: usize = if cs.len() > 0 && (cs[0] == '+' || cs[0] == '-') { 1 } else { 0 };
    let ghost d = if s@.len() > 0 && (s@[0] == '+' || s@[0] == '-') { s@.drop_first() } else { s@ };
    assert(d =~= s@.subrange(start as int, s@.len() as int));
    if start == cs.len() {
        return None;
    }
    let mut acc: u128 = 0;
    let mut i: usize = start;
    while i < cs.len()
        invariant
            cs@ == s@,
            start <= i <= cs.len(),
            start < cs.len(),
            d == s@.subrange(start as int, s@.len() as int),
            d == (if s@.len() > 0 && (s@[0] == '+' || s@[0] == '-') { s@.drop_first() } else { s@ }),
            neg == (s@.len() > 0 && s@[0] == '-'),
            all_digits(d.take(i - start)),
            acc == digits_value(d.take(i - start)),
            acc <= 9223372036854775808u128,
        decreases cs.len() - i,
    {
        let c = cs[i];
        assert(d[i - start] == c);
        if c < '0' || c > '9' {
            assert(!('0' <= d[i - start] <= '9'));
            assert(!all_digits(d));
            return None;
        }
        let v: u128 = (c as u128) - ('0' as u128);
        let next: u128 = acc * 10 + v;
        assert(d.take(i - start + 1).drop_last() =~= d.take(i - start));
        assert(d.take(i - start + 1).last() == c);
        assert(all_digits(d.take(i - start + 1)));
        if next > 9223372036854775808u128 {
            proof {
                if all_digits(d) {
                    lemma_digits_grow(d, i - start + 1);
                    assert(digits_value(d.take(i - start + 1)) == next);
                }
            }
            return None;
        }
        acc = next;
        i = i + 1;
    }
    assert(d.take(cs.len() - start) =~= d);
    if neg {
        if acc == 9223372036854775808u128 {
            Some(i64::MIN)
        } else {
            let m = acc as i64;
            Some(-m)
        }
    } else if acc <= 9223372036854775807u128 {
        Some(acc as i64)
    } else {
        None
    }
}

/// The whole number a value gives when read as an `i64`: an integer as it
/// is, one above `i64::MAX` wrapped into the `i64` range, a string that
/// writes one, and nothing for any other value.
pub open spec fn value_i64(v: ArgValue) -> Option<i64> {
    match v {
        ArgValue::Int(i) => Some(i),
        ArgValue::BigUInt(u) => Some(u as i64),
        ArgValue::Text(s) => parse_i64(s@),
        _ => None,
    }
}

/// The string under `key`, trimmed, when it is not empty.
pub open spec fn trimmed_arg(entries: Seq<(String, ArgValue)>, key: Seq<char>) -> Option<Seq<char>> {
    match arg_of(entries, key) {
        Some(ArgValue::Text(s)) => if trimmed(s@).len() > 0 {
            Some(trimmed(s@))
        } else {
            None
        },
        _ => None,
    }
}

/// The whole number under `key`, read as `value_i64` reads it.
pub open spec fn i64_arg(entries: Seq<(String, ArgValue)>, key: Seq<char>) -> Option<i64> {
    match arg_of(entries, key) {
        Some(v) => value_i64(v),
        None => None,
    }
}

/// The texts of the string items of a list, trimmed, the empty ones left
/// out.
pub open spec fn list_texts(items: Seq<Option<String>>) -> Seq<Seq<char>>
    decreases items.len(),
{
    if items.len() == 0 {
        Seq::empty()
    } else {
        let rest = list_texts(items.drop_last());
        match items.last() {
            Some(s) => if trimmed(s@).len() > 0 {
                rest.push(trimmed(s@))
            } else {
                rest
            },
            None => rest,
        }
    }
}

/// The tools of a shepherd turn: the project they act on when a call names
/// none, and the workspace they may read.
#[derive(Debug)]
pub struct ShepherdToolProvider {
    pub default_project_id: Option<i64>,
    pub workspace_root: Option<String>,
}

impl ShepherdToolProvider {
    pub fn new(default_project_id: Option<i64>, workspace_root: Option<String>) -> (r: ShepherdToolProvider)
        ensures
            r.default_project_id == default_project_id,
            r.workspace_root == workspace_root,
    {
        ShepherdToolProvider { default_project_id, workspace_root }
    }

    /// The whole number under `key`, read as `value_i64` reads it.
    pub fn arg_i64(args: &ToolArgs, key: &str) -> (r: Option<i64>)
        ensures
            r == i64_arg(args.entries@, key@),
    {
        match args.get(key) {
            None => None,
            Some(ArgValue::Int(i)) => Some(*i),
            Some(ArgValue::BigUInt(u)) => Some(*u as i64),
            Some(ArgValue::Text(s)) => parse_i64_str(s.as_str()),
            Some(_) => None,
        }
    }

    /// The project a call acts on: its `project_id` argument, else the
    /// scope's project.
    pub fn resolve_project_id(&self, args: &ToolArgs) -> (r: Result<i64, String>)
        ensures
            match i64_arg(args.entries@, "project_id"@) {
                Some(p) => r == Ok::<i64, String>(p),
                None => match self.default_project_id {
                    Some(p) => r == Ok::<i64, String>(p),
                    None => r matches Err(m) && m@ == "project_id is required outside project scope"@,
                },
            },
    {
        if let Some(p) = Self::arg_i64(args, "project_id") {
            return Ok(p);
        }
        match self.default_project_id {
            Some(p) => Ok(p),
            None => Err("project_id is required outside project scope".to_owned()),
        }
    }

    /// The string under `key`; without one, an error naming the key.
    pub fn string_arg(args: &ToolArgs, key: &str) -> (r: Result<String, String>)
        ensures
            match arg_of(args.entries@, key@) {
                Some(ArgValue::Text(s)) => r matches Ok(t) && t@ == s@,
                _ => r matches Err(m) && m@ == key@ + " is required"@,
            },
    {
        match args.get(key) {
            Some(ArgValue::Text(s)) => Ok(s.clone()),
            _ => Err(concat(key, " is required")),
        }
    }

    /// The string under `key`, trimmed, when it is not empty.
    pub fn trimmed_string(args: &ToolArgs, key: &str) -> (r: Option<String>)
        ensures
            crate::run_state::opt_view(r) == trimmed_arg(args.entries@, key@),
    {
        match args.get(key) {
            Some(ArgValue::Text(s)) => {
                let t = trim(s.as_str());
                if !t.as_str().is_empty() {
                    Some(t)
                } else {
                    None
                }
            },
            _ => None,
        }
    }

    /// The string under `key`, trimmed, which a call must give and not
    /// leave blank.
    pub fn required_trimmed(args: &ToolArgs, key: &str) -> (r: Result<String, String>)
        ensures
            match trimmed_arg(args.entries@, key@) {
                Some(t) => r matches Ok(x) && x@ == t,
                None => r matches Err(m) && m@ == "Missing required parameter: "@ + key@,
            },
    {
        match Self::trimmed_string(args, key) {
            Some(t) => Ok(t),
            None => Err(concat("Missing required parameter: ", key)),
        }
    }

    /// What an edit of a project document takes: the new text under
    /// `key`, required, and the `source` that made it, when it is a string
    /// that is not blank (kept as given).
    pub fn edit_args(args: &ToolArgs, key: &str) -> (r: Result<(String, Option<String>), String>)
        ensures
            match arg_of(args.entries@, key@) {
                Some(ArgValue::Text(t)) => r matches Ok((text, source)) && text@ == t@
                    && crate::run_state::opt_view(source) == match arg_of(args.entries@, "source"@) {
                        Some(ArgValue::Text(x)) => if trimmed(x@).len() > 0 { Some(x@) } else { None },
                        _ => None,
                    },
                _ => r matches Err(m) && m@ == key@ + " is required"@,
            },
    {
        let text = Self::string_arg(args, key)?;
        let source = match args.get("source") {
            Some(ArgValue::Text(x)) => {
                let t = trim(x.as_str());
                if t.as_str().is_empty() {
                    None
                } else {
                    Some(x.clone())
                }
            },
            _ => None,
        };
        Ok((text, source))
    }

    /// The list under `key`: the texts of its string items, trimmed, the
    /// empty ones left out; nothing when the value is not a list.
    pub fn string_list_arg(args: &ToolArgs, key: &str) -> (r: Option<Vec<String>>)
        ensures
            match arg_of(args.entries@, key@) {
                Some(ArgValue::List(items)) => r matches Some(v) && crate::text::views(v@) == list_texts(items@),
                _ => r is None,
            },
    {
        match args.get(key) {
            Some(ArgValue::List(items)) => {
                let mut out: Vec<String> = Vec::new();
                let mut i: usize = 0;
                while i < items.len()
                    invariant
                        i <= items.len(),
                        crate::text::views(out@) == list_texts(items@.take(i as int)),
                    decreases items.len() - i,
                {
                    assert(items@.take(i as int + 1).drop_last() =~= items@.take(i as int));
                    assert(items@.take(i as int + 1).last() == items@[i as int]);
                    if let Some(s) = &items[i] {
                        let t = trim(s.as_str());
                        if !t.as_str().is_empty() {
                            let ghost before = crate::text::views(out@);
                            out.push(t);
                            assert(crate::text::views(out@) =~= before.push(trimmed(s@)));
                        }
                    }
                    i = i + 1;
                }
                assert(items@.take(items.len() as int) =~= items@);
                Some(out)
            },
            _ => None,
        }
    }
}

} // verus!
