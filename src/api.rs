//! Request and reply types of the task tracker's API. Requests describe
//! themselves as structured values, which the form encoder flattens into
//! the request body.

use vstd::prelude::*;
use crate::value::Value;

verus! {

/// An object identifier as the API returns it.
#[derive(Clone, Debug, PartialEq, Eq, Hash)]
pub struct Phid(pub String);

/// A paging cursor.
#[derive(Debug)]
pub struct Cursor {
    pub before: Option<String>,
    pub after: Option<String>,
    pub limit: u32,
    pub order: Option<String>,
}

/// The kind of an edge between tasks.
#[derive(Debug, PartialEq, Eq, Structural, Clone, Copy)]
pub enum Type {
    TaskSubtask,
    TaskParent,
}

/// An object found by a lookup or a query.
#[derive(Debug)]
pub struct Item {
    pub full_name: String,
    pub name: String,
    pub phid: Phid,
    pub status: String,
    pub uri: String,
    pub ty: String,
    pub kind_name: String,
}

/// Looks up objects by identifier.
#[derive(Debug)]
pub struct Query {
    pub phids: Vec<String>,
}

/// The reply to a query: the objects by identifier, or none.
#[derive(Debug)]
pub enum QueryResult {
    Results(Vec<(String, Item)>),
    NoData,
}

/// Looks up objects by name (`T100`).
#[derive(Debug)]
pub struct Lookup {
    pub names: Vec<String>,
}

/// The reply to a lookup: the objects found, by name; empty when none is.
#[derive(Debug)]
pub struct LookupResult(pub Vec<(String, Item)>);

/// Asks for one task by number.
#[derive(Debug)]
pub struct Info {
    pub task_id: u32,
}

/// The icon of a project.
#[derive(Debug)]
pub struct Icon {
    pub key: String,
    pub name: String,
    pub icon: String,
}

/// The color of a project.
#[derive(Debug)]
pub struct Color {
    pub key: String,
    pub name: Option<String>,
}

/// `v` is the string `s`.
pub open spec fn is_str(v: Value, s: Seq<char>) -> bool {
    v matches Value::Str(t) && t@ == s
}

/// `v` is `strs` as a sequence of strings.
pub open spec fn is_str_list(v: Value, strs: Seq<String>) -> bool {
    v matches Value::Sequence(items) && items.len() == strs.len() && forall|i: int|
        0 <= i < items.len() ==> is_str(#[trigger] items[i], strs[i]@)
}

/// `v` is `o` as an optional string.
pub open spec fn is_opt_str(v: Value, o: Option<String>) -> bool {
    match o {
        None => v == Value::Optional(None),
        Some(s) => v matches Value::Optional(Some(inner)) && is_str(*inner, s@),
    }
}

fn str_value(s: &String) -> (r: Value)
    ensures
        is_str(r, s@),
{
    Value::Str(s.clone())
}

fn str_list_value(strs: &Vec<String>) -> (r: Value)
    ensures
        is_str_list(r, strs@),
{
    let mut items: Vec<Value> = Vec::new();
    let mut i: usize = 0;
    while i < strs.len()
        invariant
            i <= strs.len(),
            items.len() == i,
            forall|k: int| 0 <= k < i ==> is_str(#[trigger] items@[k], strs@[k]@),
        decreases strs.len() - i,
    {
        items.push(str_value(&strs[i]));
        i = i + 1;
    }
    Value::Sequence(items)
}

fn opt_str_value(o: &Option<String>) -> (r: Value)
    ensures
        is_opt_str(r, *o),
{
    match o {
        None => Value::Optional(None),
        Some(s) => Value::Optional(Some(Box::new(str_value(s)))),
    }
}

impl Type {
    /// The variant's name on the wire.
    pub fn name(&self) -> (r: String)
        ensures
            r@ == (match *self {
                Type::TaskSubtask => "task.subtask"@,
                Type::TaskParent => "task.parent"@,
            }),
    {
        match self {
            Type::TaskSubtask => String::from_str("task.subtask"),
            Type::TaskParent => String::from_str("task.parent"),
        }
    }

    /// The edge kind as a unit variant.
    pub fn to_value(&self) -> (r: Value)
        ensures
            r matches Value::UnitVariant(n) && n@ == (match *self {
                Type::TaskSubtask => "task.subtask"@,
                Type::TaskParent => "task.parent"@,
            }),
    {
        Value::UnitVariant(self.name())
    }
}

impl Cursor {
    /// The cursor as a struct of its four fields.
    pub fn to_value(&self) -> (r: Value)
        ensures
            r matches Value::Struct(fields) && fields.len() == 4
                && fields[0].0@ == "before"@ && is_opt_str(fields[0].1, self.before)
                && fields[1].0@ == "after"@ && is_opt_str(fields[1].1, self.after)
                && fields[2].0@ == "limit"@ && fields[2].1 == Value::UInt(self.limit as u64)
                && fields[3].0@ == "order"@ && is_opt_str(fields[3].1, self.order),
    {
        let mut fields: Vec<(String, Value)> = Vec::new();
        fields.push((String::from_str("before"), opt_str_value(&self.before)));
        fields.push((String::from_str("after"), opt_str_value(&self.after)));
        fields.push((String::from_str("limit"), Value::UInt(self.limit as u64)));
        fields.push((String::from_str("order"), opt_str_value(&self.order)));
        Value::Struct(fields)
    }
}

impl Query {
    /// The query as a struct with its list of identifiers.
    pub fn to_value(&self) -> (r: Value)
        ensures
            r matches Value::Struct(fields) && fields.len() == 1 && fields[0].0@ == "phids"@
                && is_str_list(fields[0].1, self.phids@),
    {
        let mut fields: Vec<(String, Value)> = Vec::new();
        fields.push((String::from_str("phids"), str_list_value(&self.phids)));
        Value::Struct(fields)
    }
}

impl Lookup {
    /// The lookup as a struct with its list of names.
    pub fn to_value(&self) -> (r: Value)
        ensures
            r matches Value::Struct(fields) && fields.len() == 1 && fields[0].0@ == "names"@
                && is_str_list(fields[0].1, self.names@),
    {
        let mut fields: Vec<(String, Value)> = Vec::new();
        fields.push((String::from_str("names"), str_list_value(&self.names)));
        Value::Struct(fields)
    }
}

impl Info {
    /// The request as a struct with the task's number.
    pub fn to_value(&self) -> (r: Value)
        ensures
            r matches Value::Struct(fields) && fields.len() == 1 && fields[0].0@ == "task_id"@
                && fields[0].1 == Value::UInt(self.task_id as u64),
    {
        let mut fields: Vec<(String, Value)> = Vec::new();
        fields.push((String::from_str("task_id"), Value::UInt(self.task_id as u64)));
        Value::Struct(fields)
    }
}

impl LookupResult {
    /// The item found under `name`, if any.
    pub fn get(&self, name: &str) -> (r: Option<&Item>)
        ensures
            r is Some <==> exists|i: int| 0 <= i < self.0.len() && (#[trigger] self.0@[i]).0@ == name@,
            r matches Some(item) ==> exists|i: int|
                0 <= i < self.0.len() && (#[trigger] self.0@[i]).0@ == name@ && self.0@[i].1 == *item,
    {
        let wanted = String::from_str(name);
        let mut i: usize = 0;
        while i < self.0.len()
            invariant
                i <= self.0.len(),
                wanted@ == name@,
                forall|k: int| 0 <= k < i ==> (#[trigger] self.0@[k]).0@ != name@,
            decreases self.0.len() - i,
        {
            if self.0[i].0 == wanted {
                return Some(&self.0[i].1);
            }
            i = i + 1;
        }
        None
    }
}

} // verus!
