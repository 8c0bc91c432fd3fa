//! Records that the mock service serves: users, statuses, priorities and
//! the display data of projects, with builders that fill in defaults.

use vstd::prelude::*;
use std::sync::Arc;
use crate::phid::{Phid, PhidType, ID_LEN};

verus! {

/// The special meaning of a task status, if any.
#[derive(Clone, Copy, Debug, PartialEq, Eq, Structural)]
pub enum Special {
    Default,
    Duplicate,
    Closed,
}

/// The icon of a project.
#[derive(Debug)]
pub struct ProjectIcon {
    pub key: String,
    pub name: String,
    pub icon: String,
}

impl Default for ProjectIcon {
    /// The organization icon.
    fn default() -> (r: ProjectIcon)
        ensures
            r.key@ == "organization"@,
            r.name@ == "Organization"@,
            r.icon@ == "fa-building"@,
    {
        ProjectIcon {
            key: String::from_str("organization"),
            name: String::from_str("Organization"),
            icon: String::from_str("fa-building"),
        }
    }
}

/// The color of a project.
#[derive(Debug)]
pub struct ProjectColor {
    pub key: String,
    pub name: Option<String>,
}

impl Default for ProjectColor {
    /// The disabled color, without a name.
    fn default() -> (r: ProjectColor)
        ensures
            r.key@ == "disabled"@,
            r.name is None,
    {
        ProjectColor { key: String::from_str("disabled"), name: None }
    }
}

/// The message of a builder whose required field `field` was not set.
pub open spec fn missing_field_message(field: Seq<char>) -> Seq<char> {
    seq!['`'] + field + "` must be initialized"@
}

fn missing_field(field: &str) -> (r: String)
    ensures
        r@ == missing_field_message(field@),
{
    let mut s = String::from_str("`");
    s.append(field);
    s.append("` must be initialized");
    proof {
        reveal_strlit("`");
    }
    assert(s@ =~= missing_field_message(field@));
    s
}

fn copy_text(s: &Option<String>) -> (r: Option<String>)
    ensures
        r == *s,
{
    match s {
        Some(t) => Some(t.clone()),
        None => None,
    }
}

/// A user of the mock service.
#[derive(Debug)]
pub struct UserData {
    pub full_name: String,
    pub name: String,
    pub phid: Phid,
}

/// A shared user record.
pub type User = Arc<UserData>;

/// Builds a `UserData`; the names are required, the identifier is a fresh
/// user identifier unless given.
#[derive(Debug, Default)]
pub struct UserDataBuilder {
    pub full_name: Option<String>,
    pub name: Option<String>,
    pub phid: Option<Phid>,
}

/// A builder for a user, with nothing set.
pub fn user() -> (r: UserDataBuilder)
    ensures
        r.full_name is None,
        r.name is None,
        r.phid is None,
{
    UserDataBuilder { full_name: None, name: None, phid: None }
}

impl UserDataBuilder {
    pub fn full_name(self, value: &str) -> (r: UserDataBuilder)
        ensures
            r.full_name matches Some(v) && v@ == value@,
            r.name == self.name,
            r.phid == self.phid,
    {
        UserDataBuilder { full_name: Some(String::from_str(value)), ..self }
    }

    pub fn name(self, value: &str) -> (r: UserDataBuilder)
        ensures
            r.name matches Some(v) && v@ == value@,
            r.full_name == self.full_name,
            r.phid == self.phid,
    {
        UserDataBuilder { name: Some(String::from_str(value)), ..self }
    }

    pub fn phid(self, value: Phid) -> (r: UserDataBuilder)
        ensures
            r.phid == Some(value),
            r.full_name == self.full_name,
            r.name == self.name,
    {
        UserDataBuilder { phid: Some(value), ..self }
    }

    /// The user, or the message naming the first required field that is
    /// not set.
    pub fn build(&self) -> (r: Result<User, String>)
        ensures
            match (self.full_name, self.name) {
                (Some(f), Some(n)) => r matches Ok(u) && u.full_name@ == f@ && u.name@ == n@
                    && match self.phid {
                        Some(p) => u.phid.ty == p.ty && u.phid.id@ == p.id@,
                        None => u.phid.ty == PhidType::User && u.phid.id@.len() == ID_LEN,
                    },
                (None, _) => r matches Err(m) && m@ == missing_field_message("full_name"@),
                (Some(_), None) => r matches Err(m) && m@ == missing_field_message("name"@),
            },
    {
        let full_name = match &self.full_name {
            Some(f) => f.clone(),
            None => {
                return Err(missing_field("full_name"));
            },
        };
        let name = match &self.name {
            Some(n) => n.clone(),
            None => {
                return Err(missing_field("name"));
            },
        };
        let phid = match &self.phid {
            Some(p) => Phid { ty: p.ty, id: p.id.clone() },
            None => Phid::new_user(),
        };
        Ok(Arc::new(UserData { full_name, name, phid }))
    }
}

/// A task status.
#[derive(Clone, Debug)]
pub struct Status {
    pub value: String,
    pub name: String,
    pub color: Option<String>,
    pub special: Option<Special>,
    pub closed: bool,
}

/// Builds a `Status`; value and name are required, the rest defaults to
/// no color, no special meaning and open.
#[derive(Debug, Default)]
pub struct StatusBuilder {
    pub value: Option<String>,
    pub name: Option<String>,
    pub color: Option<String>,
    pub special: Option<Special>,
    pub closed: Option<bool>,
}

/// A builder for a status, with nothing set.
pub fn status() -> (r: StatusBuilder)
    ensures
        r.value is None && r.name is None && r.color is None && r.special is None && r.closed is None,
{
    StatusBuilder { value: None, name: None, color: None, special: None, closed: None }
}

impl StatusBuilder {
    pub fn value(self, v: &str) -> (r: StatusBuilder)
        ensures
            r.value matches Some(x) && x@ == v@,
            r.name == self.name && r.color == self.color && r.special == self.special
                && r.closed == self.closed,
    {
        StatusBuilder { value: Some(String::from_str(v)), ..self }
    }

    pub fn name(self, v: &str) -> (r: StatusBuilder)
        ensures
            r.name matches Some(x) && x@ == v@,
            r.value == self.value && r.color == self.color && r.special == self.special
                && r.closed == self.closed,
    {
        StatusBuilder { name: Some(String::from_str(v)), ..self }
    }

    pub fn color(self, v: &str) -> (r: StatusBuilder)
        ensures
            r.color matches Some(x) && x@ == v@,
            r.value == self.value && r.name == self.name && r.special == self.special
                && r.closed == self.closed,
    {
        StatusBuilder { color: Some(String::from_str(v)), ..self }
    }

    pub fn special(self, v: Special) -> (r: StatusBuilder)
        ensures
            r.special == Some(v),
            r.value == self.value && r.name == self.name && r.color == self.color
                && r.closed == self.closed,
    {
        StatusBuilder { special: Some(v), ..self }
    }

    pub fn closed(self, v: bool) -> (r: StatusBuilder)
        ensures
            r.closed == Some(v),
            r.value == self.value && r.name == self.name && r.color == self.color
                && r.special == self.special,
    {
        StatusBuilder { closed: Some(v), ..self }
    }

    /// The status, or the message naming the first required field that is
    /// not set.
    pub fn build(&self) -> (r: Result<Status, String>)
        ensures
            match (self.value, self.name) {
                (Some(v), Some(n)) => r matches Ok(s) && s.value@ == v@ && s.name@ == n@
                    && s.color == self.color && s.special == self.special
                    && s.closed == (self.closed == Some(true)),
                (None, _) => r matches Err(m) && m@ == missing_field_message("value"@),
                (Some(_), None) => r matches Err(m) && m@ == missing_field_message("name"@),
            },
    {
        let value = match &self.value {
            Some(v) => v.clone(),
            None => {
                return Err(missing_field("value"));
            },
        };
        let name = match &self.name {
            Some(n) => n.clone(),
            None => {
                return Err(missing_field("name"));
            },
        };
        let closed = match self.closed {
            Some(c) => c,
            None => false,
        };
        Ok(Status { value, name, color: copy_text(&self.color), special: self.special, closed })
    }
}

/// The first status marked as the default, as the mock service picks it
/// for new tasks.
pub fn default_status(statuses: &Vec<Status>) -> (r: Option<&Status>)
    ensures
        match r {
            Some(s) => exists|i: int|
                0 <= i < statuses.len() && statuses@[i] == *s && s.special == Some(Special::Default)
                    && forall|k: int| 0 <= k < i ==> (#[trigger] statuses@[k]).special != Some(
                    Special::Default,
                ),
            None => forall|k: int| 0 <= k < statuses.len() ==> (#[trigger] statuses@[k]).special != Some(
                Special::Default,
            ),
        },
{
    let mut i: usize = 0;
    while i < statuses.len()
        invariant
            i <= statuses.len(),
            forall|k: int| 0 <= k < i ==> (#[trigger] statuses@[k]).special != Some(Special::Default),
        decreases statuses.len() - i,
    {
        let is_default = match statuses[i].special {
            Some(Special::Default) => true,
            _ => false,
        };
        if is_default {
            return Some(&statuses[i]);
        }
        i = i + 1;
    }
    None
}

/// A task priority.
#[derive(Clone, Debug)]
pub struct Priority {
    pub value: u32,
    pub name: String,
    pub color: String,
}

/// Builds a `Priority`; every field is required.
#[derive(Debug, Default)]
pub struct PriorityBuilder {
    pub value: Option<u32>,
    pub name: Option<String>,
    pub color: Option<String>,
}

/// A builder for a priority, with nothing set.
pub fn priority() -> (r: PriorityBuilder)
    ensures
        r.value is None && r.name is None && r.color is None,
{
    PriorityBuilder { value: None, name: None, color: None }
}

impl PriorityBuilder {
    pub fn value(self, v: u32) -> (r: PriorityBuilder)
        ensures
            r.value == Some(v),
            r.name == self.name && r.color == self.color,
    {
        PriorityBuilder { value: Some(v), ..self }
    }

    pub fn name(self, v: &str) -> (r: PriorityBuilder)
        ensures
            r.name matches Some(x) && x@ == v@,
            r.value == self.value && r.color == self.color,
    {
        PriorityBuilder { name: Some(String::from_str(v)), ..self }
    }

    pub fn color(self, v: &str) -> (r: PriorityBuilder)
        ensures
            r.color matches Some(x) && x@ == v@,
            r.value == self.value && r.name == self.name,
    {
        PriorityBuilder { color: Some(String::from_str(v)), ..self }
    }

    /// The priority, or the message naming the first required field that
    /// is not set.
    pub fn build(&self) -> (r: Result<Priority, String>)
        ensures
            match (self.value, self.name, self.color) {
                (Some(v), Some(n), Some(c)) => r matches Ok(p) && p.value == v && p.name@ == n@
                    && p.color@ == c@,
                (None, _, _) => r matches Err(m) && m@ == missing_field_message("value"@),
                (Some(_), None, _) => r matches Err(m) && m@ == missing_field_message("name"@),
                (Some(_), Some(_), None) => r matches Err(m) && m@ == missing_field_message("color"@),
            },
    {
        let value = match self.value {
            Some(v) => v,
            None => {
                return Err(missing_field("value"));
            },
        };
        let name = match &self.name {
            Some(n) => n.clone(),
            None => {
                return Err(missing_field("name"));
            },
        };
        let color = match &self.color {
            Some(c) => c.clone(),
            None => {
                return Err(missing_field("color"));
            },
        };
        Ok(Priority { value, name, color })
    }
}

} // verus!
