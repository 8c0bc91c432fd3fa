//! Object identifiers of the mock service: `PHID-<TYPE>-<id>`, the id being
//! 21 random lowercase letters and digits.

use vstd::prelude::*;
use crate::text::push_char;

verus! {

/// The kind of object that an identifier names.
#[derive(Clone, Copy, Debug, PartialEq, Eq, Structural, Hash)]
pub enum PhidType {
    Column,
    Project,
    Task,
    User,
}

/// The four-letter code of a kind of object.
pub open spec fn type_code(t: PhidType) -> Seq<char> {
    match t {
        PhidType::Column => seq!['P', 'C', 'O', 'L'],
        PhidType::Project => seq!['P', 'R', 'O', 'J'],
        PhidType::Task => seq!['T', 'A', 'S', 'K'],
        PhidType::User => seq!['U', 'S', 'E', 'R'],
    }
}

/// The length of a generated id.
pub const ID_LEN: usize = 21;

pub open spec fn is_ascii_alphanumeric(c: char) -> bool {
    ('0' <= c && c <= '9') || ('a' <= c && c <= 'z') || ('A' <= c && c <= 'Z')
}

pub open spec fn is_lower_alphanumeric(c: char) -> bool {
    ('0' <= c && c <= '9') || ('a' <= c && c <= 'z')
}

/// The text of an identifier.
pub open spec fn phid_text(t: PhidType, id: Seq<char>) -> Seq<char> {
    seq!['P', 'H', 'I', 'D', '-'] + type_code(t) + seq!['-'] + id
}

/// Relies on `DistString::sample_string` of `rand::distributions::Alphanumeric`
/// with the thread's generator: `n` characters, each an ASCII letter or
/// digit.
#[verifier::external_body]
fn random_alphanumeric(n: usize) -> (r: String)
    ensures
        r@.len() == n,
        forall|i: int| 0 <= i < r@.len() ==> is_ascii_alphanumeric(#[trigger] r@[i]),
{
    rand::distributions::DistString::sample_string(
        &rand::distributions::Alphanumeric,
        &mut rand::thread_rng(),
        n,
    )
}

fn to_ascii_lower(c: char) -> (r: char)
    requires
        is_ascii_alphanumeric(c),
    ensures
        is_lower_alphanumeric(r),
        'a' <= c <= 'z' || '0' <= c <= '9' ==> r == c,
        'A' <= c <= 'Z' ==> r as u32 == c as u32 + 32,
{
    if 'A' <= c && c <= 'Z' {
        ((c as u8) + 32) as char
    } else {
        c
    }
}

fn push_code(s: &mut String, t: PhidType)
    ensures
        final(s)@ == old(s)@ + type_code(t),
{
    let ghost start = s@;
    match t {
        PhidType::Column => {
            push_char(s, 'P');
            push_char(s, 'C');
            push_char(s, 'O');
            push_char(s, 'L');
        },
        PhidType::Project => {
            push_char(s, 'P');
            push_char(s, 'R');
            push_char(s, 'O');
            push_char(s, 'J');
        },
        PhidType::Task => {
            push_char(s, 'T');
            push_char(s, 'A');
            push_char(s, 'S');
            push_char(s, 'K');
        },
        PhidType::User => {
            push_char(s, 'U');
            push_char(s, 'S');
            push_char(s, 'E');
            push_char(s, 'R');
        },
    }
    assert(s@ =~= start + type_code(t));
}

impl PhidType {
    /// The four-letter code of the kind (`PCOL`, `PROJ`, `TASK`, `USER`).
    pub fn code(&self) -> (r: String)
        ensures
            r@ == type_code(*self),
    {
        let mut s = String::new();
        push_code(&mut s, *self);
        assert(s@ =~= type_code(*self));
        s
    }
}

/// An object identifier.
#[derive(Clone, Debug, PartialEq, Eq, Hash)]
pub struct Phid {
    pub ty: PhidType,
    pub id: String,
}

impl Phid {
    /// A fresh identifier of the given kind, with a random id of
    /// lowercase letters and digits.
    pub fn new(ty: PhidType) -> (r: Phid)
        ensures
            r.ty == ty,
            r.id@.len() == ID_LEN,
            forall|i: int| 0 <= i < r.id@.len() ==> is_lower_alphanumeric(#[trigger] r.id@[i]),
    {
        let raw = random_alphanumeric(ID_LEN);
        let mut id = String::new();
        let mut i: usize = 0;
        while i < ID_LEN
            invariant
                raw@.len() == ID_LEN,
                forall|k: int| 0 <= k < raw@.len() ==> is_ascii_alphanumeric(#[trigger] raw@[k]),
                i <= ID_LEN,
                id@.len() == i,
                forall|k: int| 0 <= k < i ==> is_lower_alphanumeric(#[trigger] id@[k]),
            decreases ID_LEN - i,
        {
            let c = raw.as_str().get_char(i);
            push_char(&mut id, to_ascii_lower(c));
            i = i + 1;
        }
        Phid { ty, id }
    }

    pub fn new_user() -> (r: Phid)
        ensures
            r.ty == PhidType::User,
            r.id@.len() == ID_LEN,
    {
        Self::new(PhidType::User)
    }

    pub fn new_task() -> (r: Phid)
        ensures
            r.ty == PhidType::Task,
            r.id@.len() == ID_LEN,
    {
        Self::new(PhidType::Task)
    }

    pub fn new_project() -> (r: Phid)
        ensures
            r.ty == PhidType::Project,
            r.id@.len() == ID_LEN,
    {
        Self::new(PhidType::Project)
    }

    pub fn new_column() -> (r: Phid)
        ensures
            r.ty == PhidType::Column,
            r.id@.len() == ID_LEN,
    {
        Self::new(PhidType::Column)
    }

    /// The identifier's text, `PHID-<TYPE>-<id>`.
    pub fn to_string(&self) -> (r: String)
        ensures
            r@ == phid_text(self.ty, self.id@),
    {
        let mut s = String::new();
        push_char(&mut s, 'P');
        push_char(&mut s, 'H');
        push_char(&mut s, 'I');
        push_char(&mut s, 'D');
        push_char(&mut s, '-');
        push_code(&mut s, self.ty);
        push_char(&mut s, '-');
        s.append(self.id.as_str());
        assert(s@ =~= phid_text(self.ty, self.id@));
        s
    }

    /// Whether `text` is this identifier's text.
    pub fn eq_str(&self, text: &str) -> (r: bool)
        ensures
            r == (phid_text(self.ty, self.id@) == text@),
    {
        let mine = self.to_string();
        let theirs = String::from_str(text);
        mine == theirs
    }
}

/// The kind whose code is `code`, if any.
pub open spec fn type_of_code(code: Seq<char>) -> Option<PhidType> {
    if code == type_code(PhidType::Column) {
        Some(PhidType::Column)
    } else if code == type_code(PhidType::Project) {
        Some(PhidType::Project)
    } else if code == type_code(PhidType::Task) {
        Some(PhidType::Task)
    } else if code == type_code(PhidType::User) {
        Some(PhidType::User)
    } else {
        None
    }
}

/// The kind and id that `s` spells as `PHID-<TYPE>-<id>`, if it does.
pub open spec fn parse_phid(s: Seq<char>) -> Option<(PhidType, Seq<char>)> {
    if s.len() >= 10 && s.subrange(0, 5) == seq!['P', 'H', 'I', 'D', '-'] && s[9] == '-'
        && type_of_code(s.subrange(5, 9)) is Some {
        Some((type_of_code(s.subrange(5, 9))->Some_0, s.subrange(10, s.len() as int)))
    } else {
        None
    }
}

fn code_type(a: char, b: char, c: char, d: char) -> (r: Option<PhidType>)
    ensures
        r == type_of_code(seq![a, b, c, d]),
{
    let ghost code = seq![a, b, c, d];
    if a == 'P' && b == 'C' && c == 'O' && d == 'L' {
        assert(code =~= type_code(PhidType::Column));
        Some(PhidType::Column)
    } else if a == 'P' && b == 'R' && c == 'O' && d == 'J' {
        assert(code =~= type_code(PhidType::Project));
        Some(PhidType::Project)
    } else if a == 'T' && b == 'A' && c == 'S' && d == 'K' {
        assert(code =~= type_code(PhidType::Task));
        Some(PhidType::Task)
    } else if a == 'U' && b == 'S' && c == 'E' && d == 'R' {
        assert(code =~= type_code(PhidType::User));
        Some(PhidType::User)
    } else {
        assert(code != type_code(PhidType::Column));
        assert(code != type_code(PhidType::Project));
        assert(code != type_code(PhidType::Task));
        assert(code != type_code(PhidType::User));
        None
    }
}

impl Phid {
    /// Reads an identifier's text, `PHID-<TYPE>-<id>`.
    pub fn parse(s: &str) -> (r: Option<Phid>)
        ensures
            match parse_phid(s@) {
                Some((ty, id)) => r matches Some(p) && p.ty == ty && p.id@ == id,
                None => r is None,
            },
    {
        let n = s.unicode_len();
        if n < 10 {
            return None;
        }
        let ghost prefix = s@.subrange(0, 5);
        if s.get_char(0) != 'P' || s.get_char(1) != 'H' || s.get_char(2) != 'I' || s.get_char(3)
            != 'D' || s.get_char(4) != '-' || s.get_char(9) != '-' {
            assert(prefix != seq!['P', 'H', 'I', 'D', '-'] || s@[9] != '-') by {
                if s@[9] == '-' {
                    assert(prefix[0] != 'P' || prefix[1] != 'H' || prefix[2] != 'I' || prefix[3]
                        != 'D' || prefix[4] != '-');
                }
            }
            return None;
        }
        assert(prefix =~= seq!['P', 'H', 'I', 'D', '-']);
        let ty = code_type(s.get_char(5), s.get_char(6), s.get_char(7), s.get_char(8));
        assert(seq![s@[5], s@[6], s@[7], s@[8]] =~= s@.subrange(5, 9));
        match ty {
            None => None,
            Some(ty) => {
                let id = s.substring_char(10, n);
                Some(Phid { ty, id: String::from_str(id) })
            },
        }
    }
}

impl std::str::FromStr for Phid {
    type Err = ();

    fn from_str(s: &str) -> Result<Phid, ()> {
        match Phid::parse(s) {
            Some(p) => Ok(p),
            None => Err(()),
        }
    }
}

} // verus!
