//! What the mock service reads from a request before it answers: the
//! caller's token and the objects asked for.

use vstd::prelude::*;
use crate::params::{bounded_value, lookup, parse_u32, strs_path, LeafView, Params};
use crate::phid::{parse_phid, Phid, PhidType};

verus! {

/// The outcome of checking a request's `api.token` parameter.
#[derive(Clone, Copy, Debug, PartialEq, Eq, Structural)]
pub enum Auth {
    /// No token was sent: answered with 403 "Missing auth token".
    Missing,
    /// Another token was sent: answered with 403 "Incorrect auth token".
    Incorrect,
    /// The service's own token was sent.
    Granted,
}

/// Checks the `api.token` parameter against the service's token.
pub fn authorize(params: &Params, token: &str) -> (r: Auth)
    ensures
        match lookup(params@, seq!["api.token"@]) {
            Some(LeafView::Value(given)) => r == (if given == token@ {
                Auth::Granted
            } else {
                Auth::Incorrect
            }),
            _ => r == Auth::Missing,
        },
{
    let key: [&str; 1] = ["api.token"];
    let ghost path = crate::params::strs_path(key@);
    assert(path =~= seq!["api.token"@]);
    match params.get(key.as_slice()) {
        None => Auth::Missing,
        Some(given) => {
            let a = String::from_str(given);
            let b = String::from_str(token);
            if a == b {
                Auth::Granted
            } else {
                Auth::Incorrect
            }
        },
    }
}

/// The number of a task named `T<n>`, as the lookup reads it; `None` for
/// another name or a malformed number.
pub open spec fn task_number_of(name: Seq<char>) -> Option<nat> {
    if name.len() > 0 && name[0] == 'T' {
        bounded_value(name.drop_first(), u32::MAX as nat)
    } else {
        None
    }
}

/// The `maniphest.info` request.
pub struct Info;

impl Info {
    /// The task number asked for: the `task_id` parameter read as a `u32`.
    pub fn task_id(params: &Params) -> (r: Option<u32>)
        ensures
            match lookup(params@, seq!["task_id"@]) {
                Some(LeafView::Value(s)) => match bounded_value(s, u32::MAX as nat) {
                    Some(v) => r == Some(v as u32),
                    None => r is None,
                },
                _ => r is None,
            },
    {
        let key: [&str; 1] = ["task_id"];
        let ghost path = crate::params::strs_path(key@);
        assert(path =~= seq!["task_id"@]);
        match params.get(key.as_slice()) {
            None => None,
            Some(s) => parse_u32(s),
        }
    }
}

/// The `phid.lookup` request.
pub struct Lookup;

impl Lookup {
    /// The number of a task named `T<n>`.
    pub fn task_number(name: &str) -> (r: Option<u32>)
        ensures
            match task_number_of(name@) {
                Some(v) => r == Some(v as u32),
                None => r is None,
            },
    {
        let n = name.unicode_len();
        if n == 0 || name.get_char(0) != 'T' {
            return None;
        }
        let rest = name.substring_char(1, n);
        assert(rest@ =~= name@.drop_first());
        parse_u32(rest)
    }
}

/// The tasks that a search asks for.
#[derive(Debug)]
pub enum Constraint {
    /// By number.
    Ids(Vec<u32>),
    /// By identifier.
    Phids(Vec<Phid>),
}

/// Why a search's constraints cannot be served.
#[derive(Clone, Copy, Debug, PartialEq, Eq, Structural)]
pub enum ConstraintError {
    /// Both numbers and identifiers were given.
    Both,
    /// Neither numbers nor identifiers were given.
    Neither,
    /// A number does not read as a `u32`.
    BadId,
    /// An identifier does not read as one.
    BadPhid,
}

/// Every string of `texts` reads as a task number, and `ids` are those
/// numbers.
pub open spec fn reads_as_ids(texts: Seq<Seq<char>>, ids: Seq<u32>) -> bool {
    ids.len() == texts.len() && forall|i: int|
        0 <= i < texts.len() ==> bounded_value(#[trigger] texts[i], u32::MAX as nat) == Some(
            ids[i] as nat,
        )
}

/// Every string of `texts` reads as an identifier, and `phids` are those.
pub open spec fn reads_as_phids(texts: Seq<Seq<char>>, phids: Seq<Phid>) -> bool {
    phids.len() == texts.len() && forall|i: int|
        0 <= i < texts.len() ==> parse_phid(#[trigger] texts[i]) == Some(
            (phids[i].ty, phids[i].id@),
        )
}

/// The `maniphest.search` request.
pub struct Search;

impl Search {
    /// Whether the attachment `name` is asked for: `false` when the
    /// parameter `attachments[name]` is absent, its value when it is `true`
    /// or `false`, and `None` for any other text.
    pub fn attachment(params: &Params, name: &str) -> (r: Option<bool>)
        ensures
            match lookup(params@, seq!["attachments"@, name@]) {
                Some(LeafView::Value(v)) => r == (if v == "true"@ {
                    Some(true)
                } else if v == "false"@ {
                    Some(false)
                } else {
                    None::<bool>
                }),
                _ => r == Some(false),
            },
    {
        let key: [&str; 2] = ["attachments", name];
        assert(strs_path(key@) =~= seq!["attachments"@, name@]);
        match params.get(key.as_slice()) {
            None => Some(false),
            Some(v) => {
                let given = String::from_str(v);
                if given == String::from_str("true") {
                    Some(true)
                } else if given == String::from_str("false") {
                    Some(false)
                } else {
                    None
                }
            },
        }
    }

    /// The tasks asked for: the numbers of `constraints[ids]` or the
    /// identifiers of `constraints[phids]`, exactly one of which must be
    /// given.
    pub fn constraint(params: &Params) -> (r: Result<Constraint, ConstraintError>)
        ensures
            match (
                lookup(params@, seq!["constraints"@, "ids"@]),
                lookup(params@, seq!["constraints"@, "phids"@]),
            ) {
                (Some(LeafView::Values(_)), Some(LeafView::Values(_))) => r == Err::<
                    Constraint,
                    ConstraintError,
                >(ConstraintError::Both),
                (Some(LeafView::Values(ids)), _) => match r {
                    Ok(Constraint::Ids(v)) => reads_as_ids(ids, v@),
                    Err(e) => e == ConstraintError::BadId && !(exists|v: Seq<u32>| reads_as_ids(ids, v)),
                    _ => false,
                },
                (_, Some(LeafView::Values(phids))) => match r {
                    Ok(Constraint::Phids(v)) => reads_as_phids(phids, v@),
                    Err(e) => e == ConstraintError::BadPhid && !(exists|v: Seq<Phid>|
                        reads_as_phids(phids, v)),
                    _ => false,
                },
                _ => r == Err::<Constraint, ConstraintError>(ConstraintError::Neither),
            },
    {
        let ids_key: [&str; 2] = ["constraints", "ids"];
        let phids_key: [&str; 2] = ["constraints", "phids"];
        assert(strs_path(ids_key@) =~= seq!["constraints"@, "ids"@]);
        assert(strs_path(phids_key@) =~= seq!["constraints"@, "phids"@]);
        let ids = params.get_values(ids_key.as_slice());
        let phids = params.get_values(phids_key.as_slice());
        match (ids, phids) {
            (Some(_), Some(_)) => Err(ConstraintError::Both),
            (None, None) => Err(ConstraintError::Neither),
            (Some(texts), None) => {
                let mut out: Vec<u32> = Vec::new();
                let mut i: usize = 0;
                while i < texts.len()
                    invariant
                        i <= texts.len(),
                        out.len() == i,
                        lookup(params@, seq!["constraints"@, "ids"@]) == Some(
                            LeafView::Values(texts.deep_view()),
                        ),
                        !(lookup(params@, seq!["constraints"@, "phids"@]) matches Some(
                            LeafView::Values(_),
                        )),
                        forall|k: int|
                            0 <= k < i ==> bounded_value(#[trigger] texts.deep_view()[k], u32::MAX as nat)
                                == Some(out@[k] as nat),
                    decreases texts.len() - i,
                {
                    match parse_u32(texts[i].as_str()) {
                        None => {
                            let ghost tv = texts.deep_view();
                            assert(bounded_value(tv[i as int], u32::MAX as nat) is None);
                            assert forall|v: Seq<u32>| !reads_as_ids(tv, v) by {
                                if reads_as_ids(tv, v) {
                                    assert(bounded_value(tv[i as int], u32::MAX as nat) is Some);
                                }
                            }
                            return Err(ConstraintError::BadId);
                        },
                        Some(v) => {
                            out.push(v);
                        },
                    }
                    i = i + 1;
                }
                Ok(Constraint::Ids(out))
            },
            (None, Some(texts)) => {
                let mut out: Vec<Phid> = Vec::new();
                let mut i: usize = 0;
                while i < texts.len()
                    invariant
                        i <= texts.len(),
                        out.len() == i,
                        lookup(params@, seq!["constraints"@, "phids"@]) == Some(
                            LeafView::Values(texts.deep_view()),
                        ),
                        !(lookup(params@, seq!["constraints"@, "ids"@]) matches Some(
                            LeafView::Values(_),
                        )),
                        forall|k: int|
                            0 <= k < i ==> parse_phid(#[trigger] texts.deep_view()[k]) == Some(
                                (out@[k].ty, out@[k].id@),
                            ),
                    decreases texts.len() - i,
                {
                    match Phid::parse(texts[i].as_str()) {
                        None => {
                            let ghost tv = texts.deep_view();
                            assert(parse_phid(tv[i as int]) is None);
                            assert forall|v: Seq<Phid>| !reads_as_phids(tv, v) by {
                                if reads_as_phids(tv, v) {
                                    assert(parse_phid(tv[i as int]) is Some);
                                }
                            }
                            return Err(ConstraintError::BadPhid);
                        },
                        Some(p) => {
                            out.push(p);
                        },
                    }
                    i = i + 1;
                }
                Ok(Constraint::Phids(out))
            },
        }
    }
}

} // verus!
