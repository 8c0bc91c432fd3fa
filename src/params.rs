//! The form decoder of the mock service: rebuilds a tree of parameters from
//! `key=value` pairs whose keys nest with brackets.
//!
//! The tree is kept flat, as a table from the path of each leaf (its key
//! segments) to the leaf. A leaf holds one value, or the values of a
//! bracketed index (`key[0]`, `key[1]`, ...) in order. No path is a prefix
//! of another: a node is either a leaf or an inner node.

use vstd::prelude::*;
use crate::text::push_char;

verus! {

/// A key path: the segments of a bracketed key, `a[b][c]` being `a`, `b`,
/// `c`.
pub type Path = Seq<Seq<char>>;

/// What a leaf holds.
pub enum LeafView {
    Value(Seq<char>),
    Values(Seq<Seq<char>>),
}

/// The table of leaves, in the order in which they were first made.
pub type Table = Seq<(Path, LeafView)>;

/// Why a parameter could not be added.
#[derive(PartialEq, Eq, Structural, Clone, Copy, Debug)]
pub enum ParamError {
    /// A bracketed segment does not end in `]`.
    MalformedKey,
    /// An index segment is followed by more segments.
    IndexNotLast,
    /// An index is not the next one of its list.
    IndexOutOfOrder,
    /// An index below a node that holds a single value or nested keys.
    InconsistentHierarchy,
    /// A key below a node that holds values.
    InvalidParameters,
    /// A key that is already given, or that names an inner node.
    DuplicateKey,
}

impl ParamError {
    /// A readable description of the error.
    pub fn message(&self) -> (r: String)
        ensures
            r@ == (match *self {
                ParamError::MalformedKey => "index didn't end in ]"@,
                ParamError::IndexNotLast => "index parameter not last"@,
                ParamError::IndexOutOfOrder => "parameter index not in order"@,
                ParamError::InconsistentHierarchy => "Inconsistent parameter hierarchy"@,
                ParamError::InvalidParameters => "Invalid parameters"@,
                ParamError::DuplicateKey => "Duplicate key in parameters"@,
            }),
    {
        match self {
            ParamError::MalformedKey => String::from_str("index didn't end in ]"),
            ParamError::IndexNotLast => String::from_str("index parameter not last"),
            ParamError::IndexOutOfOrder => String::from_str("parameter index not in order"),
            ParamError::InconsistentHierarchy => String::from_str("Inconsistent parameter hierarchy"),
            ParamError::InvalidParameters => String::from_str("Invalid parameters"),
            ParamError::DuplicateKey => String::from_str("Duplicate key in parameters"),
        }
    }
}

/// The pieces of `s` between the `[` characters, in order (one piece when
/// there is none).
pub open spec fn split_open(s: Seq<char>) -> Seq<Seq<char>>
    decreases s.len(),
{
    if s.len() == 0 {
        seq![seq![]]
    } else {
        let p = split_open(s.drop_last());
        if s.last() == '[' {
            p.push(seq![])
        } else {
            p.update(p.len() - 1, p.last().push(s.last()))
        }
    }
}

/// Every piece after the first ends in `]`.
pub open spec fn pieces_closed(parts: Seq<Seq<char>>) -> bool {
    forall|i: int| 1 <= i < parts.len() ==> (#[trigger] parts[i]).len() > 0 && parts[i].last() == ']'
}

/// The segments of a bracketed key: the first piece as it is, each later
/// piece without its closing `]`; `None` where a piece is not closed.
pub open spec fn key_path(key: Seq<char>) -> Option<Path> {
    let parts = split_open(key);
    if pieces_closed(parts) {
        Some(Seq::new(parts.len(), |i: int| if i == 0 { parts[i] } else { parts[i].drop_last() }))
    } else {
        None
    }
}

pub open spec fn is_digit(c: char) -> bool {
    '0' <= c && c <= '9'
}

/// The number that a string of decimal digits denotes.
pub open spec fn digits_value(d: Seq<char>) -> nat
    decreases d.len(),
{
    if d.len() == 0 {
        0
    } else {
        digits_value(d.drop_last()) * 10 + (d.last() as nat - '0' as nat) as nat
    }
}

/// The digits of a number: the text after an optional leading `+`.
pub open spec fn number_digits(s: Seq<char>) -> Seq<char> {
    if s.len() > 0 && s[0] == '+' {
        s.drop_first()
    } else {
        s
    }
}

/// The number that `s` reads as, as `str::parse` reads an unsigned
/// integer whose largest value is `max`: an optional `+`, then one or more
/// decimal digits, of a value that fits.
pub open spec fn bounded_value(s: Seq<char>, max: nat) -> Option<nat> {
    let d = number_digits(s);
    if d.len() > 0 && (forall|i: int| 0 <= i < d.len() ==> is_digit(#[trigger] d[i]))
        && digits_value(d) <= max {
        Some(digits_value(d))
    } else {
        None
    }
}

/// The `usize` that `s` reads as, as `str::parse::<usize>` reads it.
pub open spec fn index_value(s: Seq<char>) -> Option<nat> {
    bounded_value(s, usize::MAX as nat)
}

proof fn lemma_digits_value_grows(d: Seq<char>, k: int)
    requires
        0 <= k <= d.len(),
        forall|i: int| 0 <= i < d.len() ==> is_digit(#[trigger] d[i]),
    ensures
        digits_value(d.subrange(0, k)) <= digits_value(d),
    decreases d.len() - k,
{
    if k < d.len() {
        lemma_digits_value_grows(d, k + 1);
        let s = d.subrange(0, k + 1);
        assert(s.drop_last() == d.subrange(0, k));
        assert(is_digit(s.last()));
    } else {
        assert(d.subrange(0, k) == d);
    }
}

/// Splits a key at its `[` characters and strips the closing `]` of each
/// bracketed piece.
pub fn split_key(key: &str) -> (r: Result<Vec<String>, ParamError>)
    ensures
        match key_path(key@) {
            Some(path) => r is Ok && r->Ok_0.deep_view() == path,
            None => r == Err::<Vec<String>, ParamError>(ParamError::MalformedKey),
        },
{
    let n = key.unicode_len();
    let mut parts: Vec<String> = Vec::new();
    let mut cur = String::new();
    let mut i: usize = 0;
    while i < n
        invariant
            n == key@.len(),
            i <= n,
            parts.deep_view().push(cur@) == split_open(key@.subrange(0, i as int)),
        decreases n - i,
    {
        let c = key.get_char(i);
        let ghost before = key@.subrange(0, i as int);
        assert(key@.subrange(0, i + 1).drop_last() == before);
        if c == '[' {
            let done = cur;
            parts.push(done);
            cur = String::new();
            assert(parts.deep_view().push(cur@) =~= split_open(before).push(seq![]));
        } else {
            push_char(&mut cur, c);
            assert(parts.deep_view().push(cur@) =~= split_open(before).update(
                split_open(before).len() - 1,
                split_open(before).last().push(c),
            ));
        }
        i = i + 1;
    }
    assert(key@.subrange(0, n as int) == key@);
    parts.push(cur);
    let ghost all = parts.deep_view();
    assert(all == split_open(key@));
    let mut segs: Vec<String> = Vec::new();
    let mut k: usize = 0;
    while k < parts.len()
        invariant
            all == parts.deep_view(),
            all == split_open(key@),
            k <= parts.len(),
            forall|m: int| 1 <= m < k ==> (#[trigger] all[m]).len() > 0 && all[m].last() == ']',
            segs.deep_view() == Seq::new(
                k as nat,
                |m: int| if m == 0 { all[m] } else { all[m].drop_last() },
            ),
        decreases parts.len() - k,
    {
        let piece = parts[k].as_str();
        assert(piece@ == all[k as int]);
        let ghost done = segs.deep_view();
        if k == 0 {
            segs.push(String::from_str(piece));
        } else {
            let len = piece.unicode_len();
            if len == 0 || piece.get_char(len - 1) != ']' {
                assert(!(all[k as int].len() > 0 && all[k as int].last() == ']'));
                assert(!pieces_closed(all));
                return Err(ParamError::MalformedKey);
            }
            let mut s = String::new();
            let mut m: usize = 0;
            while m < len - 1
                invariant
                    len == piece@.len(),
                    len > 0,
                    m <= len - 1,
                    s@ == piece@.subrange(0, m as int),
                decreases len - 1 - m,
            {
                push_char(&mut s, piece.get_char(m));
                m = m + 1;
                assert(s@ =~= piece@.subrange(0, m as int));
            }
            assert(s@ =~= piece@.drop_last());
            segs.push(s);
        }
        assert(segs.deep_view() == done.push(
            if k == 0 { all[k as int] } else { all[k as int].drop_last() },
        ));
        k = k + 1;
        assert(segs.deep_view() =~= Seq::new(
            k as nat,
            |m: int| if m == 0 { all[m] } else { all[m].drop_last() },
        ));
    }
    assert(pieces_closed(all));
    assert(segs.deep_view() =~= key_path(key@)->Some_0);
    Ok(segs)
}

fn digit_value(c: char) -> (r: Option<u64>)
    ensures
        is_digit(c) ==> r == Some((c as nat - '0' as nat) as u64),
        !is_digit(c) ==> r is None,
{
    if '0' <= c && c <= '9' {
        Some((c as u32 - '0' as u32) as u64)
    } else {
        None
    }
}

/// Reads `s` as an unsigned number no larger than `max`, as `str::parse`
/// reads an unsigned integer type whose largest value is `max`.
pub fn parse_number(s: &str, max: u64) -> (r: Option<u64>)
    ensures
        match bounded_value(s@, max as nat) {
            Some(v) => r == Some(v as u64),
            None => r is None,
        },
{
    let n = s.unicode_len();
    let start: usize = if n > 0 && s.get_char(0) == '+' {
        1
    } else {
        0
    };
    let ghost d = number_digits(s@);
    assert(d == s@.subrange(start as int, n as int));
    if start == n {
        assert(d.len() == 0);
        assert(bounded_value(s@, max as nat) is None);
        return None;
    }
    let mut value: u64 = 0;
    let mut i: usize = start;
    while i < n
        invariant
            n == s@.len(),
            start <= i <= n,
            start < n,
            d == number_digits(s@),
            d == s@.subrange(start as int, n as int),
            forall|m: int| 0 <= m < i - start ==> is_digit(#[trigger] d[m]),
            value as nat == digits_value(d.subrange(0, i - start)),
            value <= max,
        decreases n - i,
    {
        let c = s.get_char(i);
        assert(c == d[i - start]);
        match digit_value(c) {
            None => {
                assert(!is_digit(d[i - start]));
                assert(bounded_value(s@, max as nat) is None);
                return None;
            },
            Some(v) => {
                let ghost prev = d.subrange(0, i - start);
                let ghost next = d.subrange(0, i + 1 - start);
                assert(next.drop_last() == prev);
                assert(digits_value(next) == digits_value(prev) * 10 + v);
                if v > max || value > (max - v) / 10 {
                    proof {
                        assert(forall|m: int| 0 <= m < i + 1 - start ==> is_digit(#[trigger] d[m]));
                        assert(digits_value(next) > max) by (nonlinear_arith)
                            requires
                                v > max || value > (max - v) / 10,
                                digits_value(next) == value * 10 + v,
                                v <= 9,
                        ;
                        if forall|m: int| 0 <= m < d.len() ==> is_digit(#[trigger] d[m]) {
                            lemma_digits_value_grows(d, i + 1 - start);
                        }
                    }
                    return None;
                }
                assert(value * 10 + v <= max) by (nonlinear_arith)
                    requires
                        value <= (max - v) / 10,
                        v <= max,
                ;
                value = value * 10 + v;
            },
        }
        i = i + 1;
    }
    assert(d.subrange(0, n - start) == d);
    Some(value)
}

/// Reads `s` as an index, as `str::parse::<usize>` reads it.
pub fn parse_index(s: &str) -> (r: Option<usize>)
    ensures
        match index_value(s@) {
            Some(v) => r == Some(v as usize),
            None => r is None,
        },
{
    match parse_number(s, usize::MAX as u64) {
        Some(v) => Some(v as usize),
        None => None,
    }
}

/// Reads `s` as a `u32`, as `str::parse::<u32>` reads it.
pub fn parse_u32(s: &str) -> (r: Option<u32>)
    ensures
        match bounded_value(s@, u32::MAX as nat) {
            Some(v) => r == Some(v as u32),
            None => r is None,
        },
{
    match parse_number(s, u32::MAX as u64) {
        Some(v) => Some(v as u32),
        None => None,
    }
}

/// A leaf of the parameter tree.
#[derive(Debug)]
pub enum Leaf {
    /// The value of a key given once.
    Value(String),
    /// The values of an indexed key, by index.
    Values(Vec<String>),
}

pub open spec fn leaf_view(l: Leaf) -> LeafView {
    match l {
        Leaf::Value(s) => LeafView::Value(s@),
        Leaf::Values(vs) => LeafView::Values(vs.deep_view()),
    }
}

pub open spec fn table_view(es: Seq<(Vec<String>, Leaf)>) -> Table {
    Seq::new(es.len(), |i: int| (es[i].0.deep_view(), leaf_view(es[i].1)))
}

/// `a` is a proper prefix of `b`: `a` names an inner node above `b`.
pub open spec fn is_proper_prefix(a: Path, b: Path) -> bool {
    a.len() < b.len() && b.subrange(0, a.len() as int) == a
}

/// Some leaf of `t` lies strictly above `p`.
pub open spec fn has_ancestor(t: Table, p: Path) -> bool {
    exists|i: int| 0 <= i < t.len() && is_proper_prefix(#[trigger] t[i].0, p)
}

/// Some leaf of `t` lies strictly below `p`.
pub open spec fn has_descendant(t: Table, p: Path) -> bool {
    exists|i: int| 0 <= i < t.len() && is_proper_prefix(p, #[trigger] t[i].0)
}

/// The first of the first `n` leaves of `t` at `p`.
pub open spec fn first_position(t: Table, p: Path, n: nat) -> Option<int>
    decreases n,
{
    if n == 0 || n > t.len() {
        None
    } else {
        match first_position(t, p, (n - 1) as nat) {
            Some(i) => Some(i),
            None => if t[n - 1].0 == p {
                Some(n - 1)
            } else {
                None
            },
        }
    }
}

proof fn lemma_first_position_bounds(t: Table, p: Path, n: nat)
    ensures
        first_position(t, p, n) matches Some(i) ==> 0 <= i < n && i < t.len() && t[i].0 == p,
    decreases n,
{
    if n > 0 {
        lemma_first_position_bounds(t, p, (n - 1) as nat);
    }
}

/// The leaf at `p`, if there is one.
pub open spec fn lookup(t: Table, p: Path) -> Option<LeafView> {
    match first_position(t, p, t.len()) {
        Some(i) => Some(t[i].1),
        None => None,
    }
}

/// No leaf path is empty, and no leaf path equals or lies above another:
/// each node of the tree is a leaf or an inner node, never both.
pub open spec fn table_wf(t: Table) -> bool {
    &&& forall|i: int| 0 <= i < t.len() ==> (#[trigger] t[i]).0.len() > 0
    &&& forall|i: int, k: int|
        0 <= i < t.len() && 0 <= k < t.len() && i != k ==> (#[trigger] t[i]).0 != (#[trigger] t[k]).0
            && !is_proper_prefix(t[i].0, t[k].0)
}

proof fn lemma_no_first_position(t: Table, p: Path, n: nat)
    requires
        n <= t.len(),
        first_position(t, p, n) is None,
    ensures
        forall|i: int| 0 <= i < n ==> (#[trigger] t[i]).0 != p,
    decreases n,
{
    if n > 0 {
        lemma_no_first_position(t, p, (n - 1) as nat);
    }
}

pub proof fn lemma_split_open_nonempty(s: Seq<char>)
    ensures
        split_open(s).len() > 0,
    decreases s.len(),
{
    if s.len() > 0 {
        lemma_split_open_nonempty(s.drop_last());
    }
}

/// Adding a parameter keeps the table well formed.
pub proof fn lemma_insert_keeps_wf(t: Table, key: Seq<char>, value: Seq<char>)
    requires
        table_wf(t),
    ensures
        insert_spec(t, key, value) matches Ok(t2) ==> table_wf(t2),
{
    lemma_split_open_nonempty(key);
    match key_path(key) {
        None => {},
        Some(segs) => {
            assert(segs.len() > 0);
            match first_index_from(segs, 1) {
                Some(j) => {
                    lemma_first_index_bounds(segs, 1);
                    let base = segs.subrange(0, j as int);
                    lemma_first_position_bounds(t, base, t.len());
                    if first_position(t, base, t.len()) is None {
                        lemma_no_first_position(t, base, t.len());
                    }
                    if let Ok(t2) = insert_spec(t, key, value) {
                        assert forall|i: int, k: int|
                            0 <= i < t2.len() && 0 <= k < t2.len() && i != k implies (#[trigger] t2[i]).0
                                != (#[trigger] t2[k]).0 && !is_proper_prefix(t2[i].0, t2[k].0) by {
                            if i < t.len() && k < t.len() {
                                assert(t2[i].0 == t[i].0 && t2[k].0 == t[k].0);
                            }
                        }
                    }
                },
                None => {
                    lemma_first_position_bounds(t, segs, t.len());
                    if first_position(t, segs, t.len()) is None {
                        lemma_no_first_position(t, segs, t.len());
                    }
                },
            }
        },
    }
}

/// The first segment at or after `k` that reads as an index.
pub open spec fn first_index_from(segs: Path, k: nat) -> Option<nat>
    decreases segs.len() - k,
{
    if k >= segs.len() {
        None
    } else if index_value(segs[k as int]) is Some {
        Some(k)
    } else {
        first_index_from(segs, k + 1)
    }
}

/// What adding `key=value` does to the table `t`. Below the key's first
/// segment, the first segment that reads as an index ends the key: the
/// value goes to the list of the segments before it, at that index, which
/// must be the list's next one. A key with no index segment gets its own
/// leaf, which no other leaf may share, lie above, or lie below.
pub open spec fn insert_spec(t: Table, key: Seq<char>, value: Seq<char>) -> Result<Table, ParamError> {
    match key_path(key) {
        None => Err(ParamError::MalformedKey),
        Some(segs) => match first_index_from(segs, 1) {
            Some(j) => {
                let base = segs.subrange(0, j as int);
                let index = index_value(segs[j as int])->Some_0;
                if has_ancestor(t, base) {
                    Err(ParamError::InvalidParameters)
                } else if has_descendant(t, base) {
                    Err(ParamError::InconsistentHierarchy)
                } else {
                    match first_position(t, base, t.len()) {
                        Some(i) => match t[i].1 {
                            LeafView::Value(_) => Err(ParamError::InconsistentHierarchy),
                            LeafView::Values(vs) => if j + 1 != segs.len() {
                                Err(ParamError::IndexNotLast)
                            } else if vs.len() != index {
                                Err(ParamError::IndexOutOfOrder)
                            } else {
                                Ok(t.update(i, (base, LeafView::Values(vs.push(value)))))
                            },
                        },
                        None => if j + 1 != segs.len() {
                            Err(ParamError::IndexNotLast)
                        } else if index != 0 {
                            Err(ParamError::IndexOutOfOrder)
                        } else {
                            Ok(t.push((base, LeafView::Values(seq![value]))))
                        },
                    }
                }
            },
            None => if has_ancestor(t, segs) {
                Err(ParamError::InvalidParameters)
            } else if has_descendant(t, segs) || first_position(t, segs, t.len()) is Some {
                Err(ParamError::DuplicateKey)
            } else {
                Ok(t.push((segs, LeafView::Value(value))))
            },
        },
    }
}

/// The first `n` segments of `a` and of `b` agree.
fn same_segments(a: &Vec<String>, b: &Vec<String>, n: usize) -> (r: bool)
    requires
        n <= a.len(),
        n <= b.len(),
    ensures
        r == (a.deep_view().subrange(0, n as int) == b.deep_view().subrange(0, n as int)),
{
    let mut i: usize = 0;
    while i < n
        invariant
            n <= a.len(),
            n <= b.len(),
            i <= n,
            a.deep_view().subrange(0, i as int) == b.deep_view().subrange(0, i as int),
        decreases n - i,
    {
        if a[i] != b[i] {
            assert(a.deep_view().subrange(0, n as int)[i as int] != b.deep_view().subrange(0, n as int)[i as int]);
            return false;
        }
        i = i + 1;
        assert(a.deep_view().subrange(0, i as int) =~= b.deep_view().subrange(0, i as int));
    }
    true
}

fn same_path(a: &Vec<String>, b: &Vec<String>) -> (r: bool)
    ensures
        r == (a.deep_view() == b.deep_view()),
{
    if a.len() != b.len() {
        return false;
    }
    let r = same_segments(a, b, a.len());
    assert(a.deep_view().subrange(0, a.len() as int) == a.deep_view());
    assert(b.deep_view().subrange(0, b.len() as int) == b.deep_view());
    r
}

fn proper_prefix(a: &Vec<String>, b: &Vec<String>) -> (r: bool)
    ensures
        r == is_proper_prefix(a.deep_view(), b.deep_view()),
{
    if a.len() >= b.len() {
        return false;
    }
    let r = same_segments(a, b, a.len());
    assert(a.deep_view().subrange(0, a.len() as int) == a.deep_view());
    r
}

/// The first `n` segments of `segs`, copied.
fn path_prefix(segs: &Vec<String>, n: usize) -> (r: Vec<String>)
    requires
        n <= segs.len(),
    ensures
        r.deep_view() == segs.deep_view().subrange(0, n as int),
{
    let mut r: Vec<String> = Vec::new();
    let mut i: usize = 0;
    while i < n
        invariant
            n <= segs.len(),
            i <= n,
            r.deep_view() == segs.deep_view().subrange(0, i as int),
        decreases n - i,
    {
        let seg: &String = &segs[i];
        let c: String = seg.clone();
        assert(c@ == segs.deep_view()[i as int]);
        let ghost before = r.deep_view();
        r.push(c);
        assert(r.deep_view() =~= before.push(c@));
        i = i + 1;
        assert(r.deep_view() =~= segs.deep_view().subrange(0, i as int));
    }
    r
}

proof fn lemma_first_index_bounds(segs: Path, k: nat)
    ensures
        first_index_from(segs, k) matches Some(j) ==> k <= j < segs.len() && index_value(
            segs[j as int],
        ) is Some,
    decreases segs.len() - k,
{
    if k < segs.len() && index_value(segs[k as int]) is None {
        lemma_first_index_bounds(segs, k + 1);
    }
}

/// The position and value of the first segment after the first that reads
/// as an index.
fn first_index(segs: &Vec<String>) -> (r: Option<(usize, usize)>)
    ensures
        r matches Some((j, _)) ==> 1 <= j < segs.len(),
        match first_index_from(segs.deep_view(), 1) {
            Some(j) => r == Some((j as usize, index_value(segs.deep_view()[j as int])->Some_0 as usize)),
            None => r is None,
        },
{
    proof {
        lemma_first_index_bounds(segs.deep_view(), 1);
    }
    let mut k: usize = 1;
    while k < segs.len()
        invariant
            1 <= k,
            first_index_from(segs.deep_view(), 1) == first_index_from(segs.deep_view(), k as nat),
        decreases segs.len() - k,
    {
        match parse_index(segs[k].as_str()) {
            Some(v) => {
                return Some((k, v));
            },
            None => {},
        }
        k = k + 1;
    }
    None
}

/// The path that a list of key segments names.
pub open spec fn strs_path(key: Seq<&str>) -> Path {
    Seq::new(key.len(), |i: int| key[i]@)
}

fn to_path(key: &[&str]) -> (r: Vec<String>)
    ensures
        r.deep_view() == strs_path(key@),
{
    let mut r: Vec<String> = Vec::new();
    let mut i: usize = 0;
    while i < key.len()
        invariant
            i <= key@.len(),
            r.deep_view() == strs_path(key@).subrange(0, i as int),
        decreases key@.len() - i,
    {
        let ghost before = r.deep_view();
        let seg: &str = key[i];
        assert(seg == key@[i as int]);
        let owned = String::from_str(seg);
        r.push(owned);
        assert(r.deep_view() =~= before.push(seg@));
        i = i + 1;
        assert(r.deep_view() =~= strs_path(key@).subrange(0, i as int));
    }
    assert(strs_path(key@).subrange(0, key@.len() as int) == strs_path(key@));
    r
}

/// Decoded form parameters: a tree of keys whose leaves hold one value or
/// an indexed list of values.
#[derive(Debug)]
pub struct Params {
    entries: Vec<(Vec<String>, Leaf)>,
}

impl View for Params {
    type V = Table;

    open spec fn view(&self) -> Table {
        self.table()
    }
}

impl Params {
    /// The table of leaves.
    pub closed spec fn table(&self) -> Table {
        table_view(self.entries@)
    }

    /// What holds of every leaf and the path before it, compared with the
    /// table so far.
    fn scan(&self, path: &Vec<String>) -> (r: (bool, bool, Option<usize>))
        ensures
            r.0 == has_ancestor(self@, path.deep_view()),
            r.1 == has_descendant(self@, path.deep_view()),
            match first_position(self@, path.deep_view(), self@.len()) {
                Some(i) => r.2 == Some(i as usize),
                None => r.2 is None,
            },
            r.2 matches Some(i) ==> i < self.entries.len() && self@[i as int].0 == path.deep_view()
                && first_position(self@, path.deep_view(), self@.len()) == Some(i as int),
    {
        proof {
            lemma_first_position_bounds(self@, path.deep_view(), self@.len());
        }
        let ghost t = self@;
        let ghost p = path.deep_view();
        let mut ancestor = false;
        let mut descendant = false;
        let mut position: Option<usize> = None;
        let mut i: usize = 0;
        while i < self.entries.len()
            invariant
                t == self@,
                t.len() == self.entries.len(),
                p == path.deep_view(),
                i <= t.len(),
                ancestor == exists|m: int| 0 <= m < i && is_proper_prefix(#[trigger] t[m].0, p),
                descendant == exists|m: int| 0 <= m < i && is_proper_prefix(p, #[trigger] t[m].0),
                match first_position(t, p, i as nat) {
                    Some(m) => position == Some(m as usize),
                    None => position is None,
                },
            decreases t.len() - i,
        {
            let leaf_path = &self.entries[i].0;
            assert(t == table_view(self.entries@));
            assert(leaf_path.deep_view() == t[i as int].0);
            if proper_prefix(leaf_path, path) {
                ancestor = true;
            }
            if proper_prefix(path, leaf_path) {
                descendant = true;
            }
            if position.is_none() && same_path(leaf_path, path) {
                position = Some(i);
            }
            i = i + 1;
        }
        (ancestor, descendant, position)
    }

    /// The table is well formed.
    pub open spec fn wf(&self) -> bool {
        table_wf(self@)
    }

    /// No parameters.
    pub fn empty() -> (r: Params)
        ensures
            r.wf(),
            r@ == Seq::<(Path, LeafView)>::empty(),
    {
        let r = Params { entries: Vec::new() };
        assert(r.table() =~= Seq::<(Path, LeafView)>::empty());
        r
    }

    /// Adds the parameter `key=value`, as `insert_spec` says. On an error
    /// the parameters are left as they were.
    pub fn insert_key_value(&mut self, key: &str, value: &str) -> (r: Result<(), ParamError>)
        requires
            old(self).wf(),
        ensures
            final(self).wf(),
            match insert_spec(old(self)@, key@, value@) {
                Ok(t) => r is Ok && final(self)@ == t,
                Err(e) => r == Err::<(), ParamError>(e) && final(self)@ == old(self)@,
            },
    {
        proof {
            lemma_insert_keeps_wf(self@, key@, value@);
        }
        let segs = match split_key(key) {
            Ok(segs) => segs,
            Err(e) => {
                return Err(e);
            },
        };
        let ghost t = self@;
        match first_index(&segs) {
            Some((j, index)) => {
                proof {
                    lemma_first_index_bounds(segs.deep_view(), 1);
                    assert(key_path(key@) == Some(segs.deep_view()));
                    assert(first_index_from(segs.deep_view(), 1) == Some(j as nat));
                    assert(index_value(segs.deep_view()[j as int]) == Some(index as nat));
                }
                let base = path_prefix(&segs, j);
                let (ancestor, descendant, position) = self.scan(&base);
                if ancestor {
                    return Err(ParamError::InvalidParameters);
                }
                if descendant {
                    return Err(ParamError::InconsistentHierarchy);
                }
                match position {
                    Some(i) => {
                        let ghost before = self.entries@;
                        assert(t[i as int] == (before[i as int].0.deep_view(), leaf_view(before[i as int].1)));
                        let count: Option<usize> = match &self.entries[i].1 {
                            Leaf::Value(_) => None,
                            Leaf::Values(vs) => Some(vs.len()),
                        };
                        let len = match count {
                            None => {
                                return Err(ParamError::InconsistentHierarchy);
                            },
                            Some(len) => len,
                        };
                        if j + 1 != segs.len() {
                            return Err(ParamError::IndexNotLast);
                        }
                        if len != index {
                            return Err(ParamError::IndexOutOfOrder);
                        }
                        let (p, leaf) = self.entries.remove(i);
                        assert((p, leaf) == before[i as int]);
                        match leaf {
                            Leaf::Value(v) => {
                                // Not reached: the leaf was found to hold values above.
                                self.entries.insert(i, (p, Leaf::Value(v)));
                                Ok(())
                            },
                            Leaf::Values(mut vs) => {
                                let ghost old_vs = vs.deep_view();
                                vs.push(String::from_str(value));
                                assert(vs.deep_view() =~= old_vs.push(value@));
                                self.entries.insert(i, (p, Leaf::Values(vs)));
                                assert(self.entries@ =~= before.update(
                                    i as int,
                                    (p, Leaf::Values(vs)),
                                ));
                                assert(self@ =~= t.update(
                                    i as int,
                                    (base.deep_view(), LeafView::Values(old_vs.push(value@))),
                                ));
                                Ok(())
                            },
                        }
                    },
                    None => {
                        if j + 1 != segs.len() {
                            return Err(ParamError::IndexNotLast);
                        }
                        if index != 0 {
                            return Err(ParamError::IndexOutOfOrder);
                        }
                        let mut vs: Vec<String> = Vec::new();
                        vs.push(String::from_str(value));
                        assert(vs.deep_view() =~= seq![value@]);
                        self.entries.push((base, Leaf::Values(vs)));
                        assert(self@ =~= t.push((base.deep_view(), LeafView::Values(seq![value@]))));
                        Ok(())
                    },
                }
            },
            None => {
                assert(key_path(key@) == Some(segs.deep_view()));
                assert(first_index_from(segs.deep_view(), 1) is None);
                let (ancestor, descendant, position) = self.scan(&segs);
                if ancestor {
                    return Err(ParamError::InvalidParameters);
                }
                if descendant || position.is_some() {
                    return Err(ParamError::DuplicateKey);
                }
                let ghost path = segs.deep_view();
                self.entries.push((segs, Leaf::Value(String::from_str(value))));
                assert(self@ =~= t.push((path, LeafView::Value(value@))));
                Ok(())
            },
        }
    }
}

/// What adding the first `n` of `pairs`, in order, to no parameters gives;
/// the first error stops it.
pub open spec fn build_spec(pairs: Seq<(Seq<char>, Seq<char>)>, n: nat) -> Result<Table, ParamError>
    decreases n,
{
    if n == 0 || n > pairs.len() {
        Ok(seq![])
    } else {
        match build_spec(pairs, (n - 1) as nat) {
            Err(e) => Err(e),
            Ok(t) => insert_spec(t, pairs[n - 1].0, pairs[n - 1].1),
        }
    }
}

pub proof fn lemma_build_error_kept(pairs: Seq<(Seq<char>, Seq<char>)>, k: nat, n: nat)
    requires
        k <= n <= pairs.len(),
        build_spec(pairs, k) is Err,
    ensures
        build_spec(pairs, n) == build_spec(pairs, k),
    decreases n - k,
{
    if n > k {
        lemma_build_error_kept(pairs, k, (n - 1) as nat);
    }
}

/// The pairs that `form_urlencoded::parse` reads from a form body.
pub uninterp spec fn form_decode(body: Seq<u8>) -> Seq<(Seq<char>, Seq<char>)>;

/// Relies on `form_urlencoded::parse`: the decoded pairs depend on the
/// bytes alone, and an empty body has none.
#[verifier::external_body]
fn form_pairs(body: &[u8]) -> (r: Vec<(String, String)>)
    ensures
        r.deep_view() == form_decode(body@),
        body@.len() == 0 ==> r@.len() == 0,
{
    form_urlencoded::parse(body).into_owned().collect()
}

impl Params {
    /// Builds the parameters from decoded pairs, in order.
    pub fn from_pairs(pairs: &Vec<(String, String)>) -> (r: Result<Params, ParamError>)
        ensures
            r matches Ok(p) ==> p.wf(),
            match build_spec(pairs.deep_view(), pairs.len() as nat) {
                Ok(t) => r is Ok && r->Ok_0@ == t,
                Err(e) => r == Err::<Params, ParamError>(e),
            },
    {
        let ghost dv = pairs.deep_view();
        let mut this = Params::empty();
        let mut i: usize = 0;
        while i < pairs.len()
            invariant
                dv == pairs.deep_view(),
                i <= pairs.len(),
                this.wf(),
                build_spec(dv, i as nat) == Ok::<Table, ParamError>(this@),
            decreases pairs.len() - i,
        {
            let res = this.insert_key_value(pairs[i].0.as_str(), pairs[i].1.as_str());
            if let Err(e) = res {
                proof {
                    lemma_build_error_kept(dv, (i + 1) as nat, pairs.len() as nat);
                }
                return Err(e);
            }
            i = i + 1;
        }
        Ok(this)
    }

    /// Decodes a form body (`a=1&b[c]=2&d[0]=3`) into parameters.
    pub fn new(input: &[u8]) -> (r: Result<Params, ParamError>)
        ensures
            r matches Ok(p) ==> p.wf(),
            match build_spec(form_decode(input@), form_decode(input@).len()) {
                Ok(t) => r is Ok && r->Ok_0@ == t,
                Err(e) => r == Err::<Params, ParamError>(e),
            },
    {
        let pairs = form_pairs(input);
        Params::from_pairs(&pairs)
    }

    /// The leaf at the path `key`, if there is one.
    fn do_get(&self, key: &[&str]) -> (r: Option<&Leaf>)
        ensures
            match lookup(self@, strs_path(key@)) {
                Some(l) => r is Some && leaf_view(*r->Some_0) == l,
                None => r is None,
            },
    {
        let path = to_path(key);
        let (_, _, position) = self.scan(&path);
        match position {
            Some(i) => {
                assert(self@[i as int].1 == leaf_view(self.entries@[i as int].1));
                Some(&self.entries[i].1)
            },
            None => None,
        }
    }

    /// The single value at the path `key` (`["a", "b"]` for `a[b]=v`).
    pub fn get(&self, key: &[&str]) -> (r: Option<&str>)
        ensures
            match lookup(self@, strs_path(key@)) {
                Some(LeafView::Value(s)) => r is Some && r->Some_0@ == s,
                _ => r is None,
            },
    {
        match self.do_get(key) {
            Some(Leaf::Value(s)) => Some(s.as_str()),
            _ => None,
        }
    }

    /// The indexed values at the path `key` (`["a"]` for `a[0]=v`), in
    /// index order.
    pub fn get_values(&self, key: &[&str]) -> (r: Option<&Vec<String>>)
        ensures
            match lookup(self@, strs_path(key@)) {
                Some(LeafView::Values(vs)) => r is Some && r->Some_0.deep_view() == vs,
                _ => r is None,
            },
    {
        match self.do_get(key) {
            Some(Leaf::Values(vs)) => Some(vs),
            _ => None,
        }
    }
}

} // verus!
