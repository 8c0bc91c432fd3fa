//! Round trips through the form decoder: what the encoder emits, the
//! decoder reads back as the value it came from.

use vstd::prelude::*;
use crate::encode::{compose_key, encode_fields, encode_spec, Pairs};
use crate::laws::{bracketed, indexed_pairs, lemma_scalar_items, scalar_text};
use crate::params::{
    build_spec, digits_value, first_index_from, first_position, has_ancestor, has_descendant,
    number_digits, index_value, insert_spec, is_digit, key_path, split_open, LeafView, ParamError,
    Table,
};
use crate::text::{decimal, digit_char};
use crate::value::{EncodeError, Value};

verus! {

/// `s` holds no `[`, so it reads back as one key segment.
pub open spec fn plain_name(s: Seq<char>) -> bool {
    forall|i: int| 0 <= i < s.len() ==> s[i] != '['
}

proof fn lemma_split_plain(s: Seq<char>)
    requires
        plain_name(s),
    ensures
        split_open(s) == seq![s],
    decreases s.len(),
{
    if s.len() > 0 {
        let t = s.drop_last();
        assert(plain_name(t));
        lemma_split_plain(t);
        assert(s.last() != '[');
        assert(t.push(s.last()) =~= s);
        assert(seq![t].update(0, t.push(s.last())) =~= seq![s]);
    } else {
        assert(s =~= Seq::<char>::empty());
    }
}

proof fn lemma_plain_key_path(s: Seq<char>)
    requires
        plain_name(s),
    ensures
        key_path(s) == Some(seq![s]),
        first_index_from(seq![s], 1) is None,
{
    lemma_split_plain(s);
    let parts = split_open(s);
    assert(Seq::new(parts.len(), |i: int| if i == 0 { parts[i] } else { parts[i].drop_last() })
        =~= seq![s]);
}

proof fn lemma_no_position(t: Table, p: Seq<Seq<char>>, n: nat)
    requires
        n <= t.len(),
        forall|i: int| 0 <= i < n ==> (#[trigger] t[i]).0 != p,
    ensures
        first_position(t, p, n) is None,
    decreases n,
{
    if n > 0 {
        lemma_no_position(t, p, (n - 1) as nat);
    }
}

proof fn lemma_digit_char(k: nat)
    requires
        k < 10,
    ensures
        is_digit(digit_char(k)),
        digit_char(k) as nat - '0' as nat == k,
{
    if k == 0 {
    } else if k == 1 {
    } else if k == 2 {
    } else if k == 3 {
    } else if k == 4 {
    } else if k == 5 {
    } else if k == 6 {
    } else if k == 7 {
    } else if k == 8 {
    } else {
        assert(k == 9);
    }
}

proof fn lemma_decimal_digits(n: nat)
    ensures
        decimal(n).len() > 0,
        forall|i: int| 0 <= i < decimal(n).len() ==> is_digit(#[trigger] decimal(n)[i]),
        digits_value(decimal(n)) == n,
    decreases n,
{
    lemma_digit_char(n % 10);
    if n >= 10 {
        lemma_decimal_digits(n / 10);
        let d = decimal(n);
        assert(d.drop_last() == decimal(n / 10));
        vstd::arithmetic::div_mod::lemma_fundamental_div_mod(n as int, 10);
        assert(forall|i: int| 0 <= i < d.len() - 1 ==> d[i] == decimal(n / 10)[i]);
        assert(d.last() == digit_char(n % 10));
        assert(digits_value(d) == digits_value(decimal(n / 10)) * 10 + (n % 10));
    } else {
        let d = decimal(n);
        assert(d.drop_last() =~= Seq::<char>::empty());
        assert(digits_value(d.drop_last()) == 0);
        assert(d.last() == digit_char(n));
        assert(digits_value(d) == n);
    }
}

/// The decimal text of an index reads back as that index.
proof fn lemma_decimal_reads_back(n: nat)
    requires
        n <= usize::MAX,
    ensures
        index_value(decimal(n)) == Some(n),
        plain_name(decimal(n)),
{
    lemma_decimal_digits(n);
    let d = decimal(n);
    assert(is_digit(d[0]));
    assert(number_digits(d) == d);
    assert forall|i: int| 0 <= i < d.len() implies d[i] != '[' by {
        assert(is_digit(d[i]));
    }
}

proof fn lemma_split_plain_tail(a: Seq<char>, b: Seq<char>)
    requires
        plain_name(b),
    ensures
        split_open(a + b) == split_open(a).update(
            split_open(a).len() - 1,
            split_open(a).last() + b,
        ),
    decreases b.len(),
{
    crate::params::lemma_split_open_nonempty(a);
    if b.len() == 0 {
        assert(a + b =~= a);
        assert(split_open(a).last() + b =~= split_open(a).last());
        assert(split_open(a).update(split_open(a).len() - 1, split_open(a).last()) =~= split_open(
            a,
        ));
    } else {
        let c = b.drop_last();
        assert(plain_name(c));
        lemma_split_plain_tail(a, c);
        assert((a + b).drop_last() =~= a + c);
        assert(b.last() != '[');
        assert((split_open(a).last() + c).push(b.last()) =~= split_open(a).last() + b);
        assert(split_open(a + b) =~= split_open(a).update(
            split_open(a).len() - 1,
            split_open(a).last() + b,
        ));
    }
}

/// `name[d]` reads back as the two segments `name` and `d`.
proof fn lemma_bracketed_key_path(name: Seq<char>, d: Seq<char>)
    requires
        plain_name(name),
        plain_name(d),
    ensures
        key_path(bracketed(name, d)) == Some(seq![name, d]),
{
    lemma_split_plain(name);
    let open = name + seq!['['];
    assert(open.drop_last() =~= name);
    assert(split_open(open) =~= seq![name, seq![]]);
    let tail = d + seq![']'];
    assert(plain_name(tail));
    lemma_split_plain_tail(open, tail);
    assert(bracketed(name, d) =~= open + tail);
    assert(Seq::<char>::empty() + tail =~= tail);
    let parts = split_open(bracketed(name, d));
    assert(parts =~= seq![name, tail]);
    assert(tail.drop_last() =~= d);
    assert(Seq::new(parts.len(), |i: int| if i == 0 { parts[i] } else { parts[i].drop_last() })
        =~= seq![name, d]);
}

/// The decoded table of one list of strings under `name`: one leaf of
/// all of them, in order, or nothing for an empty list.
pub open spec fn string_list_table(name: Seq<char>, items: Seq<Value>) -> Table {
    if items.len() == 0 {
        seq![]
    } else {
        seq![(seq![name], LeafView::Values(Seq::new(items.len(), |i: int| items[i]->Str_0@)))]
    }
}

/// Adds the first `k` of `pairs`, in order, to the table `t`; the first
/// error stops it.
pub open spec fn build_onto(t: Table, pairs: Pairs, k: nat) -> Result<Table, ParamError>
    decreases k,
{
    if k == 0 || k > pairs.len() {
        Ok(t)
    } else {
        match build_onto(t, pairs, (k - 1) as nat) {
            Err(e) => Err(e),
            Ok(t2) => insert_spec(t2, pairs[k - 1].0, pairs[k - 1].1),
        }
    }
}

proof fn lemma_build_prefix(a: Pairs, b: Pairs, m: nat)
    requires
        m <= a.len(),
    ensures
        build_spec(a + b, m) == build_spec(a, m),
    decreases m,
{
    if m > 0 {
        lemma_build_prefix(a, b, (m - 1) as nat);
        assert((a + b)[m - 1] == a[m - 1]);
    }
}

proof fn lemma_build_concat(a: Pairs, b: Pairs, k: nat)
    requires
        k <= b.len(),
    ensures
        build_spec(a + b, a.len() + k) == match build_spec(a, a.len()) {
            Ok(t) => build_onto(t, b, k),
            Err(e) => Err(e),
        },
    decreases k,
{
    if k == 0 {
        lemma_build_prefix(a, b, a.len());
    } else {
        lemma_build_concat(a, b, (k - 1) as nat);
        assert((a + b)[a.len() + k - 1] == b[k - 1]);
    }
}

/// A field that reads back whole: a string, or a non-empty list of strings
/// under a non-empty name.
pub open spec fn round_trip_field(name: Seq<char>, v: Value) -> bool {
    plain_name(name) && (v is Str || (v matches Value::Sequence(items) && name.len() > 0
        && 0 < items.len() <= usize::MAX && forall|i: int|
        0 <= i < items.len() ==> (#[trigger] items@[i]) is Str))
}

/// Fields that read back whole, with distinct names.
pub open spec fn round_trip_fields(fields: Seq<(String, Value)>) -> bool {
    &&& forall|i: int| 0 <= i < fields.len() ==> round_trip_field((#[trigger] fields[i]).0@, fields[i].1)
    &&& forall|i: int, j: int|
        0 <= i < fields.len() && 0 <= j < fields.len() && i != j ==> (#[trigger] fields[i]).0@
            != (#[trigger] fields[j]).0@
}

/// The leaf that a field reads back as: its string, or its list of
/// strings, under its name.
pub open spec fn field_leaf(name: Seq<char>, v: Value) -> (Seq<Seq<char>>, LeafView) {
    match v {
        Value::Sequence(items) => (
            seq![name],
            LeafView::Values(Seq::new(items.len() as nat, |i: int| items@[i]->Str_0@)),
        ),
        _ => (seq![name], LeafView::Value(v->Str_0@)),
    }
}

/// The table that fields read back as: one leaf per field, in order.
pub open spec fn fields_table(fields: Seq<(String, Value)>) -> Table {
    Seq::new(fields.len(), |i: int| field_leaf(fields[i].0@, fields[i].1))
}

/// Every leaf of `t` sits right below the root, and none under `name`.
pub open spec fn top_level_without(t: Table, name: Seq<char>) -> bool {
    forall|i: int| 0 <= i < t.len() ==> (#[trigger] t[i]).0.len() == 1 && t[i].0 != seq![name]
}

proof fn lemma_list_onto(t: Table, name: Seq<char>, items: Seq<Value>, pairs: Pairs, n: nat)
    requires
        top_level_without(t, name),
        plain_name(name),
        name.len() > 0,
        forall|i: int| 0 <= i < items.len() ==> (#[trigger] items[i]) is Str,
        items.len() <= usize::MAX,
        pairs.len() == items.len(),
        forall|i: int|
            0 <= i < pairs.len() ==> #[trigger] pairs[i] == (
                bracketed(name, decimal(i as nat)),
                items[i]->Str_0@,
            ),
        n <= items.len(),
    ensures
        build_onto(t, pairs, n) == Ok::<Table, ParamError>(
            t + string_list_table(name, items.subrange(0, n as int)),
        ),
    decreases n,
{
    if n == 0 {
        assert(t + string_list_table(name, items.subrange(0, 0)) =~= t);
    } else {
        let k = (n - 1) as int;
        lemma_list_onto(t, name, items, pairs, k as nat);
        let t1 = t + string_list_table(name, items.subrange(0, k));
        lemma_decimal_reads_back(k as nat);
        lemma_bracketed_key_path(name, decimal(k as nat));
        let segs = seq![name, decimal(k as nat)];
        assert(first_index_from(segs, 1) == Some(1nat));
        let base = segs.subrange(0, 1);
        assert(base =~= seq![name]);
        assert(pairs[k] == (bracketed(name, decimal(k as nat)), items[k]->Str_0@));
        let v = items[k]->Str_0@;
        assert forall|i: int| 0 <= i < t1.len() implies (#[trigger] t1[i]).0.len() == 1 by {
            if i >= t.len() {
                assert(t1[i].0 == seq![name]);
            }
        }
        assert(!has_ancestor(t1, base)) by {
            assert forall|i: int| 0 <= i < t1.len() implies !crate::params::is_proper_prefix(
                #[trigger] t1[i].0,
                base,
            ) by {
                if i < t.len() {
                    assert(t1[i] == t[i]);
                    assert(t[i].0.len() == 1);
                }
            }
        }
        assert(!has_descendant(t1, base)) by {
            assert forall|i: int| 0 <= i < t1.len() implies !crate::params::is_proper_prefix(
                base,
                #[trigger] t1[i].0,
            ) by {
                if i < t.len() {
                    assert(t1[i] == t[i]);
                }
            }
        }
        assert forall|i: int| 0 <= i < t.len() implies (#[trigger] t1[i]).0 != base by {
            assert(t1[i] == t[i]);
        }
        lemma_no_position(t1, base, t.len());
        if k == 0 {
            assert(t1 =~= t);
            assert(seq![v] =~= Seq::new(n, |i: int| items.subrange(0, n as int)[i]->Str_0@));
            assert(first_position(t1, base, t1.len()) is None);
            assert(t1.push((base, LeafView::Values(seq![v]))) =~= t + string_list_table(
                name,
                items.subrange(0, n as int),
            ));
        } else {
            let vs = Seq::new(k as nat, |i: int| items.subrange(0, k)[i]->Str_0@);
            assert(t1[t.len() as int] == (seq![name], LeafView::Values(vs)));
            assert(first_position(t1, base, t1.len()) == Some(t.len() as int));
            assert(vs.push(v) =~= Seq::new(n, |i: int| items.subrange(0, n as int)[i]->Str_0@));
            assert(t1.update(t.len() as int, (base, LeafView::Values(vs.push(v)))) =~= t
                + string_list_table(name, items.subrange(0, n as int)));
        }
    }
}

proof fn lemma_fields_round_trip(fields: Vec<(String, Value)>, n: nat)
    requires
        round_trip_fields(fields@),
        n <= fields.len(),
    ensures
        encode_fields(fields, seq![], n) matches Ok(pairs) && build_spec(pairs, pairs.len()) == Ok::<
            Table,
            ParamError,
        >(fields_table(fields@.subrange(0, n as int))),
    decreases n,
{
    let root: Seq<char> = seq![];
    if n == 0 {
        assert(fields_table(fields@.subrange(0, 0)) =~= Seq::<(Seq<Seq<char>>, LeafView)>::empty());
    } else {
        let k = (n - 1) as int;
        lemma_fields_round_trip(fields, k as nat);
        let prev = encode_fields(fields, root, k as nat)->Ok_0;
        let t = fields_table(fields@.subrange(0, k));
        let name = fields@[k].0@;
        let v = fields@[k].1;
        assert(round_trip_field(name, v));
        assert(compose_key(root, name) == name);
        assert forall|i: int| 0 <= i < t.len() implies (#[trigger] t[i]).0.len() == 1 && t[i].0 != seq![
            name,
        ] by {
            assert(fields@[i].0@ != fields@[k].0@);
            assert(t[i].0 == seq![fields@[i].0@]);
            assert(t[i].0[0] != seq![name][0]);
        }
        let target = fields_table(fields@.subrange(0, n as int));
        match v {
            Value::Sequence(items) => {
                assert forall|i: int| 0 <= i < items@.len() implies (#[trigger] scalar_text(
                    items@[i],
                )) is Some by {
                    assert(items@[i] is Str);
                }
                lemma_scalar_items(items, name, items.len() as nat);
                assert(items@.subrange(0, items.len() as int) == items@);
                let q = indexed_pairs(items@, name);
                assert(encode_spec(v, name) == Ok::<Pairs, EncodeError>(q));
                assert forall|i: int| 0 <= i < q.len() implies #[trigger] q[i] == (
                    bracketed(name, decimal(i as nat)),
                    items@[i]->Str_0@,
                ) by {
                    assert(items@[i] is Str);
                }
                lemma_build_concat(prev, q, q.len());
                lemma_list_onto(t, name, items@, q, items.len() as nat);
                assert(t + string_list_table(name, items@) =~= target);
            },
            _ => {
                let text = v->Str_0@;
                let q = seq![(name, text)];
                assert(encode_spec(v, name) == Ok::<Pairs, EncodeError>(q));
                lemma_build_concat(prev, q, 1);
                lemma_plain_key_path(name);
                let p = seq![name];
                assert(!has_ancestor(t, p));
                assert(!has_descendant(t, p));
                lemma_no_position(t, p, t.len());
                assert(build_onto(t, q, 0) == Ok::<Table, ParamError>(t));
                assert(insert_spec(t, name, text) == Ok::<Table, ParamError>(
                    t.push((p, LeafView::Value(text))),
                ));
                assert(t.push((p, LeafView::Value(text))) =~= target);
            },
        }
    }
}

/// Round trip through the form decoder: a struct whose fields are strings
/// or non-empty lists of strings, under distinct names free of `[`,
/// encodes to pairs that the decoder reads back as one leaf per field, in
/// field order: the string, or the list of strings in order.
pub proof fn fields_round_trip(fields: Vec<(String, Value)>)
    requires
        round_trip_fields(fields@),
    ensures
        encode_spec(Value::Struct(fields), seq![]) matches Ok(pairs) && build_spec(
            pairs,
            pairs.len(),
        ) == Ok::<Table, ParamError>(fields_table(fields@)),
{
    lemma_fields_round_trip(fields, fields.len() as nat);
    assert(fields@.subrange(0, fields.len() as int) == fields@);
}

} // verus!
