//! Laws of the nested form encoder, stated over its specification and
//! proved.

use vstd::prelude::*;
use crate::encode::{
    bool_text, compose_key, encode_entries, encode_fields, encode_items, encode_spec,
    key_segment, lemma_entries_error_kept, utf8_lossy, Pairs,
};
use crate::text::{decimal, int_text};
use crate::value::{EncodeError, KeyKind, Value};

verus! {

/// The text of a scalar leaf as the encoder emits it; `None` for any other
/// shape.
pub open spec fn scalar_text(v: Value) -> Option<Seq<char>> {
    match v {
        Value::Bool(b) => Some(bool_text(b)),
        Value::Int(n) => Some(int_text(n as int)),
        Value::UInt(n) => Some(decimal(n as nat)),
        Value::Char(c) => Some(seq![c]),
        Value::Str(s) => Some(s@),
        Value::Bytes(b) => Some(utf8_lossy(b@)),
        _ => None,
    }
}

/// Every element of `items` is a scalar leaf.
pub open spec fn all_scalars(items: Seq<Value>) -> bool {
    forall|i: int| 0 <= i < items.len() ==> (#[trigger] scalar_text(items[i])) is Some
}

/// The pairs of a sequence of scalars below `prefix`: element `i` under
/// `prefix[i]`.
pub open spec fn indexed_pairs(items: Seq<Value>, prefix: Seq<char>) -> Pairs {
    Seq::new(
        items.len(),
        |i: int| (compose_key(prefix, decimal(i as nat)), scalar_text(items[i])->Some_0),
    )
}

/// The pairs of scalar fields below `prefix`: each under `prefix[name]`.
pub open spec fn named_pairs(fields: Seq<(String, Value)>, prefix: Seq<char>) -> Pairs {
    Seq::new(
        fields.len(),
        |i: int| (compose_key(prefix, fields[i].0@), scalar_text(fields[i].1)->Some_0),
    )
}

/// A scalar leaf encodes to the one pair of its key and its text.
pub proof fn scalar_encodes_to_one_pair(v: Value, prefix: Seq<char>)
    requires
        scalar_text(v) is Some,
    ensures
        encode_spec(v, prefix) == Ok::<Pairs, EncodeError>(seq![(prefix, scalar_text(v)->Some_0)]),
{
}

/// A scalar at a top-level field `f` encodes to exactly one pair: `f` and
/// the scalar's text.
pub proof fn scalar_field_encodes_to_one_pair(fields: Vec<(String, Value)>)
    requires
        fields.len() == 1,
        scalar_text(fields[0].1) is Some,
    ensures
        encode_spec(Value::Struct(fields), seq![]) == Ok::<Pairs, EncodeError>(
            seq![(fields[0].0@, scalar_text(fields[0].1)->Some_0)],
        ),
{
    let p: Seq<char> = seq![];
    assert(encode_fields(fields, p, 0) == Ok::<Pairs, EncodeError>(seq![]));
    assert(compose_key(p, fields[0].0@) == fields[0].0@);
    scalar_encodes_to_one_pair(fields[0].1, compose_key(p, fields[0].0@));
    assert(encode_spec(Value::Struct(fields), p) == encode_fields(fields, p, 1));
    assert(Seq::<(Seq<char>, Seq<char>)>::empty() + seq![(fields[0].0@, scalar_text(fields[0].1)->Some_0)] =~= seq![
        (fields[0].0@, scalar_text(fields[0].1)->Some_0),
    ]);
}

/// The first `n` scalars of a sequence encode to their indexed pairs.
pub proof fn lemma_scalar_items(items: Vec<Value>, prefix: Seq<char>, n: nat)
    requires
        n <= items.len(),
        all_scalars(items@),
    ensures
        encode_items(items, prefix, n) == Ok::<Pairs, EncodeError>(
            indexed_pairs(items@.subrange(0, n as int), prefix),
        ),
    decreases n,
{
    if n == 0 {
        assert(indexed_pairs(items@.subrange(0, 0), prefix) =~= Seq::<(Seq<char>, Seq<char>)>::empty());
    } else {
        lemma_scalar_items(items, prefix, (n - 1) as nat);
        let k = (n - 1) as int;
        assert(scalar_text(items@[k]) is Some);
        scalar_encodes_to_one_pair(items[k], compose_key(prefix, decimal(k as nat)));
        assert(indexed_pairs(items@.subrange(0, k), prefix) + seq![
            (compose_key(prefix, decimal(k as nat)), scalar_text(items@[k])->Some_0),
        ] =~= indexed_pairs(items@.subrange(0, n as int), prefix));
    }
}

/// The first `n` scalar fields of a struct encode to their named pairs.
pub proof fn lemma_scalar_fields(fields: Vec<(String, Value)>, prefix: Seq<char>, n: nat)
    requires
        n <= fields.len(),
        forall|i: int| 0 <= i < fields.len() ==> (#[trigger] scalar_text(fields@[i].1)) is Some,
    ensures
        encode_fields(fields, prefix, n) == Ok::<Pairs, EncodeError>(
            named_pairs(fields@.subrange(0, n as int), prefix),
        ),
    decreases n,
{
    if n == 0 {
        assert(named_pairs(fields@.subrange(0, 0), prefix) =~= Seq::<(Seq<char>, Seq<char>)>::empty());
    } else {
        lemma_scalar_fields(fields, prefix, (n - 1) as nat);
        let k = (n - 1) as int;
        assert(scalar_text(fields@[k].1) is Some);
        scalar_encodes_to_one_pair(fields[k].1, compose_key(prefix, fields[k].0@));
        assert(named_pairs(fields@.subrange(0, k), prefix) + seq![
            (compose_key(prefix, fields@[k].0@), scalar_text(fields@[k].1)->Some_0),
        ] =~= named_pairs(fields@.subrange(0, n as int), prefix));
    }
}

/// `prefix[segment]`, written out.
pub open spec fn bracketed(prefix: Seq<char>, segment: Seq<char>) -> Seq<char> {
    prefix + seq!['['] + segment + seq![']']
}

/// `x` is `Some(y)`.
pub open spec fn wraps(x: Value, y: Value) -> bool {
    match x {
        Value::Optional(Some(inner)) => *inner == y,
        _ => false,
    }
}

/// The one field of a one-field struct, at the top level, encodes as its
/// value does below the field's name.
proof fn lemma_single_field(fields: Vec<(String, Value)>)
    requires
        fields.len() == 1,
    ensures
        encode_spec(Value::Struct(fields), seq![]) == encode_spec(fields[0].1, fields[0].0@),
{
    let p: Seq<char> = seq![];
    assert(compose_key(p, fields[0].0@) == fields[0].0@);
    assert(encode_fields(fields, p, 0) == Ok::<Pairs, EncodeError>(seq![]));
    assert(encode_spec(Value::Struct(fields), p) == encode_fields(fields, p, 1));
    match encode_spec(fields[0].1, fields[0].0@) {
        Ok(x) => {
            assert(Seq::<(Seq<char>, Seq<char>)>::empty() + x =~= x);
        },
        Err(_) => {},
    }
}

/// A sequence of scalars at a top-level field `f` encodes to `f[0]`,
/// `f[1]`, ... in order, each paired with its element's text; an empty
/// sequence encodes to no pairs.
pub proof fn sequence_field_encodes_indexed(fields: Vec<(String, Value)>)
    requires
        fields.len() == 1,
        fields[0].0@.len() > 0,
        fields[0].1 is Sequence,
        all_scalars(fields[0].1->Sequence_0@),
    ensures
        encode_spec(Value::Struct(fields), seq![]) == Ok::<Pairs, EncodeError>(
            indexed_pairs(fields[0].1->Sequence_0@, fields[0].0@),
        ),
        forall|i: int|
            0 <= i < fields[0].1->Sequence_0.len() ==> (#[trigger] indexed_pairs(
                fields[0].1->Sequence_0@,
                fields[0].0@,
            )[i]).0 == bracketed(fields[0].0@, decimal(i as nat)),
{
    let items = fields[0].1->Sequence_0;
    lemma_single_field(fields);
    lemma_scalar_items(items, fields[0].0@, items.len() as nat);
    assert(items@.subrange(0, items.len() as int) == items@);
}

proof fn lemma_absent_dropped(
    fields: Vec<(String, Value)>,
    kept: Vec<(String, Value)>,
    j: int,
    prefix: Seq<char>,
    n: nat,
)
    requires
        0 <= j < fields.len(),
        fields[j].1 == Value::Optional(None),
        kept@ == fields@.remove(j),
        n <= fields.len(),
    ensures
        n <= j ==> encode_fields(fields, prefix, n) == encode_fields(kept, prefix, n),
        n > j ==> encode_fields(fields, prefix, n) == encode_fields(kept, prefix, (n - 1) as nat),
    decreases n,
{
    if n > 0 {
        lemma_absent_dropped(fields, kept, j, prefix, (n - 1) as nat);
        if n == j + 1 {
            assert(encode_spec(fields@[j].1, compose_key(prefix, fields@[j].0@)) == Ok::<
                Pairs,
                EncodeError,
            >(seq![]));
            match encode_fields(fields, prefix, (n - 1) as nat) {
                Ok(x) => {
                    assert(x + Seq::<(Seq<char>, Seq<char>)>::empty() =~= x);
                },
                Err(_) => {},
            }
        } else if n > j + 1 {
            assert(fields@[n - 1] == kept@[n - 2]);
        } else {
            assert(fields@[n - 1] == kept@[n - 1]);
        }
    }
}

/// A field holding an absent optional never shows in the output: the
/// struct encodes exactly as the struct without that field, below any
/// prefix, so at any depth.
pub proof fn absent_field_is_dropped(fields: Vec<(String, Value)>, kept: Vec<(String, Value)>, j: int)
    requires
        0 <= j < fields.len(),
        fields[j].1 == Value::Optional(None),
        kept@ == fields@.remove(j),
    ensures
        forall|prefix: Seq<char>|
            #[trigger] encode_spec(Value::Struct(fields), prefix) == encode_spec(
                Value::Struct(kept),
                prefix,
            ),
{
    assert forall|prefix: Seq<char>|
        #[trigger] encode_spec(Value::Struct(fields), prefix) == encode_spec(
            Value::Struct(kept),
            prefix,
        ) by {
        lemma_absent_dropped(fields, kept, j, prefix, fields.len() as nat);
    }
}

/// Field by field, `a` has the names of `b`, and each value of `b` or
/// `Some` of it.
pub open spec fn same_or_wrapped(a: Seq<(String, Value)>, b: Seq<(String, Value)>) -> bool {
    &&& a.len() == b.len()
    &&& forall|i: int|
        0 <= i < a.len() ==> (#[trigger] a[i]).0@ == b[i].0@ && (a[i].1 == b[i].1 || wraps(
            a[i].1,
            b[i].1,
        ))
}

proof fn lemma_present_transparent(
    a: Vec<(String, Value)>,
    b: Vec<(String, Value)>,
    prefix: Seq<char>,
    n: nat,
)
    requires
        a.len() == b.len(),
        n <= a.len(),
        same_or_wrapped(a@, b@),
    ensures
        encode_fields(a, prefix, n) == encode_fields(b, prefix, n),
    decreases n,
{
    if n > 0 {
        lemma_present_transparent(a, b, prefix, (n - 1) as nat);
        let k = n - 1;
        assert(a@[k].0@ == b@[k].0@ && (a@[k].1 == b@[k].1 || wraps(a@[k].1, b@[k].1)));
        let key = compose_key(prefix, a@[k].0@);
        if wraps(a@[k].1, b@[k].1) {
            assert(encode_spec(a@[k].1, key) == encode_spec(b@[k].1, key));
        }
    }
}

/// A present optional is transparent: fields holding `Some(v)` encode
/// exactly as the same fields holding `v`.
pub proof fn present_field_is_transparent(a: Vec<(String, Value)>, b: Vec<(String, Value)>)
    requires
        a.len() == b.len(),
        same_or_wrapped(a@, b@),
    ensures
        forall|prefix: Seq<char>|
            #[trigger] encode_spec(Value::Struct(a), prefix) == encode_spec(Value::Struct(b), prefix),
{
    assert forall|prefix: Seq<char>|
        #[trigger] encode_spec(Value::Struct(a), prefix) == encode_spec(
            Value::Struct(b),
            prefix,
        ) by {
        lemma_present_transparent(a, b, prefix, a.len() as nat);
    }
}

/// Nested structs compose their keys by plain concatenation of bracketed
/// segments: a sequence of scalars at `outer.inner` encodes under
/// `outer[inner][0]`, `outer[inner][1]`, ...
pub proof fn nested_keys_concatenate(fields: Vec<(String, Value)>)
    requires
        fields.len() == 1,
        fields[0].0@.len() > 0,
        fields[0].1 is Struct,
        fields[0].1->Struct_0.len() == 1,
        fields[0].1->Struct_0[0].1 is Sequence,
        all_scalars(fields[0].1->Struct_0[0].1->Sequence_0@),
    ensures
        encode_spec(Value::Struct(fields), seq![]) == Ok::<Pairs, EncodeError>(
            indexed_pairs(
                fields[0].1->Struct_0[0].1->Sequence_0@,
                bracketed(fields[0].0@, fields[0].1->Struct_0[0].0@),
            ),
        ),
{
    let inner = fields[0].1->Struct_0;
    let items = inner[0].1->Sequence_0;
    let outer_key = fields[0].0@;
    let key = bracketed(outer_key, inner[0].0@);
    lemma_single_field(fields);
    assert(compose_key(outer_key, inner[0].0@) == key);
    assert(encode_fields(inner, outer_key, 0) == Ok::<Pairs, EncodeError>(seq![]));
    assert(encode_spec(fields[0].1, outer_key) == encode_fields(inner, outer_key, 1));
    lemma_scalar_items(items, key, items.len() as nat);
    assert(items@.subrange(0, items.len() as int) == items@);
    assert(encode_spec(inner[0].1, key) == encode_items(items, key, items.len() as nat));
    assert(Seq::<(Seq<char>, Seq<char>)>::empty() + indexed_pairs(items@, key) =~= indexed_pairs(
        items@,
        key,
    ));
}

/// A map with an integer key cannot be encoded: the whole encoding fails
/// with an unsupported key, of kind `Int` where that key comes first.
pub proof fn integer_key_is_refused(entries: Vec<(Value, Value)>, j: int, prefix: Seq<char>)
    requires
        0 <= j < entries.len(),
        entries[j].0 is Int,
    ensures
        encode_spec(Value::Mapping(entries), prefix) is Err,
        j == 0 ==> encode_spec(Value::Mapping(entries), prefix) == Err::<Pairs, EncodeError>(
            EncodeError::UnsupportedKeyType(KeyKind::Int),
        ),
{
    assert(encode_entries(entries, prefix, 0) == Ok::<Pairs, EncodeError>(seq![]));
    assert(encode_entries(entries, prefix, (j + 1) as nat) is Err);
    lemma_entries_error_kept(entries, prefix, (j + 1) as nat, entries.len() as nat);
}

/// A map entry with a string or boolean key and a scalar value encodes,
/// at the top level, to one pair whose key is the key's text (`true` or
/// `false` for a boolean).
pub proof fn text_key_is_accepted(entries: Vec<(Value, Value)>)
    requires
        entries.len() == 1,
        entries[0].0 is Str || entries[0].0 is Bool,
        scalar_text(entries[0].1) is Some,
    ensures
        key_segment(entries[0].0) == Ok::<Seq<char>, KeyKind>(scalar_text(entries[0].0)->Some_0),
        encode_spec(Value::Mapping(entries), seq![]) == Ok::<Pairs, EncodeError>(
            seq![(scalar_text(entries[0].0)->Some_0, scalar_text(entries[0].1)->Some_0)],
        ),
{
    let p: Seq<char> = seq![];
    let seg = scalar_text(entries[0].0)->Some_0;
    assert(compose_key(p, seg) == seg);
    scalar_encodes_to_one_pair(entries[0].1, seg);
    assert(encode_entries(entries, p, 0) == Ok::<Pairs, EncodeError>(seq![]));
    assert(encode_spec(Value::Mapping(entries), p) == encode_entries(entries, p, 1));
    assert(Seq::<(Seq<char>, Seq<char>)>::empty() + seq![(seg, scalar_text(entries[0].1)->Some_0)]
        =~= seq![(seg, scalar_text(entries[0].1)->Some_0)]);
}

/// A unit variant `A` at a top-level field `e` encodes to the pair `e`,
/// `A`.
pub proof fn unit_variant_field(fields: Vec<(String, Value)>)
    requires
        fields.len() == 1,
        fields[0].1 is UnitVariant,
    ensures
        encode_spec(Value::Struct(fields), seq![]) == Ok::<Pairs, EncodeError>(
            seq![(fields[0].0@, fields[0].1->UnitVariant_0@)],
        ),
{
    lemma_single_field(fields);
}

/// A newtype variant `N(v)` of a scalar at a top-level field `e` encodes to
/// the pair `e[N]` and the text of `v`.
pub proof fn newtype_variant_field(fields: Vec<(String, Value)>)
    requires
        fields.len() == 1,
        fields[0].0@.len() > 0,
        fields[0].1 is NewtypeVariant,
        scalar_text(*fields[0].1->NewtypeVariant_1) is Some,
    ensures
        encode_spec(Value::Struct(fields), seq![]) == Ok::<Pairs, EncodeError>(
            seq![
                (
                    bracketed(fields[0].0@, fields[0].1->NewtypeVariant_0@),
                    scalar_text(*fields[0].1->NewtypeVariant_1)->Some_0,
                ),
            ],
        ),
{
    let key = bracketed(fields[0].0@, fields[0].1->NewtypeVariant_0@);
    lemma_single_field(fields);
    assert(compose_key(fields[0].0@, fields[0].1->NewtypeVariant_0@) == key);
    scalar_encodes_to_one_pair(*fields[0].1->NewtypeVariant_1, key);
}

/// A newtype variant `N(s)` of a sequence of scalars at a top-level field
/// `e` encodes under `e[N][0]`, `e[N][1]`, ...
pub proof fn newtype_variant_sequence_field(fields: Vec<(String, Value)>)
    requires
        fields.len() == 1,
        fields[0].0@.len() > 0,
        fields[0].1 is NewtypeVariant,
        *fields[0].1->NewtypeVariant_1 is Sequence,
        all_scalars((*fields[0].1->NewtypeVariant_1)->Sequence_0@),
    ensures
        encode_spec(Value::Struct(fields), seq![]) == Ok::<Pairs, EncodeError>(
            indexed_pairs(
                (*fields[0].1->NewtypeVariant_1)->Sequence_0@,
                bracketed(fields[0].0@, fields[0].1->NewtypeVariant_0@),
            ),
        ),
{
    let key = bracketed(fields[0].0@, fields[0].1->NewtypeVariant_0@);
    let items = (*fields[0].1->NewtypeVariant_1)->Sequence_0;
    lemma_single_field(fields);
    assert(compose_key(fields[0].0@, fields[0].1->NewtypeVariant_0@) == key);
    lemma_scalar_items(items, key, items.len() as nat);
    assert(items@.subrange(0, items.len() as int) == items@);
    assert(encode_spec(*fields[0].1->NewtypeVariant_1, key) == encode_items(
        items,
        key,
        items.len() as nat,
    ));
}

/// A struct variant `S { a, b, .. }` of scalars at a top-level field `e`
/// encodes under `e[S][a]`, `e[S][b]`, ... in field order.
pub proof fn struct_variant_field(fields: Vec<(String, Value)>)
    requires
        fields.len() == 1,
        fields[0].0@.len() > 0,
        fields[0].1 is StructVariant,
        forall|i: int|
            0 <= i < fields[0].1->StructVariant_1.len() ==> (#[trigger] scalar_text(
                fields[0].1->StructVariant_1@[i].1,
            )) is Some,
    ensures
        encode_spec(Value::Struct(fields), seq![]) == Ok::<Pairs, EncodeError>(
            named_pairs(
                fields[0].1->StructVariant_1@,
                bracketed(fields[0].0@, fields[0].1->StructVariant_0@),
            ),
        ),
{
    let key = bracketed(fields[0].0@, fields[0].1->StructVariant_0@);
    let inner = fields[0].1->StructVariant_1;
    lemma_single_field(fields);
    assert(compose_key(fields[0].0@, fields[0].1->StructVariant_0@) == key);
    lemma_scalar_fields(inner, key, inner.len() as nat);
    assert(inner@.subrange(0, inner.len() as int) == inner@);
    assert(encode_spec(fields[0].1, fields[0].0@) == encode_fields(inner, key, inner.len() as nat));
}

} // verus!
