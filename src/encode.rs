//! The nested form encoder: flattens a structured value into `key=value`
//! pairs whose keys nest with brackets (`outer[inner][0]`).

use vstd::prelude::*;
use crate::text::{decimal, decimal_digits, int_text, push_char, push_chars};
use crate::value::{EncodeError, KeyKind, Value};

verus! {

/// Encoded pairs, as character sequences.
pub type Pairs = Seq<(Seq<char>, Seq<char>)>;

/// The key below `prefix` for one more path segment: the segment alone at
/// the top level, `prefix[segment]` below it.
pub open spec fn compose_key(prefix: Seq<char>, segment: Seq<char>) -> Seq<char> {
    if prefix.len() == 0 {
        segment
    } else {
        prefix + seq!['['] + segment + seq![']']
    }
}

pub open spec fn bool_text(b: bool) -> Seq<char> {
    if b {
        seq!['t', 'r', 'u', 'e']
    } else {
        seq!['f', 'a', 'l', 's', 'e']
    }
}

/// The text that `String::from_utf8_lossy` makes of a byte string.
pub uninterp spec fn utf8_lossy(b: Seq<u8>) -> Seq<char>;

/// The key segment that a map key reduces to, or the kind of key that has
/// none.
pub open spec fn key_segment(k: Value) -> Result<Seq<char>, KeyKind> {
    match k {
        Value::Bool(b) => Ok(bool_text(b)),
        Value::Char(c) => Ok(seq![c]),
        Value::Str(s) => Ok(s@),
        Value::Int(_) => Err(KeyKind::Int),
        Value::UInt(_) => Err(KeyKind::UInt),
        Value::Bytes(_) => Err(KeyKind::Bytes),
        Value::Unit => Err(KeyKind::Unit),
        Value::Optional(_) => Err(KeyKind::Optional),
        Value::Sequence(_) => Err(KeyKind::Sequence),
        Value::Mapping(_) => Err(KeyKind::Mapping),
        Value::Struct(_) => Err(KeyKind::Struct),
        Value::UnitVariant(_) => Err(KeyKind::Variant),
        Value::NewtypeVariant(_, _) => Err(KeyKind::Variant),
        Value::StructVariant(_, _) => Err(KeyKind::Variant),
    }
}

/// Appends two encodings, keeping the first error.
pub open spec fn then_append(a: Result<Pairs, EncodeError>, b: Result<Pairs, EncodeError>) -> Result<
    Pairs,
    EncodeError,
> {
    match a {
        Err(e) => Err(e),
        Ok(x) => match b {
            Err(e) => Err(e),
            Ok(y) => Ok(x + y),
        },
    }
}

/// The pairs that `v` encodes to below `prefix`.
pub open spec fn encode_spec(v: Value, prefix: Seq<char>) -> Result<Pairs, EncodeError>
    decreases v, 0nat,
{
    match v {
        Value::Unit => Ok(seq![]),
        Value::Bool(b) => Ok(seq![(prefix, bool_text(b))]),
        Value::Int(n) => Ok(seq![(prefix, int_text(n as int))]),
        Value::UInt(n) => Ok(seq![(prefix, decimal(n as nat))]),
        Value::Char(c) => Ok(seq![(prefix, seq![c])]),
        Value::Str(s) => Ok(seq![(prefix, s@)]),
        Value::Bytes(b) => Ok(seq![(prefix, utf8_lossy(b@))]),
        Value::Optional(None) => Ok(seq![]),
        Value::Optional(Some(inner)) => encode_spec(*inner, prefix),
        Value::Sequence(items) => encode_items(items, prefix, items.len() as nat),
        Value::Mapping(entries) => encode_entries(entries, prefix, entries.len() as nat),
        Value::Struct(fields) => encode_fields(fields, prefix, fields.len() as nat),
        Value::UnitVariant(name) => Ok(seq![(prefix, name@)]),
        Value::NewtypeVariant(name, inner) => encode_spec(*inner, compose_key(prefix, name@)),
        Value::StructVariant(name, fields) => encode_fields(
            fields,
            compose_key(prefix, name@),
            fields.len() as nat,
        ),
    }
}

/// The encoding of the first `n` elements of a sequence, element `i` below
/// `prefix[i]`.
pub open spec fn encode_items(items: Vec<Value>, prefix: Seq<char>, n: nat) -> Result<
    Pairs,
    EncodeError,
>
    decreases items, n,
{
    if n == 0 || n > items.len() {
        Ok(seq![])
    } else {
        then_append(
            encode_items(items, prefix, (n - 1) as nat),
            encode_spec(items[n - 1], compose_key(prefix, decimal((n - 1) as nat))),
        )
    }
}

/// The encoding of the first `n` entries of a map, each value below its
/// reduced key.
pub open spec fn encode_entries(entries: Vec<(Value, Value)>, prefix: Seq<char>, n: nat) -> Result<
    Pairs,
    EncodeError,
>
    decreases entries, n,
{
    if n == 0 || n > entries.len() {
        Ok(seq![])
    } else {
        then_append(
            encode_entries(entries, prefix, (n - 1) as nat),
            match key_segment(entries[n - 1].0) {
                Err(kind) => Err(EncodeError::UnsupportedKeyType(kind)),
                Ok(seg) => encode_spec(entries[n - 1].1, compose_key(prefix, seg)),
            },
        )
    }
}

/// The encoding of the first `n` fields of a struct, each below its name.
pub open spec fn encode_fields(fields: Vec<(String, Value)>, prefix: Seq<char>, n: nat) -> Result<
    Pairs,
    EncodeError,
>
    decreases fields, n,
{
    if n == 0 || n > fields.len() {
        Ok(seq![])
    } else {
        then_append(
            encode_fields(fields, prefix, (n - 1) as nat),
            encode_spec(fields[n - 1].1, compose_key(prefix, fields[n - 1].0@)),
        )
    }
}

/// Once some first elements fail to encode, the whole sequence fails with
/// the same error.
proof fn lemma_items_error_kept(items: Vec<Value>, prefix: Seq<char>, k: nat, n: nat)
    requires
        k <= n <= items.len(),
        encode_items(items, prefix, k) is Err,
    ensures
        encode_items(items, prefix, n) == encode_items(items, prefix, k),
    decreases n - k,
{
    if n > k {
        lemma_items_error_kept(items, prefix, k, (n - 1) as nat);
    }
}

/// Once some first entries fail to encode, the whole map fails with the
/// same error.
pub proof fn lemma_entries_error_kept(entries: Vec<(Value, Value)>, prefix: Seq<char>, k: nat, n: nat)
    requires
        k <= n <= entries.len(),
        encode_entries(entries, prefix, k) is Err,
    ensures
        encode_entries(entries, prefix, n) == encode_entries(entries, prefix, k),
    decreases n - k,
{
    if n > k {
        lemma_entries_error_kept(entries, prefix, k, (n - 1) as nat);
    }
}

/// Once some first fields fail to encode, the whole struct fails with the
/// same error.
proof fn lemma_fields_error_kept(fields: Vec<(String, Value)>, prefix: Seq<char>, k: nat, n: nat)
    requires
        k <= n <= fields.len(),
        encode_fields(fields, prefix, k) is Err,
    ensures
        encode_fields(fields, prefix, n) == encode_fields(fields, prefix, k),
    decreases n - k,
{
    if n > k {
        lemma_fields_error_kept(fields, prefix, k, (n - 1) as nat);
    }
}

/// Relies on `String::from_utf8_lossy`: the text depends on the bytes alone.
#[verifier::external_body]
fn bytes_text(b: &Vec<u8>) -> (r: String)
    ensures
        r@ == utf8_lossy(b@),
{
    String::from_utf8_lossy(b.as_slice()).into_owned()
}

fn bool_string(b: bool) -> (r: String)
    ensures
        r@ == bool_text(b),
{
    let mut s = String::new();
    if b {
        push_char(&mut s, 't');
        push_char(&mut s, 'r');
        push_char(&mut s, 'u');
        push_char(&mut s, 'e');
    } else {
        push_char(&mut s, 'f');
        push_char(&mut s, 'a');
        push_char(&mut s, 'l');
        push_char(&mut s, 's');
        push_char(&mut s, 'e');
    }
    assert(s@ =~= bool_text(b));
    s
}

/// Decimal text of an unsigned integer.
pub fn uint_string(n: u64) -> (r: String)
    ensures
        r@ == decimal(n as nat),
{
    let mut s = String::new();
    let digits = decimal_digits(n);
    push_chars(&mut s, &digits);
    assert(s@ =~= decimal(n as nat));
    s
}

/// Decimal text of a signed integer.
pub fn int_string(n: i64) -> (r: String)
    ensures
        r@ == int_text(n as int),
{
    let mut s = String::new();
    let magnitude: u64 = if n < 0 {
        push_char(&mut s, '-');
        (-(n as i128)) as u64
    } else {
        n as u64
    };
    let digits = decimal_digits(magnitude);
    push_chars(&mut s, &digits);
    assert(s@ =~= int_text(n as int));
    s
}

/// Composes the key for one more path segment below `prefix`: the segment
/// itself at the top level, else `prefix[segment]`. Brackets inside the
/// segment are kept as they are.
pub fn compose(prefix: &str, segment: &str) -> (r: String)
    ensures
        r@ == compose_key(prefix@, segment@),
{
    if prefix.is_empty() {
        String::from_str(segment)
    } else {
        let mut s = String::from_str(prefix);
        push_char(&mut s, '[');
        s.append(segment);
        push_char(&mut s, ']');
        assert(s@ =~= compose_key(prefix@, segment@));
        s
    }
}

/// Reduces a map key to the key segment it stands for: a boolean to
/// `true` or `false`, a character or a string to its text. Any other key
/// is refused with its kind.
pub fn reduce_key(k: &Value) -> (r: Result<String, EncodeError>)
    ensures
        match key_segment(*k) {
            Ok(seg) => r is Ok && r->Ok_0@ == seg,
            Err(kind) => r == Err::<String, EncodeError>(EncodeError::UnsupportedKeyType(kind)),
        },
{
    match k {
        Value::Bool(b) => Ok(bool_string(*b)),
        Value::Char(c) => {
            let mut s = String::new();
            push_char(&mut s, *c);
            assert(s@ =~= seq![*c]);
            Ok(s)
        },
        Value::Str(s) => Ok(s.clone()),
        Value::Int(_) => Err(EncodeError::UnsupportedKeyType(KeyKind::Int)),
        Value::UInt(_) => Err(EncodeError::UnsupportedKeyType(KeyKind::UInt)),
        Value::Bytes(_) => Err(EncodeError::UnsupportedKeyType(KeyKind::Bytes)),
        Value::Unit => Err(EncodeError::UnsupportedKeyType(KeyKind::Unit)),
        Value::Optional(_) => Err(EncodeError::UnsupportedKeyType(KeyKind::Optional)),
        Value::Sequence(_) => Err(EncodeError::UnsupportedKeyType(KeyKind::Sequence)),
        Value::Mapping(_) => Err(EncodeError::UnsupportedKeyType(KeyKind::Mapping)),
        Value::Struct(_) => Err(EncodeError::UnsupportedKeyType(KeyKind::Struct)),
        Value::UnitVariant(_) => Err(EncodeError::UnsupportedKeyType(KeyKind::Variant)),
        Value::NewtypeVariant(_, _) => Err(EncodeError::UnsupportedKeyType(KeyKind::Variant)),
        Value::StructVariant(_, _) => Err(EncodeError::UnsupportedKeyType(KeyKind::Variant)),
    }
}

fn emit(out: &mut Vec<(String, String)>, key: &str, value: String)
    ensures
        final(out).deep_view() == old(out).deep_view().push((key@, value@)),
{
    let k = String::from_str(key);
    out.push((k, value));
    assert(final(out).deep_view() =~= old(out).deep_view().push((key@, value@)));
}

/// Appends the pairs of `v` below `prefix` to `out`. On an error, what
/// `out` holds is unspecified.
pub fn encode_into(v: &Value, prefix: &str, out: &mut Vec<(String, String)>) -> (r: Result<(), EncodeError>)
    ensures
        match encode_spec(*v, prefix@) {
            Ok(pairs) => r is Ok && final(out).deep_view() == old(out).deep_view() + pairs,
            Err(e) => r == Err::<(), EncodeError>(e),
        },
    decreases v,
{
    match v {
        Value::Unit => {
            assert(out.deep_view() =~= out.deep_view() + Seq::<(Seq<char>, Seq<char>)>::empty());
            Ok(())
        },
        Value::Bool(b) => {
            emit(out, prefix, bool_string(*b));
            Ok(())
        },
        Value::Int(n) => {
            emit(out, prefix, int_string(*n));
            Ok(())
        },
        Value::UInt(n) => {
            emit(out, prefix, uint_string(*n));
            Ok(())
        },
        Value::Char(c) => {
            let mut s = String::new();
            push_char(&mut s, *c);
            assert(s@ =~= seq![*c]);
            emit(out, prefix, s);
            Ok(())
        },
        Value::Str(s) => {
            emit(out, prefix, s.clone());
            Ok(())
        },
        Value::Bytes(b) => {
            emit(out, prefix, bytes_text(b));
            Ok(())
        },
        Value::Optional(None) => {
            assert(out.deep_view() =~= out.deep_view() + Seq::<(Seq<char>, Seq<char>)>::empty());
            Ok(())
        },
        Value::Optional(Some(inner)) => encode_into(inner, prefix, out),
        Value::Sequence(items) => {
            let ghost start = out.deep_view();
            let mut i: usize = 0;
            assert(decreases_to!(*v => *items));
            while i < items.len()
                invariant
                    i <= items.len(),
                    decreases_to!(*v => *items),
                    encode_spec(*v, prefix@) == encode_items(*items, prefix@, items.len() as nat),
                    encode_items(*items, prefix@, i as nat) matches Ok(done) && out.deep_view() == start + done,
                decreases items.len() - i,
            {
                let index = uint_string(i as u64);
                let key = compose(prefix, index.as_str());
                proof {
                    vstd::std_specs::vec::axiom_vec_index_decreases(*items, i as int);
                }
                let res = encode_into(&items[i], key.as_str(), out);
                if let Err(e) = res {
                    proof {
                        lemma_items_error_kept(*items, prefix@, (i + 1) as nat, items.len() as nat);
                    }
                    return Err(e);
                }
                i = i + 1;
            }
            Ok(())
        },
        Value::Mapping(entries) => {
            let ghost start = out.deep_view();
            let mut i: usize = 0;
            assert(decreases_to!(*v => *entries));
            while i < entries.len()
                invariant
                    i <= entries.len(),
                    decreases_to!(*v => *entries),
                    encode_spec(*v, prefix@) == encode_entries(*entries, prefix@, entries.len() as nat),
                    encode_entries(*entries, prefix@, i as nat) matches Ok(done) && out.deep_view() == start + done,
                decreases entries.len() - i,
            {
                let seg = reduce_key(&entries[i].0);
                match seg {
                    Err(e) => {
                        proof {
                            lemma_entries_error_kept(*entries, prefix@, (i + 1) as nat, entries.len() as nat);
                        }
                        return Err(e);
                    },
                    Ok(seg) => {
                        let key = compose(prefix, seg.as_str());
                        proof {
                            vstd::std_specs::vec::axiom_vec_index_decreases(*entries, i as int);
                        }
                        let res = encode_into(&entries[i].1, key.as_str(), out);
                        if let Err(e) = res {
                            proof {
                                lemma_entries_error_kept(*entries, prefix@, (i + 1) as nat, entries.len() as nat);
                            }
                            return Err(e);
                        }
                    },
                }
                i = i + 1;
            }
            Ok(())
        },
        Value::Struct(fields) => encode_fields_into(fields, prefix, out),
        Value::UnitVariant(name) => {
            emit(out, prefix, name.clone());
            Ok(())
        },
        Value::NewtypeVariant(name, inner) => {
            let key = compose(prefix, name.as_str());
            encode_into(inner, key.as_str(), out)
        },
        Value::StructVariant(name, fields) => {
            let key = compose(prefix, name.as_str());
            encode_fields_into(fields, key.as_str(), out)
        },
    }
}

/// Encodes a request value into its flat `key=value` pairs, in traversal
/// order. The outermost level has no prefix, so a struct's fields give the
/// bare keys. The one failure is a map key that is not a boolean, a
/// character or a string.
pub fn encode(v: &Value) -> (r: Result<Vec<(String, String)>, EncodeError>)
    ensures
        match encode_spec(*v, seq![]) {
            Ok(pairs) => r is Ok && r->Ok_0.deep_view() == pairs,
            Err(e) => r == Err::<Vec<(String, String)>, EncodeError>(e),
        },
{
    let mut out: Vec<(String, String)> = Vec::new();
    let prefix = String::new();
    assert(out.deep_view() =~= Seq::<(Seq<char>, Seq<char>)>::empty());
    match encode_into(v, prefix.as_str(), &mut out) {
        Ok(()) => {
            assert(out.deep_view() =~= Seq::<(Seq<char>, Seq<char>)>::empty() + out.deep_view());
            Ok(out)
        },
        Err(e) => Err(e),
    }
}

fn encode_fields_into(fields: &Vec<(String, Value)>, prefix: &str, out: &mut Vec<(String, String)>) -> (r: Result<(), EncodeError>)
    ensures
        match encode_fields(*fields, prefix@, fields.len() as nat) {
            Ok(pairs) => r is Ok && final(out).deep_view() == old(out).deep_view() + pairs,
            Err(e) => r == Err::<(), EncodeError>(e),
        },
    decreases fields,
{
    let ghost start = out.deep_view();
    let mut i: usize = 0;
    while i < fields.len()
        invariant
            i <= fields.len(),
            encode_fields(*fields, prefix@, i as nat) matches Ok(done) && out.deep_view() == start + done,
        decreases fields.len() - i,
    {
        let key = compose(prefix, fields[i].0.as_str());
        proof {
            vstd::std_specs::vec::axiom_vec_index_decreases(*fields, i as int);
        }
        let res = encode_into(&fields[i].1, key.as_str(), out);
        if let Err(e) = res {
            proof {
                lemma_fields_error_kept(*fields, prefix@, (i + 1) as nat, fields.len() as nat);
            }
            return Err(e);
        }
        i = i + 1;
    }
    Ok(())
}

} // verus!
