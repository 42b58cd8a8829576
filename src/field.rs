//! Reading and writing the typed fields of bencode dictionaries.
use vstd::prelude::*;
use vstd::string::*;
use vstd::utf8::*;

use crate::bencode::{BVal, Value, items_view};

verus! {

broadcast use {encode_utf8_decode_utf8, encode_utf8_valid_utf8};

/// The value of the last pair with key `k`.
pub open spec fn lookup(ps: Seq<(Seq<u8>, BVal)>, k: Seq<u8>) -> Option<BVal>
    decreases ps.len(),
{
    if ps.len() == 0 {
        None
    } else if ps.last().0 == k {
        Some(ps.last().1)
    } else {
        lookup(ps.drop_last(), k)
    }
}

/// An integer that fits in a `u64`.
pub open spec fn as_u64(v: BVal) -> Option<u64> {
    match v {
        BVal::Int(n) => if 0 <= n <= u64::MAX {
            Some(n as u64)
        } else {
            None
        },
        _ => None,
    }
}

/// An integer that fits in an `i64`.
pub open spec fn as_i64(v: BVal) -> Option<i64> {
    match v {
        BVal::Int(n) => if i64::MIN <= n <= i64::MAX {
            Some(n as i64)
        } else {
            None
        },
        _ => None,
    }
}

/// An integer that fits in a `u16`.
pub open spec fn as_u16(v: BVal) -> Option<u16> {
    match v {
        BVal::Int(n) => if 0 <= n <= u16::MAX {
            Some(n as u16)
        } else {
            None
        },
        _ => None,
    }
}

/// An integer that fits in a `u8`.
pub open spec fn as_u8(v: BVal) -> Option<u8> {
    match v {
        BVal::Int(n) => if 0 <= n <= u8::MAX {
            Some(n as u8)
        } else {
            None
        },
        _ => None,
    }
}

/// A byte string.
pub open spec fn as_bytes(v: BVal) -> Option<Seq<u8>> {
    match v {
        BVal::Bytes(b) => Some(b),
        _ => None,
    }
}

/// A byte string that is valid UTF-8, as text.
pub open spec fn as_text(v: BVal) -> Option<Seq<char>> {
    match v {
        BVal::Bytes(b) => if valid_utf8(b) {
            Some(decode_utf8(b))
        } else {
            None
        },
        _ => None,
    }
}

/// A list of texts.
pub open spec fn as_text_list(v: BVal) -> Option<Seq<Seq<char>>> {
    match v {
        BVal::List(xs) => if forall|i: int| 0 <= i < xs.len() ==> (#[trigger] as_text(xs[i])) is Some {
            Some(Seq::new(xs.len(), |i: int| as_text(xs[i])->0))
        } else {
            None
        },
        _ => None,
    }
}

/// A list of lists of texts.
pub open spec fn as_text_tiers(v: BVal) -> Option<Seq<Seq<Seq<char>>>> {
    match v {
        BVal::List(xs) => if forall|i: int|
            0 <= i < xs.len() ==> (#[trigger] as_text_list(xs[i])) is Some {
            Some(Seq::new(xs.len(), |i: int| as_text_list(xs[i])->0))
        } else {
            None
        },
        _ => None,
    }
}

/// A text as a bencode value: its UTF-8 bytes.
pub open spec fn text_value(s: Seq<char>) -> BVal {
    BVal::Bytes(encode_utf8(s))
}

/// A list of texts as a bencode value.
pub open spec fn text_list_value(ss: Seq<Seq<char>>) -> BVal {
    BVal::List(ss.map_values(|s: Seq<char>| text_value(s)))
}

/// Lists of texts as a bencode list of lists.
pub open spec fn text_tiers_value(tt: Seq<Seq<Seq<char>>>) -> BVal {
    BVal::List(tt.map_values(|ss: Seq<Seq<char>>| text_list_value(ss)))
}

/// The texts of a vector of vectors of strings.
pub open spec fn tiers(vv: Seq<Vec<String>>) -> Seq<Seq<Seq<char>>> {
    vv.map_values(|v: Vec<String>| texts(v@))
}

/// The texts of a vector of strings.
pub open spec fn texts(ss: Seq<String>) -> Seq<Seq<char>> {
    ss.map_values(|s: String| s@)
}

/// The text of an optional string.
pub open spec fn opt_text(s: Option<String>) -> Option<Seq<char>> {
    match s {
        Some(s) => Some(s@),
        None => None,
    }
}

pub proof fn lemma_text_round_trip(s: Seq<char>)
    ensures
        as_text(text_value(s)) == Some(s),
{
}

pub proof fn lemma_text_list_round_trip(ss: Seq<Seq<char>>)
    ensures
        as_text_list(text_list_value(ss)) == Some(ss),
{
    let xs = ss.map_values(|s: Seq<char>| text_value(s));
    assert forall|i: int| 0 <= i < xs.len() implies (#[trigger] as_text(xs[i])) is Some by {
        lemma_text_round_trip(ss[i]);
    }
    assert(Seq::new(xs.len(), |i: int| as_text(xs[i])->0) =~= ss);
}

pub proof fn lemma_text_tiers_round_trip(tt: Seq<Seq<Seq<char>>>)
    ensures
        as_text_tiers(text_tiers_value(tt)) == Some(tt),
{
    let xs = tt.map_values(|ss: Seq<Seq<char>>| text_list_value(ss));
    assert forall|i: int| 0 <= i < xs.len() implies (#[trigger] as_text_list(xs[i])) is Some
        && as_text_list(xs[i])->0 == tt[i] by {
        lemma_text_list_round_trip(tt[i]);
    }
    assert(Seq::new(xs.len(), |i: int| as_text_list(xs[i])->0) =~= tt);
}

/// Whether two byte strings are equal.
pub fn bytes_eq(a: &[u8], b: &[u8]) -> (r: bool)
    ensures
        r == (a@ == b@),
{
    if a.len() != b.len() {
        return false;
    }
    let mut i: usize = 0;
    while i < a.len()
        invariant
            a@.len() == b@.len(),
            i <= a@.len(),
            a@.subrange(0, i as int) == b@.subrange(0, i as int),
        decreases a@.len() - i,
    {
        if a[i] != b[i] {
            proof {
                assert(a@[i as int] != b@[i as int]);
            }
            return false;
        }
        i += 1;
        proof {
            assert(a@.subrange(0, i as int) =~= a@.subrange(0, i - 1).push(a@[i - 1]));
            assert(b@.subrange(0, i as int) =~= b@.subrange(0, i - 1).push(b@[i - 1]));
        }
    }
    proof {
        assert(a@ =~= a@.subrange(0, i as int));
        assert(b@ =~= b@.subrange(0, i as int));
    }
    true
}

/// Relies on `std::str::from_utf8`: it accepts exactly the valid UTF-8 byte
/// strings, and the text it returns has those bytes.
#[verifier::external_body]
fn utf8_text(b: &[u8]) -> (r: Option<String>)
    ensures
        r is Some <==> valid_utf8(b@),
        r is Some ==> encode_utf8(r->0@) == b@,
{
    match std::str::from_utf8(b) {
        Ok(s) => Some(s.to_string()),
        Err(_) => None,
    }
}

/// Reads a `u64` field.
pub fn value_u64(v: &Value) -> (r: Option<u64>)
    ensures
        r == as_u64(v@),
{
    match v {
        Value::Int(n) => if 0 <= *n && *n <= u64::MAX as i128 {
            Some(*n as u64)
        } else {
            None
        },
        _ => None,
    }
}

/// Reads an `i64` field.
pub fn value_i64(v: &Value) -> (r: Option<i64>)
    ensures
        r == as_i64(v@),
{
    match v {
        Value::Int(n) => if i64::MIN as i128 <= *n && *n <= i64::MAX as i128 {
            Some(*n as i64)
        } else {
            None
        },
        _ => None,
    }
}

/// Reads a `u16` field.
pub fn value_u16(v: &Value) -> (r: Option<u16>)
    ensures
        r == as_u16(v@),
{
    match v {
        Value::Int(n) => if 0 <= *n && *n <= u16::MAX as i128 {
            Some(*n as u16)
        } else {
            None
        },
        _ => None,
    }
}

/// Reads a `u8` field.
pub fn value_u8(v: &Value) -> (r: Option<u8>)
    ensures
        r == as_u8(v@),
{
    match v {
        Value::Int(n) => if 0 <= *n && *n <= u8::MAX as i128 {
            Some(*n as u8)
        } else {
            None
        },
        _ => None,
    }
}

/// Reads a raw byte-string field.
pub fn value_bytes(v: &Value) -> (r: Option<Vec<u8>>)
    ensures
        r is Some == as_bytes(v@) is Some,
        r is Some ==> r->0@ == as_bytes(v@)->0,
{
    match v {
        Value::Bytes(b) => Some(b.clone()),
        _ => None,
    }
}

/// Reads a text field.
pub fn value_string(v: &Value) -> (r: Option<String>)
    ensures
        r is Some == as_text(v@) is Some,
        r is Some ==> r->0@ == as_text(v@)->0,
{
    match v {
        Value::Bytes(b) => {
            let r = utf8_text(b.as_slice());
            proof {
                if r is Some {
                    decode_utf8_encode_utf8(b@);
                }
            }
            r
        },
        _ => None,
    }
}

/// Reads a list of texts.
pub fn value_string_list(v: &Value) -> (r: Option<Vec<String>>)
    ensures
        r is Some == as_text_list(v@) is Some,
        r is Some ==> texts(r->0@) == as_text_list(v@)->0,
{
    match v {
        Value::List(xs) => {
            proof {
                crate::bencode::lemma_list_view(*v);
            }
            let mut out: Vec<String> = Vec::new();
            let mut i: usize = 0;
            while i < xs.len()
                invariant
                    i <= xs@.len(),
                    v@ == BVal::List(items_view(xs@)),
                    out@.len() == i,
                    forall|j: int| 0 <= j < i ==> (#[trigger] as_text(xs@[j]@)) is Some && out@[j]@ == as_text(xs@[j]@)->0,
                decreases xs@.len() - i,
            {
                match value_string(&xs[i]) {
                    Some(s) => out.push(s),
                    None => {
                        proof {
                            assert(as_text(v@->List_0[i as int]) is None);
                        }
                        return None;
                    },
                }
                i += 1;
            }
            proof {
                let ys = v@->List_0;
                assert forall|j: int| 0 <= j < ys.len() implies (#[trigger] as_text(ys[j])) is Some by {
                    assert(ys[j] == xs@[j]@);
                }
                assert(texts(out@) =~= Seq::new(ys.len(), |j: int| as_text(ys[j])->0));
            }
            Some(out)
        },
        _ => None,
    }
}

/// Reads a list of lists of texts.
pub fn value_string_tiers(v: &Value) -> (r: Option<Vec<Vec<String>>>)
    ensures
        r is Some == as_text_tiers(v@) is Some,
        r is Some ==> tiers(r->0@) == as_text_tiers(v@)->0,
{
    match v {
        Value::List(xs) => {
            proof {
                crate::bencode::lemma_list_view(*v);
            }
            let mut out: Vec<Vec<String>> = Vec::new();
            let mut i: usize = 0;
            while i < xs.len()
                invariant
                    i <= xs@.len(),
                    v@ == BVal::List(items_view(xs@)),
                    out@.len() == i,
                    forall|j: int| 0 <= j < i ==> (#[trigger] as_text_list(xs@[j]@)) is Some && texts(out@[j]@) == as_text_list(xs@[j]@)->0,
                decreases xs@.len() - i,
            {
                match value_string_list(&xs[i]) {
                    Some(s) => out.push(s),
                    None => {
                        proof {
                            assert(as_text_list(v@->List_0[i as int]) is None);
                        }
                        return None;
                    },
                }
                i += 1;
            }
            proof {
                let ys = v@->List_0;
                assert forall|j: int| 0 <= j < ys.len() implies (#[trigger] as_text_list(ys[j])) is Some by {
                    assert(ys[j] == xs@[j]@);
                }
                assert(tiers(out@) =~= Seq::new(ys.len(), |j: int| as_text_list(ys[j])->0));
            }
            Some(out)
        },
        _ => None,
    }
}

/// Writes lists of texts.
pub fn string_tiers_value(vv: &Vec<Vec<String>>) -> (r: Value)
    ensures
        r@ == text_tiers_value(tiers(vv@)),
{
    let mut out: Vec<Value> = Vec::new();
    let mut i: usize = 0;
    while i < vv.len()
        invariant
            i <= vv@.len(),
            out@.len() == i,
            forall|j: int| 0 <= j < i ==> (#[trigger] out@[j])@ == text_list_value(texts(vv@[j]@)),
        decreases vv@.len() - i,
    {
        out.push(string_list_value(&vv[i]));
        i += 1;
    }
    let r = Value::List(out);
    proof {
        crate::bencode::lemma_list_view(r);
        assert(items_view(out@) =~= tiers(vv@).map_values(|ss: Seq<Seq<char>>| text_list_value(ss)));
    }
    r
}

/// Writes a text as a bencode byte string.
pub fn string_value(s: &String) -> (r: Value)
    ensures
        r@ == text_value(s@),
{
    Value::Bytes(s.as_str().as_bytes_vec())
}

/// Writes a list of texts.
pub fn string_list_value(ss: &Vec<String>) -> (r: Value)
    ensures
        r@ == text_list_value(texts(ss@)),
{
    let mut out: Vec<Value> = Vec::new();
    let mut i: usize = 0;
    while i < ss.len()
        invariant
            i <= ss@.len(),
            out@.len() == i,
            forall|j: int| 0 <= j < i ==> (#[trigger] out@[j])@ == text_value(ss@[j]@),
        decreases ss@.len() - i,
    {
        out.push(string_value(&ss[i]));
        i += 1;
    }
    let r = Value::List(out);
    proof {
        crate::bencode::lemma_list_view(r);
        assert(items_view(out@) =~= texts(ss@).map_values(|s: Seq<char>| text_value(s)));
    }
    r
}

/// Appends the pair `(k, v)` when `o` holds a value `v`.
pub open spec fn push_opt(ps: Seq<(Seq<u8>, BVal)>, k: Seq<u8>, o: Option<BVal>) -> Seq<
    (Seq<u8>, BVal),
> {
    match o {
        Some(v) => ps.push((k, v)),
        None => ps,
    }
}

/// A property of every pair carries over to an optional push of a pair
/// that has it.
pub proof fn lemma_push_opt_all(
    ps: Seq<(Seq<u8>, BVal)>,
    k: Seq<u8>,
    o: Option<BVal>,
    p: spec_fn((Seq<u8>, BVal)) -> bool,
)
    requires
        forall|i: int| 0 <= i < ps.len() ==> p(#[trigger] ps[i]),
        o is Some ==> p((k, o->0)),
    ensures
        forall|i: int| 0 <= i < push_opt(ps, k, o).len() ==> p(#[trigger] push_opt(ps, k, o)[i]),
{
}

/// Lookup through an optional push.
pub proof fn lemma_lookup_push_opt(ps: Seq<(Seq<u8>, BVal)>, k: Seq<u8>, o: Option<BVal>, k2: Seq<u8>)
    ensures
        lookup(push_opt(ps, k, o), k2) == if o is Some && k == k2 {
            o
        } else {
            lookup(ps, k2)
        },
{
    if o is Some {
        assert(push_opt(ps, k, o).drop_last() =~= ps);
    }
}

/// An optional text as an optional bencode value.
pub open spec fn opt_text_value(o: Option<Seq<char>>) -> Option<BVal> {
    match o {
        Some(s) => Some(text_value(s)),
        None => None,
    }
}

/// The value of a dictionary field, if present, read by `f`.
pub open spec fn opt_field<T>(o: Option<BVal>, f: spec_fn(BVal) -> Option<T>) -> Option<T> {
    match o {
        Some(v) => Some(f(v)->0),
        None => None,
    }
}

} // verus!
