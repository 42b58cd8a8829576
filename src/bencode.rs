//! The bencode data model: tokens, values, their canonical text, and the
//! conversions between bytes, tokens and values.
use vstd::prelude::*;

use crate::decimal::{int_text, int_to_text, lemma_int_text_injective, nat_text, text_to_int};
use crate::error::Error;

use bendy::decoding::Error as BencodeError;
use bendy::state_tracker::Token as BendyToken;

verus! {

/// A bencode token, in the model.
pub enum Tk {
    List,
    Dict,
    Bytes(Seq<u8>),
    Num(Seq<u8>),
    End,
}

/// A bencode value, in the model.
pub enum BVal {
    Int(int),
    Bytes(Seq<u8>),
    List(Seq<BVal>),
    Dict(Seq<(Seq<u8>, BVal)>),
}

/// The text of one token.
pub open spec fn tk_text(t: Tk) -> Seq<u8> {
    match t {
        Tk::List => seq![108u8],
        Tk::Dict => seq![100u8],
        Tk::End => seq![101u8],
        Tk::Bytes(b) => nat_text(b.len()) + seq![58u8] + b,
        Tk::Num(s) => seq![105u8] + s + seq![101u8],
    }
}

/// The text of a token stream: each token's text, in order.
pub open spec fn text_of(ts: Seq<Tk>) -> Seq<u8>
    decreases ts.len(),
{
    if ts.len() == 0 {
        Seq::empty()
    } else {
        text_of(ts.drop_last()) + tk_text(ts.last())
    }
}

/// The token stream of a value.
pub open spec fn tokens_of(v: BVal) -> Seq<Tk>
    decreases v,
{
    match v {
        BVal::Int(n) => seq![Tk::Num(int_text(n))],
        BVal::Bytes(b) => seq![Tk::Bytes(b)],
        BVal::List(xs) => seq![Tk::List] + list_tokens(xs) + seq![Tk::End],
        BVal::Dict(ps) => seq![Tk::Dict] + dict_tokens(ps) + seq![Tk::End],
    }
}

/// The tokens of a list's items, without the opening and closing tokens.
pub open spec fn list_tokens(xs: Seq<BVal>) -> Seq<Tk>
    decreases xs,
{
    if xs.len() == 0 {
        Seq::empty()
    } else {
        list_tokens(xs.drop_last()) + tokens_of(xs[xs.len() - 1])
    }
}

/// The tokens of a dictionary's pairs, without the opening and closing
/// tokens: each key as a byte string, then its value.
pub open spec fn dict_tokens(ps: Seq<(Seq<u8>, BVal)>) -> Seq<Tk>
    decreases ps,
{
    if ps.len() == 0 {
        Seq::empty()
    } else {
        dict_tokens(ps.drop_last()) + seq![Tk::Bytes(ps[ps.len() - 1].0)] + tokens_of(
            ps[ps.len() - 1].1,
        )
    }
}

/// Whether every integer in `v` lies in the range that a decoded value holds.
pub open spec fn fits(v: BVal) -> bool
    decreases v,
{
    match v {
        BVal::Int(n) => i128::MIN < n <= i128::MAX,
        BVal::Bytes(_) => true,
        BVal::List(xs) => forall|i: int| 0 <= i < xs.len() ==> fits(#[trigger] xs[i]),
        BVal::Dict(ps) => forall|i: int| 0 <= i < ps.len() ==> fits(#[trigger] ps[i].1),
    }
}

/// Byte-lexicographic order on keys, as bencode sorts dictionaries.
pub open spec fn key_lt(a: Seq<u8>, b: Seq<u8>) -> bool
    decreases a.len(),
{
    if b.len() == 0 {
        false
    } else if a.len() == 0 {
        true
    } else if a[0] != b[0] {
        a[0] < b[0]
    } else {
        key_lt(a.drop_first(), b.drop_first())
    }
}

/// `v` nests at most `depth` lists and dictionaries, and the keys of each of
/// its dictionaries are strictly increasing.
pub open spec fn well_formed(v: BVal, depth: nat) -> bool
    decreases v,
{
    match v {
        BVal::Int(_) => true,
        BVal::Bytes(_) => true,
        BVal::List(xs) => depth >= 1 && forall|i: int|
            0 <= i < xs.len() ==> well_formed(#[trigger] xs[i], (depth - 1) as nat),
        BVal::Dict(ps) => depth >= 1 && (forall|i: int|
            0 <= i < ps.len() ==> well_formed(#[trigger] ps[i].1, (depth - 1) as nat)) && (forall|
            i: int,
        |
            0 <= i < ps.len() - 1 ==> key_lt(#[trigger] ps[i].0, ps[i + 1].0)),
    }
}

/// `a` stands in `s` from position `pos` on.
pub open spec fn prefix_at(a: Seq<Tk>, s: Seq<Tk>, pos: int) -> bool {
    0 <= pos && pos + a.len() <= s.len() && s.subrange(pos, pos + a.len()) == a
}

/// The bencode encoding of a value.
pub open spec fn encoding(v: BVal) -> Seq<u8> {
    text_of(tokens_of(v))
}

/// A bencode token.
#[derive(Debug)]
pub enum Token {
    List,
    Dict,
    Bytes(Vec<u8>),
    Num(Vec<u8>),
    End,
}

impl View for Token {
    type V = Tk;

    open spec fn view(&self) -> Tk {
        match self {
            Token::List => Tk::List,
            Token::Dict => Tk::Dict,
            Token::Bytes(b) => Tk::Bytes(b@),
            Token::Num(t) => Tk::Num(t@),
            Token::End => Tk::End,
        }
    }
}

/// The model of a token stream.
pub open spec fn tks(ts: Seq<Token>) -> Seq<Tk> {
    ts.map_values(|t: Token| t@)
}

/// A bencode value.
#[derive(Debug)]
pub enum Value {
    Int(i128),
    Bytes(Vec<u8>),
    List(Vec<Value>),
    /// Keys and values of a dictionary, pair by pair: both vectors have
    /// one entry for each pair.
    Dict(Vec<Vec<u8>>, Vec<Value>),
}

impl View for Value {
    type V = BVal;

    open spec fn view(&self) -> BVal
        decreases self,
    {
        match self {
            Value::Int(n) => BVal::Int(*n as int),
            Value::Bytes(b) => BVal::Bytes(b@),
            Value::List(xs) => BVal::List(
                Seq::new(
                    xs@.len(),
                    |i: int|
                        if 0 <= i < xs@.len() {
                            xs@[i].view()
                        } else {
                            BVal::Int(0)
                        },
                ),
            ),
            Value::Dict(ks, vs) => BVal::Dict(
                zip_keys(
                    ks@,
                    Seq::new(
                        dict_len(ks@, vs@),
                        |i: int|
                            if 0 <= i < vs@.len() {
                                vs@[i].view()
                            } else {
                                BVal::Int(0)
                            },
                    ),
                ),
            ),
        }
    }
}

/// The number of pairs in a dictionary: one for each key that has a value.
pub open spec fn dict_len(ks: Seq<Vec<u8>>, vs: Seq<Value>) -> nat {
    if ks.len() < vs.len() {
        ks.len()
    } else {
        vs.len()
    }
}

/// Pairs each value with the key at its index.
pub open spec fn zip_keys(ks: Seq<Vec<u8>>, xs: Seq<BVal>) -> Seq<(Seq<u8>, BVal)> {
    Seq::new(xs.len(), |i: int| (ks[i]@, xs[i]))
}

/// The model of a list's items.
pub open spec fn items_view(xs: Seq<Value>) -> Seq<BVal> {
    xs.map_values(|x: Value| x@)
}

/// The model of a dictionary's pairs.
pub open spec fn pairs_view(ks: Seq<Vec<u8>>, vs: Seq<Value>) -> Seq<(Seq<u8>, BVal)> {
    Seq::new(dict_len(ks, vs), |i: int| (ks[i]@, vs[i]@))
}

proof fn lemma_tokens_start(v: BVal)
    ensures
        tokens_of(v).len() >= 1,
        tokens_of(v)[0] != Tk::End,
        v is List <==> tokens_of(v)[0] == Tk::List,
        v is Dict <==> tokens_of(v)[0] == Tk::Dict,
        v is Int <==> tokens_of(v)[0] is Num,
        v is Bytes <==> tokens_of(v)[0] is Bytes,
{
}

proof fn lemma_list_prefix(xs: Seq<BVal>, m: int)
    requires
        0 <= m <= xs.len(),
    ensures
        list_tokens(xs.subrange(0, m)).len() <= list_tokens(xs).len(),
        list_tokens(xs).subrange(0, list_tokens(xs.subrange(0, m)).len() as int) == list_tokens(
            xs.subrange(0, m),
        ),
    decreases xs.len() - m,
{
    let a = list_tokens(xs.subrange(0, m));
    if m == xs.len() {
        assert(xs.subrange(0, m) =~= xs);
        assert(list_tokens(xs).subrange(0, a.len() as int) =~= a);
    } else {
        lemma_list_prefix(xs, m + 1);
        let b = list_tokens(xs.subrange(0, m + 1));
        assert(xs.subrange(0, m + 1).drop_last() =~= xs.subrange(0, m));
        assert(b == a + tokens_of(xs[m]));
        assert(list_tokens(xs).subrange(0, a.len() as int) =~= b.subrange(0, a.len() as int));
        assert(b.subrange(0, a.len() as int) =~= a);
    }
}

proof fn lemma_dict_prefix(ps: Seq<(Seq<u8>, BVal)>, m: int)
    requires
        0 <= m <= ps.len(),
    ensures
        dict_tokens(ps.subrange(0, m)).len() <= dict_tokens(ps).len(),
        dict_tokens(ps).subrange(0, dict_tokens(ps.subrange(0, m)).len() as int) == dict_tokens(
            ps.subrange(0, m),
        ),
    decreases ps.len() - m,
{
    let a = dict_tokens(ps.subrange(0, m));
    if m == ps.len() {
        assert(ps.subrange(0, m) =~= ps);
        assert(dict_tokens(ps).subrange(0, a.len() as int) =~= a);
    } else {
        lemma_dict_prefix(ps, m + 1);
        let b = dict_tokens(ps.subrange(0, m + 1));
        assert(ps.subrange(0, m + 1).drop_last() =~= ps.subrange(0, m));
        assert(b == a + seq![Tk::Bytes(ps[m].0)] + tokens_of(ps[m].1));
        assert(dict_tokens(ps).subrange(0, a.len() as int) =~= b.subrange(0, a.len() as int));
        assert(b.subrange(0, a.len() as int) =~= a);
    }
}

proof fn lemma_inner_list_at(xs: Seq<BVal>, s: Seq<Tk>, pos: int)
    requires
        prefix_at(tokens_of(BVal::List(xs)), s, pos),
    ensures
        prefix_at(list_tokens(xs) + seq![Tk::End], s, pos + 1),
{
    let t = tokens_of(BVal::List(xs));
    let inner = list_tokens(xs) + seq![Tk::End];
    assert(t == seq![Tk::List] + inner);
    assert(s.subrange(pos + 1, pos + 1 + inner.len()) =~= t.subrange(1, t.len() as int));
    assert(t.subrange(1, t.len() as int) =~= inner);
}

proof fn lemma_inner_dict_at(ps: Seq<(Seq<u8>, BVal)>, s: Seq<Tk>, pos: int)
    requires
        prefix_at(tokens_of(BVal::Dict(ps)), s, pos),
    ensures
        prefix_at(dict_tokens(ps) + seq![Tk::End], s, pos + 1),
{
    let t = tokens_of(BVal::Dict(ps));
    let inner = dict_tokens(ps) + seq![Tk::End];
    assert(t == seq![Tk::Dict] + inner);
    assert(s.subrange(pos + 1, pos + 1 + inner.len()) =~= t.subrange(1, t.len() as int));
    assert(t.subrange(1, t.len() as int) =~= inner);
}

proof fn lemma_item_at(xs: Seq<BVal>, k: int, s: Seq<Tk>, base: int)
    requires
        prefix_at(list_tokens(xs) + seq![Tk::End], s, base),
        0 <= k <= xs.len(),
    ensures
        k < xs.len() ==> prefix_at(tokens_of(xs[k]), s, base + list_tokens(xs.subrange(0, k)).len()),
        k == xs.len() ==> s[base + list_tokens(xs.subrange(0, k)).len()] == Tk::End,
{
    let lt = list_tokens(xs);
    let lk = list_tokens(xs.subrange(0, k));
    let p = base + lk.len();
    assert(s.subrange(base, base + lt.len()) =~= lt) by {
        assert(s.subrange(base, base + lt.len()) =~= s.subrange(base, base + lt.len() + 1).subrange(
            0,
            lt.len() as int,
        ));
    }
    if k < xs.len() {
        lemma_list_prefix(xs, k + 1);
        assert(xs.subrange(0, k + 1).drop_last() =~= xs.subrange(0, k));
        let it = tokens_of(xs[k]);
        assert(list_tokens(xs.subrange(0, k + 1)) == lk + it);
        assert(s.subrange(p, p + it.len()) =~= lt.subrange(lk.len() as int, (lk.len() + it.len()) as int));
        assert(lt.subrange(lk.len() as int, (lk.len() + it.len()) as int) =~= (lk + it).subrange(
            lk.len() as int,
            (lk.len() + it.len()) as int,
        ));
        assert(s.subrange(p, p + it.len()) =~= it);
    } else {
        assert(xs.subrange(0, k) =~= xs);
        assert(s[p] == s.subrange(base, base + lt.len() + 1)[lt.len() as int]);
    }
}

proof fn lemma_pair_at(ps: Seq<(Seq<u8>, BVal)>, k: int, s: Seq<Tk>, base: int)
    requires
        prefix_at(dict_tokens(ps) + seq![Tk::End], s, base),
        0 <= k <= ps.len(),
    ensures
        k < ps.len() ==> s[base + dict_tokens(ps.subrange(0, k)).len()] == Tk::Bytes(ps[k].0)
            && prefix_at(tokens_of(ps[k].1), s, base + dict_tokens(ps.subrange(0, k)).len() + 1),
        k == ps.len() ==> s[base + dict_tokens(ps.subrange(0, k)).len()] == Tk::End,
{
    let dt = dict_tokens(ps);
    let dk = dict_tokens(ps.subrange(0, k));
    let p = base + dk.len();
    assert(s.subrange(base, base + dt.len()) =~= dt) by {
        assert(s.subrange(base, base + dt.len()) =~= s.subrange(base, base + dt.len() + 1).subrange(
            0,
            dt.len() as int,
        ));
    }
    if k < ps.len() {
        lemma_dict_prefix(ps, k + 1);
        assert(ps.subrange(0, k + 1).drop_last() =~= ps.subrange(0, k));
        let it = seq![Tk::Bytes(ps[k].0)] + tokens_of(ps[k].1);
        assert(dict_tokens(ps.subrange(0, k + 1)) =~= dk + it);
        assert(s.subrange(p, p + it.len()) =~= dt.subrange(dk.len() as int, (dk.len() + it.len()) as int));
        assert(dt.subrange(dk.len() as int, (dk.len() + it.len()) as int) =~= (dk + it).subrange(
            dk.len() as int,
            (dk.len() + it.len()) as int,
        ));
        assert(s.subrange(p, p + it.len()) =~= it);
        assert(s[p] == it[0]);
        assert(s.subrange(p + 1, p + it.len()) =~= it.subrange(1, it.len() as int));
        assert(it.subrange(1, it.len() as int) =~= tokens_of(ps[k].1));
    } else {
        assert(ps.subrange(0, k) =~= ps);
        assert(s[p] == s.subrange(base, base + dt.len() + 1)[dt.len() as int]);
    }
}

proof fn lemma_items_unique(xs: Seq<BVal>, ys: Seq<BVal>, s: Seq<Tk>, base: int, k: int)
    requires
        prefix_at(list_tokens(xs) + seq![Tk::End], s, base),
        prefix_at(list_tokens(ys) + seq![Tk::End], s, base),
        0 <= k <= xs.len(),
        k <= ys.len(),
        xs.subrange(0, k) == ys.subrange(0, k),
        forall|i: int, c: BVal, p: int|
            #![trigger prefix_at(tokens_of(xs[i]), s, p), prefix_at(tokens_of(c), s, p)]
            0 <= i < xs.len() && prefix_at(tokens_of(xs[i]), s, p) && prefix_at(tokens_of(c), s, p)
                ==> xs[i] == c,
    ensures
        xs == ys,
    decreases xs.len() - k,
{
    lemma_item_at(xs, k, s, base);
    lemma_item_at(ys, k, s, base);
    let p = base + list_tokens(xs.subrange(0, k)).len();
    if k == xs.len() && k == ys.len() {
        assert(xs =~= xs.subrange(0, k));
        assert(ys =~= ys.subrange(0, k));
    } else if k == xs.len() {
        lemma_tokens_start(ys[k]);
        assert(s[p] == s.subrange(p, p + tokens_of(ys[k]).len())[0]);
    } else if k == ys.len() {
        lemma_tokens_start(xs[k]);
        assert(s[p] == s.subrange(p, p + tokens_of(xs[k]).len())[0]);
    } else {
        assert(prefix_at(tokens_of(xs[k]), s, p));
        assert(prefix_at(tokens_of(ys[k]), s, p));
        assert(xs[k] == ys[k]);
        assert(xs.subrange(0, k + 1) =~= xs.subrange(0, k).push(xs[k]));
        assert(ys.subrange(0, k + 1) =~= ys.subrange(0, k).push(ys[k]));
        lemma_items_unique(xs, ys, s, base, k + 1);
    }
}

proof fn lemma_pairs_unique(
    ps: Seq<(Seq<u8>, BVal)>,
    qs: Seq<(Seq<u8>, BVal)>,
    s: Seq<Tk>,
    base: int,
    k: int,
)
    requires
        prefix_at(dict_tokens(ps) + seq![Tk::End], s, base),
        prefix_at(dict_tokens(qs) + seq![Tk::End], s, base),
        0 <= k <= ps.len(),
        k <= qs.len(),
        ps.subrange(0, k) == qs.subrange(0, k),
        forall|i: int, c: BVal, p: int|
            #![trigger prefix_at(tokens_of(ps[i].1), s, p), prefix_at(tokens_of(c), s, p)]
            0 <= i < ps.len() && prefix_at(tokens_of(ps[i].1), s, p) && prefix_at(tokens_of(c), s, p)
                ==> ps[i].1 == c,
    ensures
        ps == qs,
    decreases ps.len() - k,
{
    lemma_pair_at(ps, k, s, base);
    lemma_pair_at(qs, k, s, base);
    if k == ps.len() && k == qs.len() {
        assert(ps =~= ps.subrange(0, k));
        assert(qs =~= qs.subrange(0, k));
    } else if k == ps.len() {
    } else if k == qs.len() {
    } else {
        let p = base + dict_tokens(ps.subrange(0, k)).len();
        assert(prefix_at(tokens_of(ps[k].1), s, p + 1));
        assert(prefix_at(tokens_of(qs[k].1), s, p + 1));
        assert(ps[k].1 == qs[k].1);
        assert(ps[k] == qs[k]);
        assert(ps.subrange(0, k + 1) =~= ps.subrange(0, k).push(ps[k]));
        assert(qs.subrange(0, k + 1) =~= qs.subrange(0, k).push(qs[k]));
        lemma_pairs_unique(ps, qs, s, base, k + 1);
    }
}

/// Two values whose tokens both stand at `pos` of `s` are one value: a
/// token stream is read in one way only.
pub proof fn lemma_tokens_unique(a: BVal, b: BVal, s: Seq<Tk>, pos: int)
    requires
        prefix_at(tokens_of(a), s, pos),
        prefix_at(tokens_of(b), s, pos),
    ensures
        a == b,
    decreases a,
{
    lemma_tokens_start(a);
    lemma_tokens_start(b);
    assert(s[pos] == s.subrange(pos, pos + tokens_of(a).len())[0]);
    assert(s[pos] == s.subrange(pos, pos + tokens_of(b).len())[0]);
    match a {
        BVal::Int(n) => {
            lemma_int_text_injective(n, b->Int_0);
        },
        BVal::Bytes(_) => {},
        BVal::List(xs) => {
            let ys = b->List_0;
            assert forall|i: int, c: BVal, p: int|
                #![trigger prefix_at(tokens_of(xs[i]), s, p), prefix_at(tokens_of(c), s, p)]
                0 <= i < xs.len() && prefix_at(tokens_of(xs[i]), s, p) && prefix_at(
                    tokens_of(c),
                    s,
                    p,
                ) implies xs[i] == c by {
                lemma_tokens_unique(xs[i], c, s, p);
            }
            lemma_inner_list_at(xs, s, pos);
            lemma_inner_list_at(ys, s, pos);
            assert(xs.subrange(0, 0) =~= ys.subrange(0, 0));
            lemma_items_unique(xs, ys, s, pos + 1, 0);
        },
        BVal::Dict(ps) => {
            let qs = b->Dict_0;
            assert forall|i: int, c: BVal, p: int|
                #![trigger prefix_at(tokens_of(ps[i].1), s, p), prefix_at(tokens_of(c), s, p)]
                0 <= i < ps.len() && prefix_at(tokens_of(ps[i].1), s, p) && prefix_at(
                    tokens_of(c),
                    s,
                    p,
                ) implies ps[i].1 == c by {
                lemma_tokens_unique(ps[i].1, c, s, p);
            }
            lemma_inner_dict_at(ps, s, pos);
            lemma_inner_dict_at(qs, s, pos);
            assert(ps.subrange(0, 0) =~= qs.subrange(0, 0));
            lemma_pairs_unique(ps, qs, s, pos + 1, 0);
        },
    }
}

/// Appends the text of `t` to `out`.
fn write_token_text(t: &Token, out: &mut Vec<u8>)
    ensures
        final(out)@ == old(out)@ + tk_text(t@),
{
    match t {
        Token::List => out.push(108),
        Token::Dict => out.push(100),
        Token::End => out.push(101),
        Token::Bytes(b) => {
            let mut len = int_to_text(b.len() as i128);
            out.append(&mut len);
            out.push(58);
            let mut i: usize = 0;
            let ghost start = out@;
            while i < b.len()
                invariant
                    i <= b@.len(),
                    out@ == start + b@.subrange(0, i as int),
                decreases b@.len() - i,
            {
                out.push(b[i]);
                i += 1;
                proof {
                    assert(b@.subrange(0, i as int) =~= b@.subrange(0, i - 1).push(b@[i - 1]));
                }
            }
        },
        Token::Num(n) => {
            out.push(105);
            let mut i: usize = 0;
            let ghost start = out@;
            while i < n.len()
                invariant
                    i <= n@.len(),
                    out@ == start + n@.subrange(0, i as int),
                decreases n@.len() - i,
            {
                out.push(n[i]);
                i += 1;
                proof {
                    assert(n@.subrange(0, i as int) =~= n@.subrange(0, i - 1).push(n@[i - 1]));
                }
            }
            out.push(101);
        },
    }
    proof {
        match t {
            Token::Bytes(b) => {
                assert(b@.subrange(0, b@.len() as int) =~= b@);
            },
            Token::Num(n) => {
                assert(n@.subrange(0, n@.len() as int) =~= n@);
            },
            _ => {},
        }
        assert(final(out)@ =~= old(out)@ + tk_text(t@));
    }
}

/// Writes a token stream as bytes.
pub fn write_tokens(ts: &Vec<Token>) -> (r: Vec<u8>)
    ensures
        r@ == text_of(tks(ts@)),
{
    let mut out: Vec<u8> = Vec::new();
    let mut i: usize = 0;
    while i < ts.len()
        invariant
            i <= ts@.len(),
            out@ == text_of(tks(ts@).subrange(0, i as int)),
        decreases ts@.len() - i,
    {
        write_token_text(&ts[i], &mut out);
        i += 1;
        proof {
            let pre = tks(ts@).subrange(0, i as int);
            assert(pre.drop_last() =~= tks(ts@).subrange(0, i - 1));
        }
    }
    proof {
        assert(tks(ts@).subrange(0, ts@.len() as int) =~= tks(ts@));
    }
    out
}

pub proof fn lemma_list_view(v: Value)
    requires
        v is List,
    ensures
        v@ == BVal::List(items_view(v->List_0@)),
{
    assert(v@->List_0 =~= items_view(v->List_0@));
}

pub proof fn lemma_dict_view(v: Value)
    requires
        v is Dict,
    ensures
        v@ == BVal::Dict(pairs_view(v->Dict_0@, v->Dict_1@)),
{
    let d = v@->Dict_0;
    assert(d =~= pairs_view(v->Dict_0@, v->Dict_1@));
}

proof fn lemma_items_push(items: Seq<Value>, x: Value)
    ensures
        items_view(items.push(x)) == items_view(items).push(x@),
        list_tokens(items_view(items.push(x))) == list_tokens(items_view(items)) + tokens_of(x@),
{
    assert(items_view(items.push(x)) =~= items_view(items).push(x@));
    assert(items_view(items).push(x@).drop_last() =~= items_view(items));
}

proof fn lemma_pairs_push(ks: Seq<Vec<u8>>, vs: Seq<Value>, k: Vec<u8>, x: Value)
    requires
        ks.len() == vs.len(),
    ensures
        pairs_view(ks.push(k), vs.push(x)) == pairs_view(ks, vs).push((k@, x@)),
        dict_tokens(pairs_view(ks.push(k), vs.push(x))) == dict_tokens(pairs_view(ks, vs)) + seq![
            Tk::Bytes(k@),
        ] + tokens_of(x@),
{
    assert(pairs_view(ks.push(k), vs.push(x)) =~= pairs_view(ks, vs).push((k@, x@)));
    assert(pairs_view(ks, vs).push((k@, x@)).drop_last() =~= pairs_view(ks, vs));
}

/// Reads one value from `ts` at `pos`; returns it and the position after it.
/// Where `w` is a value whose tokens stand at `pos`, the value read is `w`.
fn parse_at(ts: &Vec<Token>, pos: usize, Ghost(w): Ghost<Option<BVal>>) -> (r: Option<
    (Value, usize),
>)
    requires
        pos <= ts@.len(),
        w matches Some(x) ==> fits(x) && prefix_at(tokens_of(x), tks(ts@), pos as int),
    ensures
        r matches Some((v, p)) ==> pos < p <= ts@.len() && tks(ts@).subrange(pos as int, p as int)
            == tokens_of(v@),
        w matches Some(x) ==> (r matches Some((v, p)) && v@ == x && p == pos + tokens_of(x).len()),
    decreases ts@.len() - pos,
{
    let ghost s = tks(ts@);
    if pos >= ts.len() {
        proof {
            if w is Some {
                lemma_tokens_start(w->0);
            }
        }
        return None;
    }
    proof {
        if w is Some {
            lemma_tokens_start(w->0);
            assert(s[pos as int] == s.subrange(pos as int, pos + tokens_of(w->0).len())[0]);
        }
    }
    match &ts[pos] {
        Token::Num(t) => {
            match text_to_int(t.as_slice()) {
                None => None,
                Some(n) => {
                    let v = Value::Int(n);
                    proof {
                        assert(s.subrange(pos as int, pos + 1) =~= tokens_of(v@));
                    }
                    Some((v, pos + 1))
                },
            }
        },
        Token::Bytes(b) => {
            let v = Value::Bytes(b.clone());
            proof {
                assert(s.subrange(pos as int, pos + 1) =~= tokens_of(v@));
            }
            Some((v, pos + 1))
        },
        Token::End => None,
        Token::List => {
            let mut items: Vec<Value> = Vec::new();
            let mut j: usize = pos + 1;
            proof {
                assert(s.subrange(pos as int, j as int) =~= seq![Tk::List] + list_tokens(
                    items_view(items@),
                ));
                if w is Some {
                    assert(items_view(items@) =~= w->0->List_0.subrange(0, 0));
                }
            }
            loop
                invariant
                    pos < j <= ts@.len(),
                    s == tks(ts@),
                    s.subrange(pos as int, j as int) == seq![Tk::List] + list_tokens(
                        items_view(items@),
                    ),
                    w matches Some(x) ==> fits(x) && prefix_at(tokens_of(x), s, pos as int),
                    w matches Some(x) ==> x is List && items@.len() <= x->List_0.len()
                        && items_view(items@) == x->List_0.subrange(0, items@.len() as int),
                decreases ts@.len() - j,
            {
                let ghost k = items@.len() as int;
                proof {
                    if w is Some {
                        let xs = w->0->List_0;
                        lemma_list_prefix(xs, k);
                        let lt = list_tokens(xs);
                        assert(tokens_of(w->0) == seq![Tk::List] + lt + seq![Tk::End]);
                        assert(s.subrange(pos + 1, pos + (1 + lt.len()) as int) =~= lt) by {
                            assert(s.subrange(pos + 1, pos + (1 + lt.len()) as int) =~= tokens_of(
                                w->0,
                            ).subrange(1, (1 + lt.len()) as int));
                        }
                        assert(j == pos + 1 + list_tokens(xs.subrange(0, k)).len()) by {
                            assert(s.subrange(pos as int, j as int).len() == j - pos);
                        }
                        if k < xs.len() {
                            lemma_list_prefix(xs, k + 1);
                            assert(xs.subrange(0, k + 1).drop_last() =~= xs.subrange(0, k));
                            let it = tokens_of(xs[k]);
                            let lk = list_tokens(xs.subrange(0, k));
                            assert(list_tokens(xs.subrange(0, k + 1)) == lk + it);
                            assert(s.subrange(j as int, j + it.len()) =~= lt.subrange(
                                lk.len() as int,
                                (lk.len() + it.len()) as int,
                            ));
                            assert(lt.subrange(lk.len() as int, (lk.len() + it.len()) as int) =~= (lk
                                + it).subrange(lk.len() as int, (lk.len() + it.len()) as int));
                            assert(s.subrange(j as int, j + it.len()) =~= it);
                            assert(fits(xs[k]));
                        } else {
                            assert(xs.subrange(0, k) =~= xs);
                            assert(s[j as int] == tokens_of(w->0)[(1 + lt.len()) as int]);
                        }
                    }
                }
                if j >= ts.len() {
                    proof {
                        if w is Some {
                            lemma_tokens_start(w->0->List_0[k]);
                        }
                    }
                    return None;
                }
                if let Token::End = &ts[j] {
                    let ghost iv = items_view(items@);
                    let v = Value::List(items);
                    proof {
                        lemma_list_view(v);
                        assert(s.subrange(pos as int, j + 1) =~= s.subrange(pos as int, j as int)
                            + seq![s[j as int]]);
                        if w is Some {
                            let xs = w->0->List_0;
                            if k < xs.len() {
                                lemma_tokens_start(xs[k]);
                                assert(s[j as int] == s.subrange(
                                    j as int,
                                    j + tokens_of(xs[k]).len(),
                                )[0]);
                            }
                            assert(iv =~= xs);
                        }
                    }
                    return Some((v, j + 1));
                }
                let ghost gw: Option<BVal> = if w is Some && k < w->0->List_0.len() {
                    Some(w->0->List_0[k])
                } else {
                    None
                };
                let item = parse_at(ts, j, Ghost(gw));
                match item {
                    None => {
                        proof {
                            if w is Some {
                                let xs = w->0->List_0;
                                if k >= xs.len() {
                                    assert(false);
                                }
                            }
                        }
                        return None;
                    },
                    Some((x, p)) => {
                        let ghost old_items = items@;
                        proof {
                            lemma_items_push(old_items, x);
                            assert(s.subrange(pos as int, p as int) =~= s.subrange(
                                pos as int,
                                j as int,
                            ) + s.subrange(j as int, p as int));
                        }
                        items.push(x);
                        j = p;
                        proof {
                            if w is Some {
                                let xs = w->0->List_0;
                                assert(items_view(items@) =~= xs.subrange(0, k + 1));
                            }
                        }
                    },
                }
            }
        },
        Token::Dict => {
            let mut keys: Vec<Vec<u8>> = Vec::new();
            let mut vals: Vec<Value> = Vec::new();
            let mut j: usize = pos + 1;
            proof {
                assert(s.subrange(pos as int, j as int) =~= seq![Tk::Dict] + dict_tokens(
                    pairs_view(keys@, vals@),
                ));
                if w is Some {
                    assert(pairs_view(keys@, vals@) =~= w->0->Dict_0.subrange(0, 0));
                }
            }
            loop
                invariant
                    pos < j <= ts@.len(),
                    s == tks(ts@),
                    s.subrange(pos as int, j as int) == seq![Tk::Dict] + dict_tokens(
                        pairs_view(keys@, vals@),
                    ),
                    w matches Some(x) ==> fits(x) && prefix_at(tokens_of(x), s, pos as int),
                    keys@.len() == vals@.len(),
                    w matches Some(x) ==> x is Dict && vals@.len() <= x->Dict_0.len()
                        && pairs_view(keys@, vals@) == x->Dict_0.subrange(0, vals@.len() as int),
                decreases ts@.len() - j,
            {
                let ghost k = vals@.len() as int;
                proof {
                    if w is Some {
                        let ps = w->0->Dict_0;
                        lemma_dict_prefix(ps, k);
                        let dt = dict_tokens(ps);
                        assert(tokens_of(w->0) == seq![Tk::Dict] + dt + seq![Tk::End]);
                        assert(s.subrange(pos + 1, pos + (1 + dt.len()) as int) =~= dt) by {
                            assert(s.subrange(pos + 1, pos + (1 + dt.len()) as int) =~= tokens_of(
                                w->0,
                            ).subrange(1, (1 + dt.len()) as int));
                        }
                        assert(j == pos + 1 + dict_tokens(ps.subrange(0, k)).len()) by {
                            assert(s.subrange(pos as int, j as int).len() == j - pos);
                        }
                        if k < ps.len() {
                            lemma_dict_prefix(ps, k + 1);
                            assert(ps.subrange(0, k + 1).drop_last() =~= ps.subrange(0, k));
                            let it = seq![Tk::Bytes(ps[k].0)] + tokens_of(ps[k].1);
                            let dk = dict_tokens(ps.subrange(0, k));
                            assert(dict_tokens(ps.subrange(0, k + 1)) =~= dk + it);
                            assert(s.subrange(j as int, j + it.len()) =~= dt.subrange(
                                dk.len() as int,
                                (dk.len() + it.len()) as int,
                            ));
                            assert(dt.subrange(dk.len() as int, (dk.len() + it.len()) as int) =~= (dk
                                + it).subrange(dk.len() as int, (dk.len() + it.len()) as int));
                            assert(s.subrange(j as int, j + it.len()) =~= it);
                            assert(s[j as int] == it[0]);
                            assert(s.subrange(j + 1, j + it.len()) =~= it.subrange(1, it.len() as int));
                            assert(it.subrange(1, it.len() as int) =~= tokens_of(ps[k].1));
                            assert(fits(ps[k].1));
                        } else {
                            assert(ps.subrange(0, k) =~= ps);
                            assert(s[j as int] == tokens_of(w->0)[(1 + dt.len()) as int]);
                        }
                    }
                }
                if j >= ts.len() {
                    return None;
                }
                if let Token::End = &ts[j] {
                    let ghost pv = pairs_view(keys@, vals@);
                    let v = Value::Dict(keys, vals);
                    proof {
                        lemma_dict_view(v);
                        assert(s.subrange(pos as int, j + 1) =~= s.subrange(
                            pos as int,
                            j as int,
                        ) + seq![s[j as int]]);
                        if w is Some {
                            assert(pv =~= w->0->Dict_0);
                        }
                    }
                    return Some((v, j + 1));
                }
                let key: Vec<u8> = match &ts[j] {
                    Token::Bytes(b) => b.clone(),
                    _ => {
                        return None;
                    },
                };
                let ghost gw: Option<BVal> = if w is Some && k < w->0->Dict_0.len() {
                    Some(w->0->Dict_0[k].1)
                } else {
                    None
                };
                let item = parse_at(ts, j + 1, Ghost(gw));
                match item {
                    None => {
                        return None;
                    },
                    Some((x, p)) => {
                        proof {
                            lemma_pairs_push(keys@, vals@, key, x);
                            assert(s.subrange(pos as int, p as int) =~= s.subrange(
                                pos as int,
                                j as int,
                            ) + seq![s[j as int]] + s.subrange(j + 1, p as int));
                        }
                        keys.push(key);
                        vals.push(x);
                        j = p;
                        proof {
                            if w is Some {
                                let ps = w->0->Dict_0;
                                assert(pairs_view(keys@, vals@) =~= ps.subrange(0, k + 1));
                            }
                        }
                    },
                }
            }
        },
    }
}

/// Reads the whole token stream as one value; where `w` is a value whose
/// tokens are the whole stream, the value read is `w`.
fn parse_tokens(ts: &Vec<Token>, Ghost(w): Ghost<Option<BVal>>) -> (r: Option<Value>)
    ensures
        r matches Some(v) ==> tokens_of(v@) == tks(ts@),
        w matches Some(x) ==> (fits(x) && tokens_of(x) == tks(ts@) ==> (r matches Some(v) && v@
            == x)),
{
    let ghost gw: Option<BVal> = if w is Some && fits(w->0) && tokens_of(w->0) == tks(ts@) {
        w
    } else {
        None
    };
    proof {
        if gw is Some {
            assert(tks(ts@).subrange(0, tks(ts@).len() as int) =~= tks(ts@));
        }
    }
    match parse_at(ts, 0, Ghost(gw)) {
        Some((v, p)) => {
            if p == ts.len() {
                proof {
                    assert(tks(ts@).subrange(0, p as int) =~= tks(ts@));
                }
                Some(v)
            } else {
                None
            }
        },
        None => None,
    }
}

/// Relies on bendy's `Decoder::tokens`, bounded by `Decoder::with_max_depth`:
/// the tokens it yields, written out again, are the input; and the encoding
/// of a well-formed value no deeper than the bound is read as that value's
/// tokens.
#[verifier::external_body]
fn tokenize(bytes: &[u8], max_depth: usize) -> (r: Result<Vec<Token>, BencodeError>)
    ensures
        r is Ok ==> text_of(tks(r->Ok_0@)) == bytes@,
        forall|w: BVal|
            well_formed(w, max_depth as nat) && encoding(w) == bytes@ ==> r is Ok && tks(
                r->Ok_0@,
            ) == tokens_of(w),
{
    let mut out = Vec::new();
    for t in bendy::decoding::Decoder::new(bytes).with_max_depth(max_depth).tokens() {
        out.push(
            match t? {
                BendyToken::List => Token::List,
                BendyToken::Dict => Token::Dict,
                BendyToken::End => Token::End,
                BendyToken::String(s) => Token::Bytes(s.to_vec()),
                BendyToken::Num(n) => Token::Num(n.as_bytes().to_vec()),
            },
        );
    }
    Ok(out)
}

/// Decodes `bytes` as one bencode value nesting at most `max_depth` lists and
/// dictionaries: the well-formed value of that depth whose encoding is
/// `bytes`, if there is one.
pub fn decode_value(bytes: &[u8], max_depth: usize) -> (r: Result<Value, Error>)
    ensures
        r matches Ok(v) ==> encoding(v@) == bytes@,
        forall|w: BVal|
            well_formed(w, max_depth as nat) && fits(w) && encoding(w) == bytes@ ==> (r matches Ok(v)
                && v@ == w),
        r matches Err(e) ==> e is Decode || e is MalformedContent,
{
    let ghost target: Option<BVal> = if exists|w: BVal|
        well_formed(w, max_depth as nat) && fits(w) && encoding(w) == bytes@ {
        Some(choose|w: BVal| well_formed(w, max_depth as nat) && fits(w) && encoding(w) == bytes@)
    } else {
        None
    };
    match tokenize(bytes, max_depth) {
        Err(e) => Err(Error::Decode(e)),
        Ok(ts) => {
            let r = parse_tokens(&ts, Ghost(target));
            proof {
                assert forall|w: BVal|
                    well_formed(w, max_depth as nat) && fits(w) && encoding(w) == bytes@ implies (
                r matches Some(v) && v@ == w) by {
                    let t = target->0;
                    assert(tks(ts@) == tokens_of(w));
                    assert(tks(ts@) == tokens_of(t));
                    assert(tks(ts@).subrange(0, tks(ts@).len() as int) =~= tks(ts@));
                    lemma_tokens_unique(w, t, tks(ts@), 0);
                }
            }
            match r {
                Some(v) => Ok(v),
                None => Err(Error::MalformedContent(String::from_str("integer out of range"))),
            }
        },
    }
}

/// Appends the tokens of `v` to `out`.
fn push_tokens(v: &Value, out: &mut Vec<Token>)
    ensures
        tks(final(out)@) == tks(old(out)@) + tokens_of(v@),
    decreases v@,
{
    let ghost start = tks(old(out)@);
    match v {
        Value::Int(n) => {
            out.push(Token::Num(int_to_text(*n)));
            proof {
                assert(tks(out@) =~= start + tokens_of(v@));
            }
        },
        Value::Bytes(b) => {
            out.push(Token::Bytes(b.clone()));
            proof {
                assert(tks(out@) =~= start + tokens_of(v@));
            }
        },
        Value::List(xs) => {
            out.push(Token::List);
            let mut i: usize = 0;
            proof {
                assert(tks(out@) =~= start + seq![Tk::List] + list_tokens(
                    items_view(xs@.subrange(0, 0)),
                ));
            }
            proof {
                lemma_list_view(*v);
            }
            while i < xs.len()
                invariant
                    i <= xs@.len(),
                    v@ == BVal::List(items_view(xs@)),
                    tks(out@) == start + seq![Tk::List] + list_tokens(
                        items_view(xs@.subrange(0, i as int)),
                    ),
                decreases xs@.len() - i,
            {
                let ghost before = tks(out@);
                proof {
                    assert(v@->List_0[i as int] == xs@[i as int]@);
                }
                push_tokens(&xs[i], out);
                proof {
                    lemma_items_push(xs@.subrange(0, i as int), xs@[i as int]);
                    assert(xs@.subrange(0, i + 1) =~= xs@.subrange(0, i as int).push(
                        xs@[i as int],
                    ));
                }
                i += 1;
            }
            let ghost before_end = tks(out@);
            out.push(Token::End);
            proof {
                assert(tks(out@) =~= before_end.push(Tk::End));
                lemma_list_view(*v);
                assert(xs@.subrange(0, xs@.len() as int) =~= xs@);
                assert(tks(out@) =~= start + tokens_of(v@));
            }
        },
        Value::Dict(ks, vs) => {
            out.push(Token::Dict);
            let mut i: usize = 0;
            proof {
                assert(tks(out@) =~= start + seq![Tk::Dict] + dict_tokens(
                    pairs_view(ks@.subrange(0, 0), vs@.subrange(0, 0)),
                ));
            }
            proof {
                lemma_dict_view(*v);
            }
            while i < vs.len() && i < ks.len()
                invariant
                    v@ == BVal::Dict(pairs_view(ks@, vs@)),
                    i <= vs@.len(),
                    i <= ks@.len(),
                    tks(out@) == start + seq![Tk::Dict] + dict_tokens(
                        pairs_view(ks@.subrange(0, i as int), vs@.subrange(0, i as int)),
                    ),
                decreases vs@.len() - i,
            {
                let ghost before_key = tks(out@);
                out.push(Token::Bytes(ks[i].clone()));
                proof {
                    assert(tks(out@) =~= before_key.push(Tk::Bytes(ks@[i as int]@)));
                }
                proof {
                    assert(v@->Dict_0[i as int].1 == vs@[i as int]@);
                }
                push_tokens(&vs[i], out);
                proof {
                    lemma_pairs_push(
                        ks@.subrange(0, i as int),
                        vs@.subrange(0, i as int),
                        ks@[i as int],
                        vs@[i as int],
                    );
                    assert(ks@.subrange(0, i + 1) =~= ks@.subrange(0, i as int).push(
                        ks@[i as int],
                    ));
                    assert(vs@.subrange(0, i + 1) =~= vs@.subrange(0, i as int).push(
                        vs@[i as int],
                    ));
                    assert(tks(out@) =~= start + seq![Tk::Dict] + dict_tokens(
                        pairs_view(ks@.subrange(0, i + 1), vs@.subrange(0, i + 1)),
                    ));
                }
                i += 1;
            }
            let ghost before_end = tks(out@);
            out.push(Token::End);
            proof {
                assert(tks(out@) =~= before_end.push(Tk::End));
                lemma_dict_view(*v);
                assert(pairs_view(ks@.subrange(0, i as int), vs@.subrange(0, i as int)) =~= pairs_view(ks@, vs@));
                assert(tks(out@) =~= start + tokens_of(v@));
            }
        },
    }
}

/// The bencode encoding of `v`.
pub fn encode_value(v: &Value) -> (r: Vec<u8>)
    ensures
        r@ == encoding(v@),
{
    let mut ts: Vec<Token> = Vec::new();
    push_tokens(v, &mut ts);
    proof {
        assert(tks(ts@) =~= tokens_of(v@));
    }
    write_tokens(&ts)
}

} // verus!
