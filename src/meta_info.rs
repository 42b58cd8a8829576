//! The top-level dictionary of a torrent file.
use vstd::prelude::*;

use crate::bencode::{
    BVal, Value, decode_value, encode_value, encoding, fits, lemma_dict_view, pairs_view,
    well_formed,
};
use crate::error::Error;
use crate::field::{
    as_i64, as_text, as_text_tiers, bytes_eq, lemma_text_round_trip, lemma_text_tiers_round_trip,
    lookup, opt_text, string_tiers_value, string_value, text_tiers_value, text_value, tiers,
    value_i64, value_string, value_string_tiers,
};
use crate::field::{lemma_lookup_push_opt, lemma_push_opt_all, opt_field, opt_text_value, push_opt};
use crate::info::{Info, InfoModel, info_decodes, info_of, info_valid, info_value, lemma_info_value_round_trip};
use crate::keys::{
    announce_key, announce_list_key, comment_key, created_by_key, creation_date_key, encoding_key,
    info_key, key_announce, key_announce_list, key_comment, key_created_by, key_creation_date,
    key_encoding, key_info,
};

verus! {

/// Whether a UTC date-time exists `secs` seconds after the Unix epoch: from
/// January 1 of the year -262143, 00:00:00, to December 31 of the year
/// 262142, 23:59:59.
pub open spec fn utc_timestamp_valid(secs: int) -> bool {
    -8334601228800 <= secs <= 8210266876799
}

/// Relies on chrono's `TimeZone::timestamp_opt` on `Utc`, which builds the
/// date-time with `DateTime::from_timestamp`: it exists exactly for the
/// seconds between `NaiveDateTime::MIN` and `NaiveDateTime::MAX`.
#[verifier::external_body]
fn timestamp_in_range(secs: i64) -> (r: bool)
    ensures
        r == utc_timestamp_valid(secs as int),
{
    chrono::TimeZone::timestamp_opt(&chrono::Utc, secs, 0).single().is_some()
}

/// A moment that a UTC date-time can name, in whole seconds since the Unix
/// epoch.
#[derive(Debug, PartialEq, Eq)]
pub struct Timestamp {
    secs: i64,
}

impl View for Timestamp {
    type V = i64;

    closed spec fn view(&self) -> i64 {
        self.secs
    }
}

impl Timestamp {
    /// Every timestamp names a UTC date-time.
    #[verifier::type_invariant]
    spec fn inv(&self) -> bool {
        utc_timestamp_valid(self.secs as int)
    }

    /// The timestamp `secs` seconds after the epoch, when a UTC date-time
    /// exists there.
    pub fn from_secs(secs: i64) -> (r: Option<Timestamp>)
        ensures
            r is Some <==> utc_timestamp_valid(secs as int),
            r is Some ==> r->0@ == secs,
    {
        if timestamp_in_range(secs) {
            Some(Timestamp { secs })
        } else {
            None
        }
    }

    /// Seconds since the Unix epoch.
    pub fn secs(&self) -> (r: i64)
        ensures
            r == self@,
            utc_timestamp_valid(r as int),
    {
        proof {
            use_type_invariant(self);
        }
        self.secs
    }
}

/// The seconds of an optional timestamp.
pub open spec fn opt_secs(t: Option<Timestamp>) -> Option<i64> {
    match t {
        Some(t) => Some(t@),
        None => None,
    }
}

/// The metadata of a torrent.
#[derive(Debug, PartialEq, Eq)]
pub struct MetaInfo {
    announce: String,
    info: Info,
    announce_list: Option<Vec<Vec<String>>>,
    creation_date: Option<Timestamp>,
    comment: Option<String>,
    created_by: Option<String>,
    encoding: Option<String>,
}

/// The model of a [`MetaInfo`].
pub struct MetaInfoModel {
    pub announce: Seq<char>,
    pub info: InfoModel,
    pub announce_list: Option<Seq<Seq<Seq<char>>>>,
    pub creation_date: Option<i64>,
    pub comment: Option<Seq<char>>,
    pub created_by: Option<Seq<char>>,
    pub encoding: Option<Seq<char>>,
}

/// The texts of optional tiers of trackers.
pub open spec fn opt_tiers(o: Option<Vec<Vec<String>>>) -> Option<Seq<Seq<Seq<char>>>> {
    match o {
        Some(vv) => Some(tiers(vv@)),
        None => None,
    }
}

impl View for MetaInfo {
    type V = MetaInfoModel;

    closed spec fn view(&self) -> MetaInfoModel {
        MetaInfoModel {
            announce: self.announce@,
            info: self.info@,
            announce_list: opt_tiers(self.announce_list),
            creation_date: opt_secs(self.creation_date),
            comment: opt_text(self.comment),
            created_by: opt_text(self.created_by),
            encoding: opt_text(self.encoding),
        }
    }
}

/// A valid torrent: a valid info, and a creation date that is a real date.
pub open spec fn meta_info_valid(m: MetaInfoModel) -> bool {
    &&& info_valid(m.info)
    &&& m.creation_date is Some ==> utc_timestamp_valid(m.creation_date->0 as int)
}

/// Optional tiers as an optional bencode value.
pub open spec fn opt_tiers_value(o: Option<Seq<Seq<Seq<char>>>>) -> Option<BVal> {
    match o {
        Some(tt) => Some(text_tiers_value(tt)),
        None => None,
    }
}

/// An optional date as an optional bencode value.
pub open spec fn opt_date_value(o: Option<i64>) -> Option<BVal> {
    match o {
        Some(d) => Some(BVal::Int(d as int)),
        None => None,
    }
}

/// The dictionary of a torrent, keys in order.
pub open spec fn meta_info_pairs(m: MetaInfoModel) -> Seq<(Seq<u8>, BVal)> {
    push_opt(
        push_opt(
            push_opt(
                push_opt(
                    push_opt(
                        seq![(key_announce(), text_value(m.announce))],
                        key_announce_list(),
                        opt_tiers_value(m.announce_list),
                    ),
                    key_comment(),
                    opt_text_value(m.comment),
                ),
                key_created_by(),
                opt_text_value(m.created_by),
            ),
            key_creation_date(),
            opt_date_value(m.creation_date),
        ),
        key_encoding(),
        opt_text_value(m.encoding),
    ).push((key_info(), info_value(m.info)))
}

/// The bencode value of a torrent.
pub open spec fn meta_info_value(m: MetaInfoModel) -> BVal {
    BVal::Dict(meta_info_pairs(m))
}

/// An info dictionary that decodes.
pub open spec fn as_info(v: BVal) -> Option<InfoModel> {
    if v is Dict && info_decodes(v->Dict_0) {
        Some(info_of(v->Dict_0))
    } else {
        None
    }
}

/// A creation date that is a real date.
pub open spec fn as_date(v: BVal) -> Option<i64> {
    match as_i64(v) {
        Some(d) => if utc_timestamp_valid(d as int) {
            Some(d)
        } else {
            None
        },
        None => None,
    }
}

/// A key that a torrent's dictionary may hold.
pub open spec fn meta_key(k: Seq<u8>) -> bool {
    k == key_announce() || k == key_announce_list() || k == key_comment() || k == key_created_by()
        || k == key_creation_date() || k == key_encoding() || k == key_info()
}

/// The value under an allowed key has the type that the key calls for.
pub open spec fn meta_pair_ok(k: Seq<u8>, v: BVal) -> bool {
    &&& k == key_announce() ==> as_text(v) is Some
    &&& k == key_announce_list() ==> as_text_tiers(v) is Some
    &&& k == key_comment() ==> as_text(v) is Some
    &&& k == key_created_by() ==> as_text(v) is Some
    &&& k == key_creation_date() ==> as_date(v) is Some
    &&& k == key_encoding() ==> as_text(v) is Some
    &&& k == key_info() ==> as_info(v) is Some
}

/// Every key is allowed and every value well-typed.
pub open spec fn meta_fields_ok(ps: Seq<(Seq<u8>, BVal)>) -> bool {
    forall|i: int| 0 <= i < ps.len() ==> meta_key(#[trigger] ps[i].0) && meta_pair_ok(ps[i].0, ps[i].1)
}

/// A dictionary that decodes as a torrent.
pub open spec fn meta_decodes(ps: Seq<(Seq<u8>, BVal)>) -> bool {
    meta_fields_ok(ps) && lookup(ps, key_announce()) is Some && lookup(ps, key_info()) is Some
}

/// The torrent that a dictionary decodes as.
pub open spec fn meta_of(ps: Seq<(Seq<u8>, BVal)>) -> MetaInfoModel {
    MetaInfoModel {
        announce: as_text(lookup(ps, key_announce())->0)->0,
        info: as_info(lookup(ps, key_info())->0)->0,
        announce_list: opt_field(lookup(ps, key_announce_list()), |x: BVal| as_text_tiers(x)),
        creation_date: opt_field(lookup(ps, key_creation_date()), |x: BVal| as_date(x)),
        comment: opt_field(lookup(ps, key_comment()), |x: BVal| as_text(x)),
        created_by: opt_field(lookup(ps, key_created_by()), |x: BVal| as_text(x)),
        encoding: opt_field(lookup(ps, key_encoding()), |x: BVal| as_text(x)),
    }
}

/// The pairs of a torrent before the `info` pair, stage by stage.
pub open spec fn meta_stage(m: MetaInfoModel, n: nat) -> Seq<(Seq<u8>, BVal)>
    decreases n,
{
    if n == 0 {
        seq![(key_announce(), text_value(m.announce))]
    } else if n == 1 {
        push_opt(meta_stage(m, 0), key_announce_list(), opt_tiers_value(m.announce_list))
    } else if n == 2 {
        push_opt(meta_stage(m, 1), key_comment(), opt_text_value(m.comment))
    } else if n == 3 {
        push_opt(meta_stage(m, 2), key_created_by(), opt_text_value(m.created_by))
    } else if n == 4 {
        push_opt(meta_stage(m, 3), key_creation_date(), opt_date_value(m.creation_date))
    } else {
        push_opt(meta_stage(m, 4), key_encoding(), opt_text_value(m.encoding))
    }
}

/// A pair of a valid torrent's dictionary: an allowed key, a well-typed
/// value, well-formed to the remaining depth.
pub open spec fn meta_pair_good(e: (Seq<u8>, BVal)) -> bool {
    meta_key(e.0) && meta_pair_ok(e.0, e.1) && well_formed(e.1, 4) && fits(e.1)
}

proof fn lemma_meta_keys_distinct()
    ensures
        key_announce() != key_announce_list(),
        key_announce() != key_comment(),
        key_announce() != key_created_by(),
        key_announce() != key_creation_date(),
        key_announce() != key_encoding(),
        key_announce() != key_info(),
        key_announce_list() != key_comment(),
        key_announce_list() != key_created_by(),
        key_announce_list() != key_creation_date(),
        key_announce_list() != key_encoding(),
        key_announce_list() != key_info(),
        key_comment() != key_created_by(),
        key_comment() != key_creation_date(),
        key_comment() != key_encoding(),
        key_comment() != key_info(),
        key_created_by() != key_creation_date(),
        key_created_by() != key_encoding(),
        key_created_by() != key_info(),
        key_creation_date() != key_encoding(),
        key_creation_date() != key_info(),
        key_encoding() != key_info(),
{
    assert(key_announce().len() != key_announce_list().len());
    assert(key_announce()[0] != key_comment()[0]);
    assert(key_announce()[0] != key_created_by()[0]);
    assert(key_announce()[0] != key_creation_date()[0]);
    assert(key_announce()[0] != key_encoding()[0]);
    assert(key_announce()[0] != key_info()[0]);
    assert(key_announce_list()[0] != key_comment()[0]);
    assert(key_announce_list()[0] != key_created_by()[0]);
    assert(key_announce_list()[0] != key_creation_date()[0]);
    assert(key_announce_list()[0] != key_encoding()[0]);
    assert(key_announce_list()[0] != key_info()[0]);
    assert(key_comment()[1] != key_created_by()[1]);
    assert(key_comment()[1] != key_creation_date()[1]);
    assert(key_comment()[0] != key_encoding()[0]);
    assert(key_comment()[0] != key_info()[0]);
    assert(key_created_by()[5] != key_creation_date()[5]);
    assert(key_created_by()[0] != key_encoding()[0]);
    assert(key_created_by()[0] != key_info()[0]);
    assert(key_creation_date()[0] != key_encoding()[0]);
    assert(key_creation_date()[0] != key_info()[0]);
    assert(key_encoding()[0] != key_info()[0]);
}

proof fn lemma_meta_pairs_good(m: MetaInfoModel)
    requires
        meta_info_valid(m),
    ensures
        forall|i: int| 0 <= i < meta_info_pairs(m).len() ==> meta_pair_good(#[trigger] meta_info_pairs(m)[i]),
{
    lemma_text_round_trip(m.announce);
    lemma_info_value_round_trip(m.info);
    let pg = |e: (Seq<u8>, BVal)| meta_pair_good(e);
    if m.comment is Some {
        lemma_text_round_trip(m.comment->0);
    }
    if m.created_by is Some {
        lemma_text_round_trip(m.created_by->0);
    }
    if m.encoding is Some {
        lemma_text_round_trip(m.encoding->0);
    }
    if m.announce_list is Some {
        let tt = m.announce_list->0;
        lemma_text_tiers_round_trip(tt);
        let tv = text_tiers_value(tt);
        assert forall|i: int| 0 <= i < tv->List_0.len() implies well_formed(#[trigger] tv->List_0[i], 3) && fits(tv->List_0[i]) by {
            let l = tv->List_0[i]->List_0;
            assert forall|j: int| 0 <= j < l.len() implies well_formed(#[trigger] l[j], 2) && fits(l[j]) by {}
        }
        assert(well_formed(tv, 4));
        assert(fits(tv));
    }
    lemma_meta_keys_distinct();
    assert(meta_key(key_announce()));
    assert(as_text(text_value(m.announce)) is Some);
    assert(meta_pair_ok(key_announce(), text_value(m.announce)));
    assert(well_formed(text_value(m.announce), 4));
    assert(fits(text_value(m.announce)));
    assert(meta_pair_good((key_announce(), text_value(m.announce))));
    assert(forall|i: int| 0 <= i < meta_stage(m, 0).len() ==> pg(#[trigger] meta_stage(m, 0)[i]));
    lemma_push_opt_all(meta_stage(m, 0), key_announce_list(), opt_tiers_value(m.announce_list), pg);
    lemma_push_opt_all(meta_stage(m, 1), key_comment(), opt_text_value(m.comment), pg);
    lemma_push_opt_all(meta_stage(m, 2), key_created_by(), opt_text_value(m.created_by), pg);
    lemma_push_opt_all(meta_stage(m, 3), key_creation_date(), opt_date_value(m.creation_date), pg);
    lemma_push_opt_all(meta_stage(m, 4), key_encoding(), opt_text_value(m.encoding), pg);
    assert(meta_info_pairs(m) == meta_stage(m, 5).push((key_info(), info_value(m.info))));
    assert(meta_pair_good((key_info(), info_value(m.info))));
}

proof fn lemma_meta_pairs_sorted(m: MetaInfoModel)
    ensures
        forall|i: int| 0 <= i < meta_info_pairs(m).len() - 1 ==> crate::bencode::key_lt(
            #[trigger] meta_info_pairs(m)[i].0,
            meta_info_pairs(m)[i + 1].0,
        ),
{
    reveal_with_fuel(crate::bencode::key_lt, 10);
    let ps = meta_info_pairs(m);
    assert(crate::bencode::key_lt(key_announce(), key_announce_list()));
    assert(crate::bencode::key_lt(key_comment(), key_created_by()));
    assert(crate::bencode::key_lt(key_created_by(), key_creation_date()));
    let s0 = meta_stage(m, 0);
    let s1 = meta_stage(m, 1);
    let s2 = meta_stage(m, 2);
    let s3 = meta_stage(m, 3);
    let s4 = meta_stage(m, 4);
    let s5 = meta_stage(m, 5);
    // each stage's keys sort before every later key, so each optional push keeps the order
    lemma_push_opt_all(s0, key_announce_list(), opt_tiers_value(m.announce_list), |e: (Seq<u8>, BVal)| e.0 == key_announce() || e.0 == key_announce_list());
    lemma_push_opt_all(s1, key_comment(), opt_text_value(m.comment), |e: (Seq<u8>, BVal)| e.0 == key_announce() || e.0 == key_announce_list() || e.0 == key_comment());
    lemma_push_opt_all(s2, key_created_by(), opt_text_value(m.created_by), |e: (Seq<u8>, BVal)| e.0 == key_announce() || e.0 == key_announce_list() || e.0 == key_comment() || e.0 == key_created_by());
    lemma_push_opt_all(s3, key_creation_date(), opt_date_value(m.creation_date), |e: (Seq<u8>, BVal)| e.0 == key_announce() || e.0 == key_announce_list() || e.0 == key_comment() || e.0 == key_created_by() || e.0 == key_creation_date());
    lemma_push_opt_all(s4, key_encoding(), opt_text_value(m.encoding), |e: (Seq<u8>, BVal)| e.0 == key_announce() || e.0 == key_announce_list() || e.0 == key_comment() || e.0 == key_created_by() || e.0 == key_creation_date() || e.0 == key_encoding());
    assert(ps == s5.push((key_info(), info_value(m.info))));
    assert forall|i: int| 0 <= i < ps.len() - 1 implies crate::bencode::key_lt(
        #[trigger] ps[i].0,
        ps[i + 1].0,
    ) by {
        if i + 1 == ps.len() - 1 {
            assert(ps[i].0 == s5[i].0);
        } else {
            assert(ps[i] == s5[i] && ps[i + 1] == s5[i + 1]);
            if m.encoding is Some && i + 1 == s5.len() - 1 {
            } else {
                let s = if m.encoding is Some { s4 } else { s5 };
                assert(s5[i] == s4[i]);
                assert(s5[i + 1] == s4[i + 1]);
                if m.creation_date is Some && i + 1 == s4.len() - 1 {
                } else {
                    assert(s4[i] == s3[i] && s4[i + 1] == s3[i + 1]);
                    if m.created_by is Some && i + 1 == s3.len() - 1 {
                    } else {
                        assert(s3[i] == s2[i] && s3[i + 1] == s2[i + 1]);
                        if m.comment is Some && i + 1 == s2.len() - 1 {
                        } else {
                            assert(s2[i] == s1[i] && s2[i + 1] == s1[i + 1]);
                        }
                    }
                }
            }
        }
    }
}

/// What a lookup in a torrent's dictionary finds.
pub open spec fn meta_lookup(m: MetaInfoModel, k: Seq<u8>) -> Option<BVal> {
    if k == key_info() {
        Some(info_value(m.info))
    } else if k == key_encoding() && m.encoding is Some {
        opt_text_value(m.encoding)
    } else if k == key_creation_date() && m.creation_date is Some {
        opt_date_value(m.creation_date)
    } else if k == key_created_by() && m.created_by is Some {
        opt_text_value(m.created_by)
    } else if k == key_comment() && m.comment is Some {
        opt_text_value(m.comment)
    } else if k == key_announce_list() && m.announce_list is Some {
        opt_tiers_value(m.announce_list)
    } else if k == key_announce() {
        Some(text_value(m.announce))
    } else {
        None
    }
}

proof fn lemma_meta_lookup(m: MetaInfoModel, k: Seq<u8>)
    ensures
        lookup(meta_info_pairs(m), k) == meta_lookup(m, k),
{
    let s0 = meta_stage(m, 0);
    assert(lookup(s0, k) == if k == key_announce() { Some(text_value(m.announce)) } else { None }) by {
        reveal_with_fuel(lookup, 2);
        assert(s0 == seq![(key_announce(), text_value(m.announce))]);
        assert(s0.drop_last() =~= Seq::<(Seq<u8>, BVal)>::empty());
    }
    lemma_lookup_push_opt(s0, key_announce_list(), opt_tiers_value(m.announce_list), k);
    lemma_lookup_push_opt(meta_stage(m, 1), key_comment(), opt_text_value(m.comment), k);
    lemma_lookup_push_opt(meta_stage(m, 2), key_created_by(), opt_text_value(m.created_by), k);
    lemma_lookup_push_opt(meta_stage(m, 3), key_creation_date(), opt_date_value(m.creation_date), k);
    lemma_lookup_push_opt(meta_stage(m, 4), key_encoding(), opt_text_value(m.encoding), k);
    let ps = meta_info_pairs(m);
    assert(ps == meta_stage(m, 5).push((key_info(), info_value(m.info))));
    assert(ps.drop_last() =~= meta_stage(m, 5));
}

/// Decoding the value of a valid torrent gives the torrent back.
pub proof fn lemma_meta_info_value_round_trip(m: MetaInfoModel)
    requires
        meta_info_valid(m),
    ensures
        meta_decodes(meta_info_pairs(m)),
        meta_of(meta_info_pairs(m)) == m,
        well_formed(meta_info_value(m), 5),
        fits(meta_info_value(m)),
{
    let ps = meta_info_pairs(m);
    lemma_meta_pairs_good(m);
    lemma_meta_pairs_sorted(m);
    assert(meta_fields_ok(ps));
    lemma_info_value_round_trip(m.info);
    lemma_text_round_trip(m.announce);
    if m.comment is Some {
        lemma_text_round_trip(m.comment->0);
    }
    if m.created_by is Some {
        lemma_text_round_trip(m.created_by->0);
    }
    if m.encoding is Some {
        lemma_text_round_trip(m.encoding->0);
    }
    if m.announce_list is Some {
        lemma_text_tiers_round_trip(m.announce_list->0);
    }
    lemma_meta_keys_distinct();
    lemma_meta_lookup(m, key_announce());
    lemma_meta_lookup(m, key_info());
    lemma_meta_lookup(m, key_announce_list());
    lemma_meta_lookup(m, key_creation_date());
    lemma_meta_lookup(m, key_comment());
    lemma_meta_lookup(m, key_created_by());
    lemma_meta_lookup(m, key_encoding());
    assert(meta_of(ps) == m);
}

impl MetaInfo {
    /// The metadata of a torrent: the tracker's `announce` URL, the shared
    /// `info`, and optional tiers of trackers, creation date (seconds since
    /// the Unix epoch), comment, author and text encoding.
    pub fn new(
        announce: String,
        info: Info,
        announce_list: Option<Vec<Vec<String>>>,
        creation_date: Option<Timestamp>,
        comment: Option<String>,
        created_by: Option<String>,
        encoding: Option<String>,
    ) -> (r: Self)
        ensures
            r@.creation_date is Some ==> utc_timestamp_valid(r@.creation_date->0 as int),
            r@ == (MetaInfoModel {
                announce: announce@,
                info: info@,
                announce_list: opt_tiers(announce_list),
                creation_date: opt_secs(creation_date),
                comment: opt_text(comment),
                created_by: opt_text(created_by),
                encoding: opt_text(encoding),
            }),
    {
        if let Some(t) = &creation_date {
            proof {
                use_type_invariant(t);
            }
        }
        MetaInfo { announce, info, announce_list, creation_date, comment, created_by, encoding }
    }

    pub fn announce(&self) -> (r: &str)
        ensures
            r@ == self@.announce,
    {
        self.announce.as_str()
    }

    pub fn info(&self) -> (r: &Info)
        ensures
            r@ == self@.info,
    {
        &self.info
    }

    pub fn announce_list(&self) -> (r: Option<&Vec<Vec<String>>>)
        ensures
            r is Some == self@.announce_list is Some,
            r is Some ==> tiers(r->0@) == self@.announce_list->0,
    {
        match &self.announce_list {
            Some(l) => Some(l),
            None => None,
        }
    }

    /// The creation date, in seconds since the Unix epoch.
    pub fn creation_date(&self) -> (r: Option<i64>)
        ensures
            r == self@.creation_date,
            r is Some ==> utc_timestamp_valid(r->0 as int),
    {
        match &self.creation_date {
            Some(t) => Some(t.secs()),
            None => None,
        }
    }

    pub fn comment(&self) -> (r: Option<&str>)
        ensures
            r is Some == self@.comment is Some,
            r is Some ==> r->0@ == self@.comment->0,
    {
        match &self.comment {
            Some(s) => Some(s.as_str()),
            None => None,
        }
    }

    pub fn created_by(&self) -> (r: Option<&str>)
        ensures
            r is Some == self@.created_by is Some,
            r is Some ==> r->0@ == self@.created_by->0,
    {
        match &self.created_by {
            Some(s) => Some(s.as_str()),
            None => None,
        }
    }

    pub fn encoding(&self) -> (r: Option<&str>)
        ensures
            r is Some == self@.encoding is Some,
            r is Some ==> r->0@ == self@.encoding->0,
    {
        match &self.encoding {
            Some(s) => Some(s.as_str()),
            None => None,
        }
    }

    /// The bencode value of this torrent, keys in canonical order.
    pub fn to_value(&self) -> (r: Value)
        ensures
            r@ == meta_info_value(self@),
    {
        let mut ks: Vec<Vec<u8>> = Vec::new();
        let mut vs: Vec<Value> = Vec::new();
        ks.push(announce_key());
        vs.push(string_value(&self.announce));
        match &self.announce_list {
            Some(l) => {
                ks.push(announce_list_key());
                vs.push(string_tiers_value(l));
            },
            None => {},
        }
        match &self.comment {
            Some(c) => {
                ks.push(comment_key());
                vs.push(string_value(c));
            },
            None => {},
        }
        match &self.created_by {
            Some(c) => {
                ks.push(created_by_key());
                vs.push(string_value(c));
            },
            None => {},
        }
        match &self.creation_date {
            Some(d) => {
                ks.push(creation_date_key());
                vs.push(Value::Int(d.secs() as i128));
            },
            None => {},
        }
        match &self.encoding {
            Some(e) => {
                ks.push(encoding_key());
                vs.push(string_value(e));
            },
            None => {},
        }
        ks.push(info_key());
        vs.push(self.info.to_value());
        let r = Value::Dict(ks, vs);
        proof {
            lemma_dict_view(r);
            assert(pairs_view(ks@, vs@) =~= meta_info_pairs(self@));
        }
        r
    }

    /// Reads a torrent from its bencode value, admitting only the keys
    /// `announce`, `announce-list`, `comment`, `created by`,
    /// `creation date`, `encoding` and `info`.
    pub fn from_value(v: &Value) -> (r: Result<MetaInfo, Error>)
        ensures
            r is Ok <==> v@ is Dict && meta_decodes(v@->Dict_0),
            r is Ok ==> r->Ok_0@ == meta_of(v@->Dict_0),
            v@ is Dict && (forall|i: int|
                0 <= i < v@->Dict_0.len() && meta_key(#[trigger] v@->Dict_0[i].0) ==> meta_pair_ok(
                    v@->Dict_0[i].0,
                    v@->Dict_0[i].1,
                )) && (exists|i: int|
                0 <= i < v@->Dict_0.len() && !meta_key(#[trigger] v@->Dict_0[i].0))
                ==> (r matches Err(Error::UnexpectedField(k)) && !meta_key(k@) && exists|j: int|
                0 <= j < v@->Dict_0.len() && (#[trigger] v@->Dict_0[j]).0 == k@),
            r matches Err(Error::UnexpectedField(k)) ==> v@ is Dict && ((!meta_key(k@) && exists|
                i: int,
            | 0 <= i < v@->Dict_0.len() && (#[trigger] v@->Dict_0[i]).0 == k@) || !meta_fields_ok(
                v@->Dict_0,
            )),
            r matches Err(Error::MissingField(n)) ==> v@ is Dict && (!meta_fields_ok(v@->Dict_0) || (
            lookup(v@->Dict_0, key_announce()) is None && n@ == "announce"@) || (lookup(
                v@->Dict_0,
                key_announce(),
            ) is Some && lookup(v@->Dict_0, key_info()) is None && n@ == "info"@)),
            v@ is Dict && meta_fields_ok(v@->Dict_0) && lookup(v@->Dict_0, key_announce()) is None
                ==> r matches Err(Error::MissingField(_)),
            v@ is Dict && meta_fields_ok(v@->Dict_0) && lookup(v@->Dict_0, key_info()) is None
                ==> r matches Err(Error::MissingField(_)),
            r matches Err(Error::MalformedContent(_)) ==> !(v@ is Dict) || !meta_fields_ok(v@->Dict_0),
            r matches Err(e) ==> e is UnexpectedField || e is MissingField || e is MalformedContent,
    {
        let (ks, vs) = match v {
            Value::Dict(ks, vs) => (ks, vs),
            _ => {
                return Err(Error::MalformedContent(String::from_str("expected a dictionary")));
            },
        };
        proof {
            lemma_dict_view(*v);
        }
        let ghost ps = v@->Dict_0;
        let mut announce: Option<String> = None;
        let mut info: Option<Info> = None;
        let mut announce_list: Option<Vec<Vec<String>>> = None;
        let mut creation_date: Option<Timestamp> = None;
        let mut comment: Option<String> = None;
        let mut created_by: Option<String> = None;
        let mut encoding: Option<String> = None;
        let mut i: usize = 0;
        while i < ks.len() && i < vs.len()
            invariant
                v@ is Dict,
                ps == v@->Dict_0,
                ps == pairs_view(ks@, vs@),
                i <= ps.len(),
                forall|j: int| 0 <= j < i ==> meta_key(#[trigger] ps[j].0) && meta_pair_ok(ps[j].0, ps[j].1),
                opt_text(announce) == opt_field(lookup(ps.subrange(0, i as int), key_announce()), |x: BVal| as_text(x)),
                info is Some == lookup(ps.subrange(0, i as int), key_info()) is Some,
                info is Some ==> info->0@ == as_info(lookup(ps.subrange(0, i as int), key_info())->0)->0,
                opt_tiers(announce_list) == opt_field(lookup(ps.subrange(0, i as int), key_announce_list()), |x: BVal| as_text_tiers(x)),
                opt_secs(creation_date) == opt_field(lookup(ps.subrange(0, i as int), key_creation_date()), |x: BVal| as_date(x)),
                opt_text(comment) == opt_field(lookup(ps.subrange(0, i as int), key_comment()), |x: BVal| as_text(x)),
                opt_text(created_by) == opt_field(lookup(ps.subrange(0, i as int), key_created_by()), |x: BVal| as_text(x)),
                opt_text(encoding) == opt_field(lookup(ps.subrange(0, i as int), key_encoding()), |x: BVal| as_text(x)),
            decreases ks@.len() - i,
        {
            let k = &ks[i];
            let x = &vs[i];
            proof {
                assert(ps[i as int] == (k@, x@));
                assert(ps.subrange(0, i + 1).drop_last() =~= ps.subrange(0, i as int));
                assert(ps.subrange(0, i + 1).last() == ps[i as int]);
            }
            if bytes_eq(k.as_slice(), announce_key().as_slice()) {
                match value_string(x) {
                    Some(s) => announce = Some(s),
                    None => {
                        proof {
                            assert(meta_key(ps[i as int].0) && !meta_pair_ok(ps[i as int].0, ps[i as int].1));
                        }
                        return Err(Error::MalformedContent(String::from_str("announce is not a string")));
                    },
                }
            } else if bytes_eq(k.as_slice(), info_key().as_slice()) {
                match Info::from_value(x) {
                    Ok(d) => info = Some(d),
                    Err(e) => {
                        proof {
                            assert(meta_key(ps[i as int].0) && !meta_pair_ok(ps[i as int].0, ps[i as int].1));
                        }
                        return Err(e);
                    },
                }
            } else if bytes_eq(k.as_slice(), announce_list_key().as_slice()) {
                match value_string_tiers(x) {
                    Some(l) => announce_list = Some(l),
                    None => {
                        proof {
                            assert(meta_key(ps[i as int].0) && !meta_pair_ok(ps[i as int].0, ps[i as int].1));
                        }
                        return Err(Error::MalformedContent(String::from_str("announce-list is not a list of lists of strings")));
                    },
                }
            } else if bytes_eq(k.as_slice(), creation_date_key().as_slice()) {
                match value_i64(x) {
                    Some(d) => {
                        if let Some(t) = Timestamp::from_secs(d) {
                            creation_date = Some(t);
                        } else {
                            proof {
                                assert(meta_key(ps[i as int].0) && !meta_pair_ok(ps[i as int].0, ps[i as int].1));
                            }
                            return Err(Error::MalformedContent(String::from_str("invalid creation date timestamp")));
                        }
                    },
                    None => {
                        proof {
                            assert(meta_key(ps[i as int].0) && !meta_pair_ok(ps[i as int].0, ps[i as int].1));
                        }
                        return Err(Error::MalformedContent(String::from_str("creation date is not an i64")));
                    },
                }
            } else if bytes_eq(k.as_slice(), comment_key().as_slice()) {
                match value_string(x) {
                    Some(s) => comment = Some(s),
                    None => {
                        proof {
                            assert(meta_key(ps[i as int].0) && !meta_pair_ok(ps[i as int].0, ps[i as int].1));
                        }
                        return Err(Error::MalformedContent(String::from_str("comment is not a string")));
                    },
                }
            } else if bytes_eq(k.as_slice(), created_by_key().as_slice()) {
                match value_string(x) {
                    Some(s) => created_by = Some(s),
                    None => {
                        proof {
                            assert(meta_key(ps[i as int].0) && !meta_pair_ok(ps[i as int].0, ps[i as int].1));
                        }
                        return Err(Error::MalformedContent(String::from_str("created by is not a string")));
                    },
                }
            } else if bytes_eq(k.as_slice(), encoding_key().as_slice()) {
                match value_string(x) {
                    Some(s) => encoding = Some(s),
                    None => {
                        proof {
                            assert(meta_key(ps[i as int].0) && !meta_pair_ok(ps[i as int].0, ps[i as int].1));
                        }
                        return Err(Error::MalformedContent(String::from_str("encoding is not a string")));
                    },
                }
            } else {
                proof {
                    assert(!meta_key(ps[i as int].0));
                }
                return Err(Error::UnexpectedField(k.clone()));
            }
            i += 1;
        }
        proof {
            assert(ps.subrange(0, i as int) =~= ps);
        }
        let announce = match announce {
            Some(a) => a,
            None => {
                return Err(Error::MissingField(String::from_str("announce")));
            },
        };
        let info = match info {
            Some(d) => d,
            None => {
                return Err(Error::MissingField(String::from_str("info")));
            },
        };
        Ok(MetaInfo { announce, info, announce_list, creation_date, comment, created_by, encoding })
    }

    /// The bencode encoding of this torrent.
    pub fn encode(&self) -> (r: Vec<u8>)
        ensures
            r@ == encoding(meta_info_value(self@)),
    {
        encode_value(&self.to_value())
    }

    /// Decodes a torrent file, nesting at most five levels.
    pub fn decode(bytes: &[u8]) -> (r: Result<MetaInfo, Error>)
        ensures
            r is Ok ==> exists|w: BVal|
                encoding(w) == bytes@ && w is Dict && meta_decodes(w->Dict_0) && r->Ok_0@ == meta_of(
                    w->Dict_0,
                ),
            forall|m: MetaInfoModel| meta_info_valid(m) && encoding(meta_info_value(m)) == bytes@ ==> r is Ok && r->Ok_0@ == m,
            forall|w: BVal|
                well_formed(w, 5) && fits(w) && encoding(w) == bytes@ ==> (r is Ok <==> w is Dict
                    && meta_decodes(w->Dict_0)) && (r is Ok ==> r->Ok_0@ == meta_of(w->Dict_0)),
            forall|w: BVal|
                well_formed(w, 5) && fits(w) && encoding(w) == bytes@ && w is Dict && (forall|i: int|
                    0 <= i < w->Dict_0.len() && meta_key(#[trigger] w->Dict_0[i].0) ==> meta_pair_ok(
                        w->Dict_0[i].0,
                        w->Dict_0[i].1,
                    )) && (exists|i: int| 0 <= i < w->Dict_0.len() && !meta_key(#[trigger] w->Dict_0[i].0))
                    ==> (r matches Err(Error::UnexpectedField(k)) && !meta_key(k@) && exists|j: int|
                    0 <= j < w->Dict_0.len() && (#[trigger] w->Dict_0[j]).0 == k@),
    {
        match decode_value(bytes, 5) {
            Err(e) => {
                proof {
                    assert forall|m: MetaInfoModel| meta_info_valid(m) && encoding(meta_info_value(m)) == bytes@ implies false by {
                        lemma_meta_info_value_round_trip(m);
                    }
                }
                Err(e)
            },
            Ok(v) => {
                let r = MetaInfo::from_value(&v);
                proof {
                    assert forall|m: MetaInfoModel| meta_info_valid(m) && encoding(meta_info_value(m)) == bytes@ implies r is Ok && r->Ok_0@ == m by {
                        lemma_meta_info_value_round_trip(m);
                    }
                }
                r
            },
        }
    }
}

} // verus!
