//! The tracker's scrape response: statistics for each torrent it tracks.
use vstd::prelude::*;

use crate::bencode::{BVal, Value, decode_value, encoding, fits, lemma_dict_view, pairs_view, well_formed};
use crate::error::Error;
use crate::field::{as_text, as_u64, bytes_eq, lookup, opt_text, value_string, value_u64};
use crate::field::opt_field;
use crate::keys::{
    complete_key, downloaded_key, files_key, incomplete_key, key_complete, key_downloaded,
    key_files, key_incomplete, key_name, name_key,
};

verus! {

/// The nesting allowed in a scrape response, whose unknown keys may hold
/// anything.
pub const SCRAPE_MAX_DEPTH: usize = 2048;

/// The statistics of one torrent.
#[derive(Debug, PartialEq, Eq)]
pub struct TorrentStats {
    complete: u64,
    downloaded: u64,
    incomplete: u64,
    name: Option<String>,
}

/// The model of a [`TorrentStats`].
pub struct TorrentStatsModel {
    pub complete: u64,
    pub downloaded: u64,
    pub incomplete: u64,
    pub name: Option<Seq<char>>,
}

impl View for TorrentStats {
    type V = TorrentStatsModel;

    closed spec fn view(&self) -> TorrentStatsModel {
        TorrentStatsModel {
            complete: self.complete,
            downloaded: self.downloaded,
            incomplete: self.incomplete,
            name: opt_text(self.name),
        }
    }
}

/// The value under a known key has the type that the key calls for; other
/// keys are ignored.
pub open spec fn stats_pair_ok(k: Seq<u8>, v: BVal) -> bool {
    &&& k == key_complete() ==> as_u64(v) is Some
    &&& k == key_downloaded() ==> as_u64(v) is Some
    &&& k == key_incomplete() ==> as_u64(v) is Some
    &&& k == key_name() ==> as_text(v) is Some
}

/// The required keys are present.
pub open spec fn stats_required(ps: Seq<(Seq<u8>, BVal)>) -> bool {
    lookup(ps, key_complete()) is Some && lookup(ps, key_downloaded()) is Some && lookup(
        ps,
        key_incomplete(),
    ) is Some
}

/// A dictionary that decodes as statistics.
pub open spec fn stats_decodes(ps: Seq<(Seq<u8>, BVal)>) -> bool {
    (forall|i: int| 0 <= i < ps.len() ==> stats_pair_ok(#[trigger] ps[i].0, ps[i].1))
        && stats_required(ps)
}

/// The statistics that a dictionary decodes as.
pub open spec fn stats_of(ps: Seq<(Seq<u8>, BVal)>) -> TorrentStatsModel {
    TorrentStatsModel {
        complete: as_u64(lookup(ps, key_complete())->0)->0,
        downloaded: as_u64(lookup(ps, key_downloaded())->0)->0,
        incomplete: as_u64(lookup(ps, key_incomplete())->0)->0,
        name: opt_field(lookup(ps, key_name()), |x: BVal| as_text(x)),
    }
}

impl TorrentStats {
    pub fn new(complete: u64, downloaded: u64, incomplete: u64, name: Option<String>) -> (r: Self)
        ensures
            r@ == (TorrentStatsModel { complete, downloaded, incomplete, name: opt_text(name) }),
    {
        TorrentStats { complete, downloaded, incomplete, name }
    }

    /// Peers that have the whole torrent.
    pub fn complete(&self) -> (r: u64)
        ensures
            r == self@.complete,
    {
        self.complete
    }

    /// Completed downloads that the tracker has recorded.
    pub fn downloaded(&self) -> (r: u64)
        ensures
            r == self@.downloaded,
    {
        self.downloaded
    }

    /// Peers that have part of the torrent.
    pub fn incomplete(&self) -> (r: u64)
        ensures
            r == self@.incomplete,
    {
        self.incomplete
    }

    pub fn name(&self) -> (r: Option<&str>)
        ensures
            r is Some == self@.name is Some,
            r is Some ==> r->0@ == self@.name->0,
    {
        match &self.name {
            Some(s) => Some(s.as_str()),
            None => None,
        }
    }

    /// Reads statistics from their dictionary; keys other than `complete`,
    /// `downloaded`, `incomplete` and `name` are ignored.
    pub fn from_value(v: &Value) -> (r: Result<TorrentStats, Error>)
        ensures
            r is Ok <==> v@ is Dict && stats_decodes(v@->Dict_0),
            r is Ok ==> r->Ok_0@ == stats_of(v@->Dict_0),
            r matches Err(Error::MissingField(_)) ==> v@ is Dict && !stats_required(v@->Dict_0),
            r matches Err(e) ==> e is MissingField || e is MalformedContent,
    {
        let (ks, vs) = match v {
            Value::Dict(ks, vs) => (ks, vs),
            _ => {
                return Err(Error::MalformedContent(String::from_str("expected a dictionary")));
            },
        };
        proof {
            lemma_dict_view(*v);
        }
        let ghost ps = v@->Dict_0;
        let mut complete: Option<u64> = None;
        let mut downloaded: Option<u64> = None;
        let mut incomplete: Option<u64> = None;
        let mut name: Option<String> = None;
        let mut i: usize = 0;
        while i < ks.len() && i < vs.len()
            invariant
                v@ is Dict,
                ps == v@->Dict_0,
                ps == pairs_view(ks@, vs@),
                i <= ps.len(),
                forall|j: int| 0 <= j < i ==> stats_pair_ok(#[trigger] ps[j].0, ps[j].1),
                complete == opt_field(lookup(ps.subrange(0, i as int), key_complete()), |x: BVal| as_u64(x)),
                downloaded == opt_field(lookup(ps.subrange(0, i as int), key_downloaded()), |x: BVal| as_u64(x)),
                incomplete == opt_field(lookup(ps.subrange(0, i as int), key_incomplete()), |x: BVal| as_u64(x)),
                opt_text(name) == opt_field(lookup(ps.subrange(0, i as int), key_name()), |x: BVal| as_text(x)),
            decreases ks@.len() - i,
        {
            let k = &ks[i];
            let x = &vs[i];
            proof {
                assert(ps[i as int] == (k@, x@));
                assert(ps.subrange(0, i + 1).drop_last() =~= ps.subrange(0, i as int));
                assert(ps.subrange(0, i + 1).last() == ps[i as int]);
            }
            let mut bad = false;
            if bytes_eq(k.as_slice(), complete_key().as_slice()) {
                match value_u64(x) {
                    Some(n) => complete = Some(n),
                    None => bad = true,
                }
            } else if bytes_eq(k.as_slice(), downloaded_key().as_slice()) {
                match value_u64(x) {
                    Some(n) => downloaded = Some(n),
                    None => bad = true,
                }
            } else if bytes_eq(k.as_slice(), incomplete_key().as_slice()) {
                match value_u64(x) {
                    Some(n) => incomplete = Some(n),
                    None => bad = true,
                }
            } else if bytes_eq(k.as_slice(), name_key().as_slice()) {
                match value_string(x) {
                    Some(s) => name = Some(s),
                    None => bad = true,
                }
            }
            if bad {
                proof {
                    assert(!stats_pair_ok(ps[i as int].0, ps[i as int].1));
                }
                return Err(Error::MalformedContent(String::from_str("a statistic has the wrong type")));
            }
            i += 1;
        }
        proof {
            assert(ps.subrange(0, i as int) =~= ps);
        }
        let complete = match complete {
            Some(n) => n,
            None => {
                return Err(Error::MissingField(String::from_str("complete")));
            },
        };
        let downloaded = match downloaded {
            Some(n) => n,
            None => {
                return Err(Error::MissingField(String::from_str("downloaded")));
            },
        };
        let incomplete = match incomplete {
            Some(n) => n,
            None => {
                return Err(Error::MissingField(String::from_str("incomplete")));
            },
        };
        Ok(TorrentStats { complete, downloaded, incomplete, name })
    }
}

/// The statistics of each torrent, under the raw 20-byte info-hash.
pub open spec fn as_stats_map(v: BVal) -> Option<Seq<(Seq<u8>, TorrentStatsModel)>> {
    match v {
        BVal::Dict(qs) => if forall|j: int|
            0 <= j < qs.len() ==> (#[trigger] qs[j]).0.len() == 20 && qs[j].1 is Dict
                && stats_decodes(qs[j].1->Dict_0) {
            Some(Seq::new(qs.len(), |j: int| (qs[j].0, stats_of(qs[j].1->Dict_0))))
        } else {
            None
        },
        _ => None,
    }
}

/// A dictionary that decodes as a scrape response: a well-typed `files`;
/// other keys are ignored.
pub open spec fn scrape_decodes(ps: Seq<(Seq<u8>, BVal)>) -> bool {
    (forall|i: int| 0 <= i < ps.len() && (#[trigger] ps[i]).0 == key_files() ==> as_stats_map(ps[i].1) is Some)
        && lookup(ps, key_files()) is Some
}

/// A tracker's scrape response.
#[derive(Debug, PartialEq, Eq)]
pub struct Response {
    files: Vec<(Vec<u8>, TorrentStats)>,
}

/// The models of the entries of a scrape response.
pub open spec fn entries(fs: Seq<(Vec<u8>, TorrentStats)>) -> Seq<(Seq<u8>, TorrentStatsModel)> {
    fs.map_values(|e: (Vec<u8>, TorrentStats)| (e.0@, e.1@))
}

impl View for Response {
    type V = Seq<(Seq<u8>, TorrentStatsModel)>;

    closed spec fn view(&self) -> Seq<(Seq<u8>, TorrentStatsModel)> {
        entries(self.files@)
    }
}

/// Reads the `files` dictionary.
fn stats_map_from_value(v: &Value) -> (r: Result<Vec<(Vec<u8>, TorrentStats)>, Error>)
    ensures
        r is Ok <==> as_stats_map(v@) is Some,
        r is Ok ==> entries(r->Ok_0@) == as_stats_map(v@)->0,
        r matches Err(e) ==> e is MissingField || e is MalformedContent,
{
    let (ks, vs) = match v {
        Value::Dict(ks, vs) => (ks, vs),
        _ => {
            return Err(Error::MalformedContent(String::from_str("files is not a dictionary")));
        },
    };
    proof {
        lemma_dict_view(*v);
    }
    let ghost qs = v@->Dict_0;
    let mut out: Vec<(Vec<u8>, TorrentStats)> = Vec::new();
    let mut i: usize = 0;
    while i < ks.len() && i < vs.len()
        invariant
            v@ is Dict,
            qs == v@->Dict_0,
            qs == pairs_view(ks@, vs@),
            i <= qs.len(),
            out@.len() == i,
            forall|j: int|
                0 <= j < i ==> (#[trigger] qs[j]).0.len() == 20 && qs[j].1 is Dict && stats_decodes(
                    qs[j].1->Dict_0,
                ) && entries(out@)[j] == (qs[j].0, stats_of(qs[j].1->Dict_0)),
        decreases ks@.len() - i,
    {
        proof {
            assert(qs[i as int] == (ks@[i as int]@, vs@[i as int]@));
        }
        if ks[i].len() != 20 {
            return Err(Error::MalformedContent(String::from_str("an info-hash is not 20 bytes")));
        }
        let stats = TorrentStats::from_value(&vs[i])?;
        let ghost before = out@;
        out.push((ks[i].clone(), stats));
        proof {
            assert forall|j: int| 0 <= j < i + 1 implies entries(out@)[j] == (if j < i { entries(before)[j] } else { (qs[j].0, stats_of(qs[j].1->Dict_0)) }) by {}
        }
        i += 1;
    }
    proof {
        assert(entries(out@) =~= Seq::new(qs.len(), |j: int| (qs[j].0, stats_of(qs[j].1->Dict_0))));
    }
    Ok(out)
}

impl Response {
    /// A scrape response over the given statistics, each under its raw
    /// info-hash.
    pub fn new(files: Vec<(Vec<u8>, TorrentStats)>) -> (r: Self)
        ensures
            r@ == entries(files@),
    {
        Response { files }
    }

    /// The statistics of each torrent, under its raw info-hash.
    pub fn files(&self) -> (r: &[(Vec<u8>, TorrentStats)])
        ensures
            entries(r@) == self@,
    {
        self.files.as_slice()
    }

    /// The statistics under `info_hash`, if any.
    pub fn get(&self, info_hash: &[u8]) -> (r: Option<&TorrentStats>)
        ensures
            r is Some ==> exists|j: int|
                0 <= j < self@.len() && (#[trigger] self@[j]).0 == info_hash@ && self@[j].1 == r->0@,
            r is None ==> forall|j: int| 0 <= j < self@.len() ==> (#[trigger] self@[j]).0 != info_hash@,
    {
        let mut i: usize = 0;
        while i < self.files.len()
            invariant
                i <= self.files@.len(),
                self@ == entries(self.files@),
                forall|j: int| 0 <= j < i ==> (#[trigger] self@[j]).0 != info_hash@,
            decreases self.files@.len() - i,
        {
            if bytes_eq(self.files[i].0.as_slice(), info_hash) {
                proof {
                    assert(self@[i as int] == (self.files@[i as int].0@, self.files@[i as int].1@));
                }
                return Some(&self.files[i].1);
            }
            i += 1;
        }
        None
    }

    /// Reads a scrape response from its bencode value. Keys other than
    /// `files` are ignored, so that later extensions of the protocol pass.
    pub fn from_value(v: &Value) -> (r: Result<Response, Error>)
        ensures
            r is Ok <==> v@ is Dict && scrape_decodes(v@->Dict_0),
            r is Ok ==> r->Ok_0@ == as_stats_map(lookup(v@->Dict_0, key_files())->0)->0,
            r matches Err(Error::MissingField(_)) ==> v@ is Dict && (lookup(v@->Dict_0, key_files()) is None || !scrape_decodes(v@->Dict_0)),
            v@ is Dict && (forall|i: int| 0 <= i < v@->Dict_0.len() && (#[trigger] v@->Dict_0[i]).0 == key_files() ==> as_stats_map(v@->Dict_0[i].1) is Some) && lookup(v@->Dict_0, key_files()) is None ==> r matches Err(Error::MissingField(_)),
            r matches Err(e) ==> e is MissingField || e is MalformedContent,
    {
        let (ks, vs) = match v {
            Value::Dict(ks, vs) => (ks, vs),
            _ => {
                return Err(Error::MalformedContent(String::from_str("expected a dictionary")));
            },
        };
        proof {
            lemma_dict_view(*v);
        }
        let ghost ps = v@->Dict_0;
        let mut files: Option<Vec<(Vec<u8>, TorrentStats)>> = None;
        let mut i: usize = 0;
        while i < ks.len() && i < vs.len()
            invariant
                v@ is Dict,
                ps == v@->Dict_0,
                ps == pairs_view(ks@, vs@),
                i <= ps.len(),
                forall|j: int| 0 <= j < i && (#[trigger] ps[j]).0 == key_files() ==> as_stats_map(ps[j].1) is Some,
                files is Some == lookup(ps.subrange(0, i as int), key_files()) is Some,
                files is Some ==> entries(files->0@) == as_stats_map(lookup(ps.subrange(0, i as int), key_files())->0)->0,
            decreases ks@.len() - i,
        {
            proof {
                assert(ps[i as int] == (ks@[i as int]@, vs@[i as int]@));
                assert(ps.subrange(0, i + 1).drop_last() =~= ps.subrange(0, i as int));
                assert(ps.subrange(0, i + 1).last() == ps[i as int]);
            }
            if bytes_eq(ks[i].as_slice(), files_key().as_slice()) {
                match stats_map_from_value(&vs[i]) {
                    Ok(m) => files = Some(m),
                    Err(e) => {
                        return Err(e);
                    },
                }
            }
            i += 1;
        }
        proof {
            assert(ps.subrange(0, i as int) =~= ps);
        }
        match files {
            Some(m) => Ok(Response { files: m }),
            None => Err(Error::MissingField(String::from_str("files"))),
        }
    }

    /// Decodes a tracker's scrape response.
    pub fn decode(bytes: &[u8]) -> (r: Result<Response, Error>)
        ensures
            r is Ok ==> exists|w: BVal|
                encoding(w) == bytes@ && w is Dict && scrape_decodes(w->Dict_0) && r->Ok_0@
                    == as_stats_map(lookup(w->Dict_0, key_files())->0)->0,
            forall|w: BVal|
                well_formed(w, SCRAPE_MAX_DEPTH as nat) && fits(w) && encoding(w) == bytes@ ==> (r is Ok <==> w is Dict
                    && scrape_decodes(w->Dict_0)) && (r is Ok ==> r->Ok_0@ == as_stats_map(lookup(w->Dict_0, key_files())->0)->0),
    {
        let v = decode_value(bytes, SCRAPE_MAX_DEPTH)?;
        Response::from_value(&v)
    }
}

} // verus!
