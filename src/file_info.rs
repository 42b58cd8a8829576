//! One file of a multi-file torrent.
use vstd::prelude::*;

use crate::bencode::{
    BVal, Value, decode_value, encode_value, encoding, fits, lemma_dict_view, pairs_view,
    well_formed,
};
use crate::error::Error;
use crate::field::{
    opt_field, opt_text_value, push_opt,
    as_text, as_text_list, as_u64, lookup, opt_text, string_list_value, string_value, text_list_value,
    texts, value_string, value_string_list, value_u64, bytes_eq,
    lemma_text_list_round_trip, lemma_text_round_trip,
};
use crate::keys::{key_length, key_md5sum, key_path, length_key, md5sum_key, path_key};

verus! {

/// A file of a multi-file torrent.
#[derive(Debug, PartialEq, Eq)]
pub struct FileInfo {
    length: u64,
    path: Vec<String>,
    md5sum: Option<String>,
}

/// The model of a [`FileInfo`].
pub struct FileInfoModel {
    pub length: u64,
    pub path: Seq<Seq<char>>,
    pub md5sum: Option<Seq<char>>,
}

impl View for FileInfo {
    type V = FileInfoModel;

    closed spec fn view(&self) -> FileInfoModel {
        FileInfoModel { length: self.length, path: texts(self.path@), md5sum: opt_text(self.md5sum) }
    }
}

/// A valid file: its path has at least one segment.
pub open spec fn file_info_valid(f: FileInfoModel) -> bool {
    f.path.len() >= 1
}

/// The dictionary of a file, keys in order.
pub open spec fn file_info_pairs(f: FileInfoModel) -> Seq<(Seq<u8>, BVal)> {
    push_opt(
        seq![(key_length(), BVal::Int(f.length as int))],
        key_md5sum(),
        opt_text_value(f.md5sum),
    ).push((key_path(), text_list_value(f.path)))
}

/// The bencode value of a file.
pub open spec fn file_info_value(f: FileInfoModel) -> BVal {
    BVal::Dict(file_info_pairs(f))
}

/// A key that a file's dictionary may hold.
pub open spec fn file_key(k: Seq<u8>) -> bool {
    k == key_length() || k == key_md5sum() || k == key_path()
}

/// The value under an allowed key has the type that the key calls for.
pub open spec fn file_pair_ok(k: Seq<u8>, v: BVal) -> bool {
    &&& k == key_length() ==> as_u64(v) is Some
    &&& k == key_md5sum() ==> as_text(v) is Some
    &&& k == key_path() ==> as_text_list(v) is Some && as_text_list(v)->0.len() >= 1
}

/// Every key is allowed and every value well-typed.
pub open spec fn file_fields_ok(ps: Seq<(Seq<u8>, BVal)>) -> bool {
    forall|i: int| 0 <= i < ps.len() ==> file_key(#[trigger] ps[i].0) && file_pair_ok(ps[i].0, ps[i].1)
}

/// A dictionary that decodes as a file.
pub open spec fn file_decodes(ps: Seq<(Seq<u8>, BVal)>) -> bool {
    file_fields_ok(ps) && lookup(ps, key_length()) is Some && lookup(ps, key_path()) is Some
}

/// The file that a dictionary decodes as.
pub open spec fn file_of(ps: Seq<(Seq<u8>, BVal)>) -> FileInfoModel {
    FileInfoModel {
        length: as_u64(lookup(ps, key_length())->0)->0,
        path: as_text_list(lookup(ps, key_path())->0)->0,
        md5sum: match lookup(ps, key_md5sum()) {
            Some(v) => Some(as_text(v)->0),
            None => None,
        },
    }
}

/// Decoding the value of a valid file gives the file back.
pub proof fn lemma_file_info_value_round_trip(f: FileInfoModel)
    requires
        file_info_valid(f),
    ensures
        file_decodes(file_info_pairs(f)),
        file_of(file_info_pairs(f)) == f,
        well_formed(file_info_value(f), 2),
        fits(file_info_value(f)),
{
    let ps = file_info_pairs(f);
    lemma_text_list_round_trip(f.path);
    if f.md5sum is Some {
        lemma_text_round_trip(f.md5sum->0);
    }
    reveal_with_fuel(lookup, 4);
    assert(ps.drop_last() == push_opt(
        seq![(key_length(), BVal::Int(f.length as int))],
        key_md5sum(),
        opt_text_value(f.md5sum),
    ));
    assert(file_fields_ok(ps));
    assert(file_of(ps) == f);
    let xs = text_list_value(f.path)->List_0;
    assert forall|i: int| 0 <= i < xs.len() implies well_formed(#[trigger] xs[i], 0) && fits(
        xs[i],
    ) by {}
    assert(well_formed(text_list_value(f.path), 1));
    assert(fits(text_list_value(f.path)));
    assert forall|i: int| 0 <= i < ps.len() implies well_formed(#[trigger] ps[i].1, 1) && fits(
        ps[i].1,
    ) by {
        if i == ps.len() - 1 {
        } else if i == 0 {
        } else {
        }
    }
    assert forall|i: int| 0 <= i < ps.len() - 1 implies crate::bencode::key_lt(
        #[trigger] ps[i].0,
        ps[i + 1].0,
    ) by {
        if f.md5sum is Some {
            if i == 0 {
                assert(ps[0].0 == key_length() && ps[1].0 == key_md5sum());
            } else {
                assert(ps[1].0 == key_md5sum() && ps[2].0 == key_path());
            }
        } else {
            assert(ps[0].0 == key_length() && ps[1].0 == key_path());
        }
    }
}

impl FileInfo {
    /// Every file has a path of at least one segment.
    #[verifier::type_invariant]
    spec fn inv(&self) -> bool {
        self.path@.len() >= 1
    }

    /// A file of `length` bytes at `path`: directory names, then the file
    /// name.
    pub fn new(length: u64, path: Vec<String>, md5sum: Option<String>) -> (r: Self)
        requires
            path@.len() >= 1,
        ensures
            r@ == (FileInfoModel { length, path: texts(path@), md5sum: opt_text(md5sum) }),
    {
        FileInfo { length, path, md5sum }
    }

    pub fn length(&self) -> (r: u64)
        ensures
            r == self@.length,
    {
        self.length
    }

    pub fn path(&self) -> (r: &[String])
        ensures
            texts(r@) == self@.path,
    {
        self.path.as_slice()
    }

    pub fn md5sum(&self) -> (r: Option<&str>)
        ensures
            r is Some == self@.md5sum is Some,
            r is Some ==> r->0@ == self@.md5sum->0,
    {
        match &self.md5sum {
            Some(s) => Some(s.as_str()),
            None => None,
        }
    }

    /// The bencode value of this file.
    pub fn to_value(&self) -> (r: Value)
        ensures
            r@ == file_info_value(self@),
    {
        let mut ks: Vec<Vec<u8>> = Vec::new();
        let mut vs: Vec<Value> = Vec::new();
        ks.push(length_key());
        vs.push(Value::Int(self.length as i128));
        match &self.md5sum {
            Some(m) => {
                ks.push(md5sum_key());
                vs.push(string_value(m));
            },
            None => {},
        }
        ks.push(path_key());
        vs.push(string_list_value(&self.path));
        let r = Value::Dict(ks, vs);
        proof {
            lemma_dict_view(r);
            assert(pairs_view(ks@, vs@) =~= file_info_pairs(self@));
        }
        r
    }

    /// Reads a file from its bencode value, admitting only the keys
    /// `length`, `md5sum` and `path`.
    pub fn from_value(v: &Value) -> (r: Result<FileInfo, Error>)
        ensures
            r is Ok <==> v@ is Dict && file_decodes(v@->Dict_0),
            r is Ok ==> r->Ok_0@ == file_of(v@->Dict_0),
            r matches Err(Error::UnexpectedField(k)) ==> v@ is Dict && !file_key(k@) && exists|i: int|
                0 <= i < v@->Dict_0.len() && (#[trigger] v@->Dict_0[i]).0 == k@,
            v@ is Dict && (forall|i: int|
                0 <= i < v@->Dict_0.len() && file_key(#[trigger] v@->Dict_0[i].0) ==> file_pair_ok(
                    v@->Dict_0[i].0,
                    v@->Dict_0[i].1,
                )) && (exists|i: int|
                0 <= i < v@->Dict_0.len() && !file_key(#[trigger] v@->Dict_0[i].0))
                ==> r matches Err(Error::UnexpectedField(_)),
            r matches Err(Error::MissingField(n)) ==> v@ is Dict && file_fields_ok(v@->Dict_0) && (
            (lookup(v@->Dict_0, key_length()) is None && n@ == "length"@) || (lookup(
                v@->Dict_0,
                key_length(),
            ) is Some && lookup(v@->Dict_0, key_path()) is None && n@ == "path"@)),
            r matches Err(Error::MalformedContent(_)) ==> !(v@ is Dict) || exists|i: int|
                0 <= i < v@->Dict_0.len() && file_key(#[trigger] v@->Dict_0[i].0) && !file_pair_ok(
                    v@->Dict_0[i].0,
                    v@->Dict_0[i].1,
                ),
            r matches Err(e) ==> e is UnexpectedField || e is MissingField || e is MalformedContent,
    {
        let (ks, vs) = match v {
            Value::Dict(ks, vs) => (ks, vs),
            _ => {
                return Err(Error::MalformedContent(String::from_str("expected a dictionary")));
            },
        };
        proof {
            lemma_dict_view(*v);
        }
        let ghost ps = v@->Dict_0;
        let mut length: Option<u64> = None;
        let mut path: Option<Vec<String>> = None;
        let mut md5sum: Option<String> = None;
        let mut i: usize = 0;
        while i < ks.len() && i < vs.len()
            invariant
                v@ is Dict,
                ps == v@->Dict_0,
                ps == pairs_view(ks@, vs@),
                i <= ps.len(),
                forall|j: int| 0 <= j < i ==> file_key(#[trigger] ps[j].0) && file_pair_ok(ps[j].0, ps[j].1),
                length == opt_field(lookup(ps.subrange(0, i as int), key_length()), |x: BVal| as_u64(x)),
                path is Some == lookup(ps.subrange(0, i as int), key_path()) is Some,
                path is Some ==> path->0@.len() >= 1,
                path is Some ==> texts(path->0@) == as_text_list(
                    lookup(ps.subrange(0, i as int), key_path())->0,
                )->0,
                opt_text(md5sum) == opt_field(
                    lookup(ps.subrange(0, i as int), key_md5sum()),
                    |x: BVal| as_text(x),
                ),
            decreases ks@.len() - i,
        {
            let k = &ks[i];
            let x = &vs[i];
            proof {
                assert(ps[i as int] == (k@, x@));
                assert(ps.subrange(0, i + 1).drop_last() =~= ps.subrange(0, i as int));
                assert(ps.subrange(0, i + 1).last() == ps[i as int]);
            }
            if bytes_eq(k.as_slice(), length_key().as_slice()) {
                match value_u64(x) {
                    Some(n) => length = Some(n),
                    None => {
                        proof {
                            assert(file_key(ps[i as int].0) && !file_pair_ok(ps[i as int].0, ps[i as int].1));
                        }
                        return Err(Error::MalformedContent(String::from_str("length is not a u64")));
                    },
                }
            } else if bytes_eq(k.as_slice(), path_key().as_slice()) {
                match value_string_list(x) {
                    Some(p) => {
                        if p.len() == 0 {
                            proof {
                                assert(texts(p@).len() == 0);
                            }
                            proof {
                            assert(file_key(ps[i as int].0) && !file_pair_ok(ps[i as int].0, ps[i as int].1));
                        }
                        return Err(Error::MalformedContent(String::from_str("empty path")));
                        }
                        path = Some(p);
                    },
                    None => {
                        proof {
                            assert(file_key(ps[i as int].0) && !file_pair_ok(ps[i as int].0, ps[i as int].1));
                        }
                        return Err(Error::MalformedContent(String::from_str("path is not a list of strings")));
                    },
                }
            } else if bytes_eq(k.as_slice(), md5sum_key().as_slice()) {
                match value_string(x) {
                    Some(s) => md5sum = Some(s),
                    None => {
                        proof {
                            assert(file_key(ps[i as int].0) && !file_pair_ok(ps[i as int].0, ps[i as int].1));
                        }
                        return Err(Error::MalformedContent(String::from_str("md5sum is not a string")));
                    },
                }
            } else {
                proof {
                    assert(!file_key(ps[i as int].0));
                }
                return Err(Error::UnexpectedField(k.clone()));
            }
            i += 1;
        }
        proof {
            assert(ps.subrange(0, i as int) =~= ps);
        }
        let length = match length {
            Some(n) => n,
            None => {
                return Err(Error::MissingField(String::from_str("length")));
            },
        };
        let path = match path {
            Some(p) => p,
            None => {
                return Err(Error::MissingField(String::from_str("path")));
            },
        };
        Ok(FileInfo { length, path, md5sum })
    }

    /// The bencode encoding of this file.
    pub fn encode(&self) -> (r: Vec<u8>)
        ensures
            r@ == encoding(file_info_value(self@)),
    {
        encode_value(&self.to_value())
    }

    /// Decodes a file from bencode: one dictionary with the keys `length`,
    /// `path` and optionally `md5sum`, nesting at most two levels.
    pub fn decode(bytes: &[u8]) -> (r: Result<FileInfo, Error>)
        ensures
            r is Ok ==> exists|w: BVal|
                encoding(w) == bytes@ && w is Dict && file_decodes(w->Dict_0) && r->Ok_0@ == file_of(
                    w->Dict_0,
                ),
            forall|f: FileInfoModel| file_info_valid(f) && encoding(file_info_value(f)) == bytes@ ==> r is Ok && r->Ok_0@ == f,
            forall|w: BVal|
                well_formed(w, 2) && fits(w) && encoding(w) == bytes@ ==> (r is Ok <==> w is Dict
                    && file_decodes(w->Dict_0)) && (r is Ok ==> r->Ok_0@ == file_of(w->Dict_0)),
    {
        match decode_value(bytes, 2) {
            Err(e) => {
                proof {
                    assert forall|f: FileInfoModel| file_info_valid(f) && encoding(file_info_value(f)) == bytes@ implies false by {
                        lemma_file_info_value_round_trip(f);
                    }
                }
                Err(e)
            },
            Ok(v) => {
                let r = FileInfo::from_value(&v);
                proof {
                    assert forall|f: FileInfoModel| file_info_valid(f) && encoding(file_info_value(f)) == bytes@ implies r is Ok && r->Ok_0@ == f by {
                        lemma_file_info_value_round_trip(f);
                    }
                }
                r
            },
        }
    }
}

} // verus!
