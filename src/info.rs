//! The info dictionary of a torrent: what is shared, in pieces.
use vstd::prelude::*;

use crate::bencode::{
    BVal, Value, decode_value, encode_value, encoding, fits, items_view, lemma_dict_view,
    lemma_list_view, pairs_view, well_formed,
};
use crate::error::Error;
use crate::field::{
    as_bytes, as_text, as_u64, as_u8, bytes_eq, lemma_text_round_trip, lookup, opt_text,
    string_value, text_value, value_bytes, value_string, value_u64, value_u8,
};
use crate::field::{opt_field, opt_text_value, push_opt};
use crate::file_info::{
    FileInfo, FileInfoModel, file_decodes, file_info_valid, file_info_value, file_of,
    lemma_file_info_value_round_trip,
};
use crate::keys::{
    files_key, key_files, key_length, key_md5sum, key_name, key_piece_length, key_pieces,
    key_private, length_key, md5sum_key, name_key, piece_length_key, pieces_key, private_key,
};

verus! {

/// The SHA-1 digest of `b`.
pub uninterp spec fn sha1_digest(b: Seq<u8>) -> Seq<u8>;

/// Relies on sha1's `Sha1::from(..).digest().bytes()`: the SHA-1 digest of
/// `b`, twenty bytes that depend on `b` alone.
#[verifier::external_body]
fn sha1(b: &[u8]) -> (r: Vec<u8>)
    ensures
        r@ == sha1_digest(b@),
        r@.len() == 20,
{
    sha1::Sha1::from(b).digest().bytes().to_vec()
}

/// The info dictionary of a torrent.
#[derive(Debug, PartialEq, Eq)]
pub struct Info {
    name: String,
    piece_length: u64,
    pieces: Vec<u8>,
    length: Option<u64>,
    files: Option<Vec<FileInfo>>,
    private: Option<bool>,
    md5sum: Option<String>,
}

/// The model of an [`Info`].
pub struct InfoModel {
    pub name: Seq<char>,
    pub piece_length: u64,
    pub pieces: Seq<u8>,
    pub length: Option<u64>,
    pub files: Option<Seq<FileInfoModel>>,
    pub private: Option<bool>,
    pub md5sum: Option<Seq<char>>,
}

/// The models of a sequence of files.
pub open spec fn file_models(fs: Seq<FileInfo>) -> Seq<FileInfoModel> {
    fs.map_values(|f: FileInfo| f@)
}

/// The models of optional files.
pub open spec fn opt_file_models(fs: Option<Vec<FileInfo>>) -> Option<Seq<FileInfoModel>> {
    match fs {
        Some(fs) => Some(file_models(fs@)),
        None => None,
    }
}

impl View for Info {
    type V = InfoModel;

    closed spec fn view(&self) -> InfoModel {
        InfoModel {
            name: self.name@,
            piece_length: self.piece_length,
            pieces: self.pieces@,
            length: self.length,
            files: opt_file_models(self.files),
            private: self.private,
            md5sum: opt_text(self.md5sum),
        }
    }
}

/// A valid info dictionary: exactly one of `length` and `files`, and valid
/// files.
pub open spec fn info_valid(m: InfoModel) -> bool {
    &&& (m.length is Some) != (m.files is Some)
    &&& m.files is Some ==> forall|i: int|
        0 <= i < m.files->0.len() ==> file_info_valid(#[trigger] m.files->0[i])
}

/// A list of files as a bencode value.
pub open spec fn files_value(fs: Seq<FileInfoModel>) -> BVal {
    BVal::List(fs.map_values(|f: FileInfoModel| file_info_value(f)))
}

/// The `private` flag as a bencode value.
pub open spec fn flag_value(b: bool) -> BVal {
    BVal::Int(if b {
        1
    } else {
        0
    })
}

/// Optional files as an optional bencode value.
pub open spec fn opt_files_value(o: Option<Seq<FileInfoModel>>) -> Option<BVal> {
    match o {
        Some(fs) => Some(files_value(fs)),
        None => None,
    }
}

/// An optional integer as an optional bencode value.
pub open spec fn opt_int_value(o: Option<u64>) -> Option<BVal> {
    match o {
        Some(n) => Some(BVal::Int(n as int)),
        None => None,
    }
}

/// An optional flag as an optional bencode value.
pub open spec fn opt_flag_value(o: Option<bool>) -> Option<BVal> {
    match o {
        Some(b) => Some(flag_value(b)),
        None => None,
    }
}

/// The dictionary of an info, keys in order.
pub open spec fn info_pairs(m: InfoModel) -> Seq<(Seq<u8>, BVal)> {
    push_opt(
        push_opt(
            push_opt(
                push_opt(Seq::empty(), key_files(), opt_files_value(m.files)),
                key_length(),
                opt_int_value(m.length),
            ),
            key_md5sum(),
            opt_text_value(m.md5sum),
        ).push((key_name(), text_value(m.name))).push(
            (key_piece_length(), BVal::Int(m.piece_length as int)),
        ).push((key_pieces(), BVal::Bytes(m.pieces))),
        key_private(),
        opt_flag_value(m.private),
    )
}

/// The bencode value of an info.
pub open spec fn info_value(m: InfoModel) -> BVal {
    BVal::Dict(info_pairs(m))
}

/// A list of file dictionaries, read as files.
pub open spec fn as_files(v: BVal) -> Option<Seq<FileInfoModel>> {
    match v {
        BVal::List(xs) => if forall|i: int|
            0 <= i < xs.len() ==> (#[trigger] xs[i]) is Dict && file_decodes(xs[i]->Dict_0) {
            Some(Seq::new(xs.len(), |i: int| file_of(xs[i]->Dict_0)))
        } else {
            None
        },
        _ => None,
    }
}

/// A key that an info dictionary may hold.
pub open spec fn info_key(k: Seq<u8>) -> bool {
    k == key_files() || k == key_length() || k == key_md5sum() || k == key_name() || k
        == key_piece_length() || k == key_pieces() || k == key_private()
}

/// The value under an allowed key has the type that the key calls for.
pub open spec fn info_pair_ok(k: Seq<u8>, v: BVal) -> bool {
    &&& k == key_files() ==> as_files(v) is Some
    &&& k == key_length() ==> as_u64(v) is Some
    &&& k == key_md5sum() ==> as_text(v) is Some
    &&& k == key_name() ==> as_text(v) is Some
    &&& k == key_piece_length() ==> as_u64(v) is Some
    &&& k == key_pieces() ==> as_bytes(v) is Some
    &&& k == key_private() ==> as_u8(v) is Some
}

/// Every key is allowed and every value well-typed.
pub open spec fn info_fields_ok(ps: Seq<(Seq<u8>, BVal)>) -> bool {
    forall|i: int| 0 <= i < ps.len() ==> info_key(#[trigger] ps[i].0) && info_pair_ok(ps[i].0, ps[i].1)
}

/// The required keys are present.
pub open spec fn info_required(ps: Seq<(Seq<u8>, BVal)>) -> bool {
    lookup(ps, key_name()) is Some && lookup(ps, key_piece_length()) is Some && lookup(
        ps,
        key_pieces(),
    ) is Some
}

/// A dictionary that decodes as an info.
pub open spec fn info_decodes(ps: Seq<(Seq<u8>, BVal)>) -> bool {
    &&& info_fields_ok(ps)
    &&& info_required(ps)
    &&& (lookup(ps, key_length()) is Some) != (lookup(ps, key_files()) is Some)
}

/// The info that a dictionary decodes as.
pub open spec fn info_of(ps: Seq<(Seq<u8>, BVal)>) -> InfoModel {
    InfoModel {
        name: as_text(lookup(ps, key_name())->0)->0,
        piece_length: as_u64(lookup(ps, key_piece_length())->0)->0,
        pieces: as_bytes(lookup(ps, key_pieces())->0)->0,
        length: opt_field(lookup(ps, key_length()), |x: BVal| as_u64(x)),
        files: opt_field(lookup(ps, key_files()), |x: BVal| as_files(x)),
        private: match lookup(ps, key_private()) {
            Some(x) => Some(as_u8(x)->0 == 1),
            None => None,
        },
        md5sum: opt_field(lookup(ps, key_md5sum()), |x: BVal| as_text(x)),
    }
}

proof fn lemma_files_round_trip(fs: Seq<FileInfoModel>)
    requires
        forall|i: int| 0 <= i < fs.len() ==> file_info_valid(#[trigger] fs[i]),
    ensures
        as_files(files_value(fs)) == Some(fs),
        well_formed(files_value(fs), 3),
        fits(files_value(fs)),
{
    let xs = files_value(fs)->List_0;
    assert forall|i: int| 0 <= i < xs.len() implies (#[trigger] xs[i]) is Dict && file_decodes(
        xs[i]->Dict_0,
    ) && well_formed(xs[i], 2) && fits(xs[i]) && file_of(xs[i]->Dict_0) == fs[i] by {
        lemma_file_info_value_round_trip(fs[i]);
    }
    assert(Seq::new(xs.len(), |i: int| file_of(xs[i]->Dict_0)) =~= fs);
}

/// Decoding the value of a valid info gives the info back.
pub proof fn lemma_info_value_round_trip(m: InfoModel)
    requires
        info_valid(m),
    ensures
        info_decodes(info_pairs(m)),
        info_of(info_pairs(m)) == m,
        well_formed(info_value(m), 4),
        fits(info_value(m)),
{
    let ps = info_pairs(m);
    lemma_text_round_trip(m.name);
    if m.md5sum is Some {
        lemma_text_round_trip(m.md5sum->0);
    }
    if m.files is Some {
        lemma_files_round_trip(m.files->0);
    }
    reveal_with_fuel(lookup, 8);
    assert(info_fields_ok(ps));
    assert(info_of(ps) == m);
    assert forall|i: int| 0 <= i < ps.len() implies well_formed(#[trigger] ps[i].1, 3) && fits(
        ps[i].1,
    ) by {}
    assert forall|i: int| 0 <= i < ps.len() - 1 implies crate::bencode::key_lt(
        #[trigger] ps[i].0,
        ps[i + 1].0,
    ) by {
        reveal_with_fuel(crate::bencode::key_lt, 7);
    }
}

/// Reads a list of file dictionaries.
fn files_from_value(v: &Value) -> (r: Result<Vec<FileInfo>, Error>)
    ensures
        r is Ok <==> as_files(v@) is Some,
        r is Ok ==> file_models(r->Ok_0@) == as_files(v@)->0,
        r matches Err(e) ==> e is UnexpectedField || e is MissingField || e is MalformedContent,
{
    match v {
        Value::List(xs) => {
            proof {
                lemma_list_view(*v);
            }
            let mut out: Vec<FileInfo> = Vec::new();
            let mut i: usize = 0;
            while i < xs.len()
                invariant
                    i <= xs@.len(),
                    v@ == BVal::List(items_view(xs@)),
                    out@.len() == i,
                    forall|j: int|
                        0 <= j < i ==> (#[trigger] xs@[j]@) is Dict && file_decodes(xs@[j]@->Dict_0)
                            && out@[j]@ == file_of(xs@[j]@->Dict_0),
                decreases xs@.len() - i,
            {
                let f = FileInfo::from_value(&xs[i]);
                match f {
                    Ok(f) => out.push(f),
                    Err(e) => {
                        proof {
                            assert(v@->List_0[i as int] == xs@[i as int]@);
                        }
                        return Err(e);
                    },
                }
                i += 1;
            }
            proof {
                let ys = v@->List_0;
                assert forall|j: int| 0 <= j < ys.len() implies (#[trigger] ys[j]) is Dict
                    && file_decodes(ys[j]->Dict_0) by {
                    assert(ys[j] == xs@[j]@);
                }
                assert(file_models(out@) =~= Seq::new(ys.len(), |j: int| file_of(ys[j]->Dict_0)));
            }
            Ok(out)
        },
        _ => Err(Error::MalformedContent(String::from_str("files is not a list"))),
    }
}

/// Writes a list of files.
fn files_to_value(fs: &Vec<FileInfo>) -> (r: Value)
    ensures
        r@ == files_value(file_models(fs@)),
{
    let mut out: Vec<Value> = Vec::new();
    let mut i: usize = 0;
    while i < fs.len()
        invariant
            i <= fs@.len(),
            out@.len() == i,
            forall|j: int| 0 <= j < i ==> (#[trigger] out@[j])@ == file_info_value(fs@[j]@),
        decreases fs@.len() - i,
    {
        out.push(fs[i].to_value());
        i += 1;
    }
    let r = Value::List(out);
    proof {
        lemma_list_view(r);
        assert(items_view(out@) =~= file_models(fs@).map_values(
            |f: FileInfoModel| file_info_value(f),
        ));
    }
    r
}

/// Encoding is deterministic: infos with the same model encode to the same
/// bytes, and the keys of the encoded dictionaries are in canonical order,
/// so the info-hash of an info depends on its model alone.
pub proof fn law_info_encoding_deterministic(a: InfoModel, b: InfoModel)
    requires
        a == b,
        info_valid(a),
    ensures
        encoding(info_value(a)) == encoding(info_value(b)),
        sha1_digest(encoding(info_value(a))) == sha1_digest(encoding(info_value(b))),
        well_formed(info_value(a), 4),
{
    lemma_info_value_round_trip(a);
}

impl Info {
    /// Every info describes one file or a directory of files, never both.
    #[verifier::type_invariant]
    spec fn inv(&self) -> bool {
        self.length.is_some() != self.files.is_some()
    }

    /// An info dictionary. Exactly one of `length` (one file) and `files`
    /// (a directory of files) must be given.
    pub fn new(
        name: String,
        piece_length: u64,
        pieces: Vec<u8>,
        length: Option<u64>,
        files: Option<Vec<FileInfo>>,
        private: Option<bool>,
        md5sum: Option<String>,
    ) -> (r: Result<Self, Error>)
        ensures
            r is Ok <==> (length is Some) != (files is Some),
            r is Ok ==> r->Ok_0@ == (InfoModel {
                name: name@,
                piece_length,
                pieces: pieces@,
                length,
                files: opt_file_models(files),
                private,
                md5sum: opt_text(md5sum),
            }),
            r is Err ==> r->Err_0 is InvalidMetadata,
    {
        if length.is_some() && files.is_some() {
            Err(
                Error::InvalidMetadata(
                    String::from_str(
                        "'length' and 'files' cannot both be defined in info dictionary",
                    ),
                ),
            )
        } else if length.is_none() && files.is_none() {
            Err(
                Error::InvalidMetadata(
                    String::from_str(
                        "one of 'length' or 'files' must be defined in info dictionary",
                    ),
                ),
            )
        } else {
            Ok(Info { name, piece_length, pieces, length, files, private, md5sum })
        }
    }

    pub fn name(&self) -> (r: &str)
        ensures
            r@ == self@.name,
    {
        self.name.as_str()
    }

    pub fn piece_length(&self) -> (r: u64)
        ensures
            r == self@.piece_length,
    {
        self.piece_length
    }

    pub fn pieces(&self) -> (r: &[u8])
        ensures
            r@ == self@.pieces,
    {
        self.pieces.as_slice()
    }

    pub fn length(&self) -> (r: Option<u64>)
        ensures
            r == self@.length,
    {
        self.length
    }

    pub fn files(&self) -> (r: Option<&[FileInfo]>)
        ensures
            r is Some == self@.files is Some,
            r is Some ==> file_models(r->0@) == self@.files->0,
    {
        match &self.files {
            Some(fs) => Some(fs.as_slice()),
            None => None,
        }
    }

    pub fn private(&self) -> (r: Option<bool>)
        ensures
            r == self@.private,
    {
        self.private
    }

    pub fn md5sum(&self) -> (r: Option<&str>)
        ensures
            r is Some == self@.md5sum is Some,
            r is Some ==> r->0@ == self@.md5sum->0,
    {
        match &self.md5sum {
            Some(s) => Some(s.as_str()),
            None => None,
        }
    }

    /// The bencode value of this info, keys in canonical order.
    pub fn to_value(&self) -> (r: Value)
        ensures
            r@ == info_value(self@),
    {
        let mut ks: Vec<Vec<u8>> = Vec::new();
        let mut vs: Vec<Value> = Vec::new();
        match &self.files {
            Some(fs) => {
                ks.push(files_key());
                vs.push(files_to_value(fs));
            },
            None => {},
        }
        match self.length {
            Some(n) => {
                ks.push(length_key());
                vs.push(Value::Int(n as i128));
            },
            None => {},
        }
        match &self.md5sum {
            Some(m) => {
                ks.push(md5sum_key());
                vs.push(string_value(m));
            },
            None => {},
        }
        ks.push(name_key());
        vs.push(string_value(&self.name));
        ks.push(piece_length_key());
        vs.push(Value::Int(self.piece_length as i128));
        ks.push(pieces_key());
        vs.push(Value::Bytes(self.pieces.clone()));
        match self.private {
            Some(p) => {
                ks.push(private_key());
                vs.push(Value::Int(if p { 1 } else { 0 }));
            },
            None => {},
        }
        let r = Value::Dict(ks, vs);
        proof {
            lemma_dict_view(r);
            assert(pairs_view(ks@, vs@) =~= info_pairs(self@));
        }
        r
    }

    /// Reads an info from its bencode value, admitting only the keys
    /// `files`, `length`, `md5sum`, `name`, `piece length`, `pieces` and
    /// `private`.
    pub fn from_value(v: &Value) -> (r: Result<Info, Error>)
        ensures
            r is Ok <==> v@ is Dict && info_decodes(v@->Dict_0),
            r is Ok ==> r->Ok_0@ == info_of(v@->Dict_0),
            r matches Err(Error::UnexpectedField(k)) ==> v@ is Dict && ((!info_key(k@) && exists|
                i: int,
            | 0 <= i < v@->Dict_0.len() && (#[trigger] v@->Dict_0[i]).0 == k@) || !info_fields_ok(
                v@->Dict_0,
            )),
            v@ is Dict && (forall|i: int|
                0 <= i < v@->Dict_0.len() && info_key(#[trigger] v@->Dict_0[i].0) ==> info_pair_ok(
                    v@->Dict_0[i].0,
                    v@->Dict_0[i].1,
                )) && (exists|i: int|
                0 <= i < v@->Dict_0.len() && !info_key(#[trigger] v@->Dict_0[i].0))
                ==> (r matches Err(Error::UnexpectedField(k)) && !info_key(k@) && exists|j: int|
                0 <= j < v@->Dict_0.len() && (#[trigger] v@->Dict_0[j]).0 == k@),
            v@ is Dict && info_fields_ok(v@->Dict_0) && !info_required(v@->Dict_0) ==> r matches Err(
                Error::MissingField(_),
            ),
            r matches Err(Error::MissingField(n)) ==> v@ is Dict && (!info_fields_ok(v@->Dict_0) || (
            !info_required(v@->Dict_0) && (n@ == "name"@ || n@ == "piece length"@ || n@
                == "pieces"@))),
            v@ is Dict && info_fields_ok(v@->Dict_0) && info_required(v@->Dict_0) && !info_decodes(
                v@->Dict_0,
            ) ==> r matches Err(Error::MalformedContent(_)),
            r matches Err(Error::MalformedContent(_)) ==> !(v@ is Dict) || !info_fields_ok(v@->Dict_0)
                || !info_decodes(v@->Dict_0),
            r matches Err(e) ==> e is UnexpectedField || e is MissingField || e is MalformedContent,
    {
        let (ks, vs) = match v {
            Value::Dict(ks, vs) => (ks, vs),
            _ => {
                return Err(Error::MalformedContent(String::from_str("expected a dictionary")));
            },
        };
        proof {
            lemma_dict_view(*v);
        }
        let ghost ps = v@->Dict_0;
        let mut name: Option<String> = None;
        let mut piece_length: Option<u64> = None;
        let mut pieces: Option<Vec<u8>> = None;
        let mut length: Option<u64> = None;
        let mut files: Option<Vec<FileInfo>> = None;
        let mut private: Option<bool> = None;
        let mut md5sum: Option<String> = None;
        let mut i: usize = 0;
        while i < ks.len() && i < vs.len()
            invariant
                v@ is Dict,
                ps == v@->Dict_0,
                ps == pairs_view(ks@, vs@),
                i <= ps.len(),
                forall|j: int| 0 <= j < i ==> info_key(#[trigger] ps[j].0) && info_pair_ok(ps[j].0, ps[j].1),
                opt_text(name) == opt_field(lookup(ps.subrange(0, i as int), key_name()), |x: BVal| as_text(x)),
                piece_length == opt_field(lookup(ps.subrange(0, i as int), key_piece_length()), |x: BVal| as_u64(x)),
                pieces is Some == lookup(ps.subrange(0, i as int), key_pieces()) is Some,
                pieces is Some ==> pieces->0@ == as_bytes(lookup(ps.subrange(0, i as int), key_pieces())->0)->0,
                length == opt_field(lookup(ps.subrange(0, i as int), key_length()), |x: BVal| as_u64(x)),
                opt_file_models(files) == opt_field(lookup(ps.subrange(0, i as int), key_files()), |x: BVal| as_files(x)),
                private == (match lookup(ps.subrange(0, i as int), key_private()) {
                    Some(x) => Some(as_u8(x)->0 == 1),
                    None => None,
                }),
                opt_text(md5sum) == opt_field(lookup(ps.subrange(0, i as int), key_md5sum()), |x: BVal| as_text(x)),
            decreases ks@.len() - i,
        {
            let k = &ks[i];
            let x = &vs[i];
            proof {
                assert(ps[i as int] == (k@, x@));
                assert(ps.subrange(0, i + 1).drop_last() =~= ps.subrange(0, i as int));
                assert(ps.subrange(0, i + 1).last() == ps[i as int]);
            }
            if bytes_eq(k.as_slice(), name_key().as_slice()) {
                match value_string(x) {
                    Some(s) => name = Some(s),
                    None => {
                        proof {
                            assert(info_key(ps[i as int].0) && !info_pair_ok(ps[i as int].0, ps[i as int].1));
                        }
                        return Err(Error::MalformedContent(String::from_str("name is not a string")));
                    },
                }
            } else if bytes_eq(k.as_slice(), piece_length_key().as_slice()) {
                match value_u64(x) {
                    Some(n) => piece_length = Some(n),
                    None => {
                        proof {
                            assert(info_key(ps[i as int].0) && !info_pair_ok(ps[i as int].0, ps[i as int].1));
                        }
                        return Err(Error::MalformedContent(String::from_str("piece length is not a u64")));
                    },
                }
            } else if bytes_eq(k.as_slice(), pieces_key().as_slice()) {
                match value_bytes(x) {
                    Some(b) => pieces = Some(b),
                    None => {
                        proof {
                            assert(info_key(ps[i as int].0) && !info_pair_ok(ps[i as int].0, ps[i as int].1));
                        }
                        return Err(Error::MalformedContent(String::from_str("pieces is not a byte string")));
                    },
                }
            } else if bytes_eq(k.as_slice(), length_key().as_slice()) {
                match value_u64(x) {
                    Some(n) => length = Some(n),
                    None => {
                        proof {
                            assert(info_key(ps[i as int].0) && !info_pair_ok(ps[i as int].0, ps[i as int].1));
                        }
                        return Err(Error::MalformedContent(String::from_str("length is not a u64")));
                    },
                }
            } else if bytes_eq(k.as_slice(), files_key().as_slice()) {
                match files_from_value(x) {
                    Ok(fs) => files = Some(fs),
                    Err(e) => {
                        proof {
                            assert(info_key(ps[i as int].0) && !info_pair_ok(ps[i as int].0, ps[i as int].1));
                        }
                        return Err(e);
                    },
                }
            } else if bytes_eq(k.as_slice(), private_key().as_slice()) {
                match value_u8(x) {
                    Some(n) => private = Some(n == 1),
                    None => {
                        proof {
                            assert(info_key(ps[i as int].0) && !info_pair_ok(ps[i as int].0, ps[i as int].1));
                        }
                        return Err(Error::MalformedContent(String::from_str("private is not a u8")));
                    },
                }
            } else if bytes_eq(k.as_slice(), md5sum_key().as_slice()) {
                match value_string(x) {
                    Some(s) => md5sum = Some(s),
                    None => {
                        proof {
                            assert(info_key(ps[i as int].0) && !info_pair_ok(ps[i as int].0, ps[i as int].1));
                        }
                        return Err(Error::MalformedContent(String::from_str("md5sum is not a string")));
                    },
                }
            } else {
                proof {
                    assert(!info_key(ps[i as int].0));
                }
                return Err(Error::UnexpectedField(k.clone()));
            }
            i += 1;
        }
        proof {
            assert(ps.subrange(0, i as int) =~= ps);
        }
        let name = match name {
            Some(n) => n,
            None => {
                return Err(Error::MissingField(String::from_str("name")));
            },
        };
        let piece_length = match piece_length {
            Some(n) => n,
            None => {
                return Err(Error::MissingField(String::from_str("piece length")));
            },
        };
        let pieces = match pieces {
            Some(p) => p,
            None => {
                return Err(Error::MissingField(String::from_str("pieces")));
            },
        };
        match Info::new(name, piece_length, pieces, length, files, private, md5sum) {
            Ok(info) => Ok(info),
            Err(_) => Err(
                Error::MalformedContent(
                    String::from_str("exactly one of 'length' and 'files' must be defined"),
                ),
            ),
        }
    }

    /// The bencode encoding of this info: the bytes whose digest is the
    /// torrent's info-hash.
    pub fn encode(&self) -> (r: Vec<u8>)
        ensures
            r@ == encoding(info_value(self@)),
    {
        encode_value(&self.to_value())
    }

    /// The info-hash of the torrent: the SHA-1 digest of this info's
    /// encoding.
    pub fn info_hash(&self) -> (r: Vec<u8>)
        ensures
            r@ == sha1_digest(encoding(info_value(self@))),
            r@.len() == 20,
    {
        let bytes = self.encode();
        sha1(bytes.as_slice())
    }

    /// Decodes an info dictionary from bencode, nesting at most four levels.
    pub fn decode(bytes: &[u8]) -> (r: Result<Info, Error>)
        ensures
            r is Ok ==> exists|w: BVal|
                encoding(w) == bytes@ && w is Dict && info_decodes(w->Dict_0) && r->Ok_0@ == info_of(
                    w->Dict_0,
                ),
            forall|m: InfoModel| info_valid(m) && encoding(info_value(m)) == bytes@ ==> r is Ok && r->Ok_0@ == m,
            forall|w: BVal|
                well_formed(w, 4) && fits(w) && encoding(w) == bytes@ ==> (r is Ok <==> w is Dict
                    && info_decodes(w->Dict_0)) && (r is Ok ==> r->Ok_0@ == info_of(w->Dict_0)),
            forall|w: BVal|
                well_formed(w, 4) && fits(w) && encoding(w) == bytes@ && w is Dict && (forall|i: int|
                    0 <= i < w->Dict_0.len() && info_key(#[trigger] w->Dict_0[i].0) ==> info_pair_ok(
                        w->Dict_0[i].0,
                        w->Dict_0[i].1,
                    )) && (exists|i: int| 0 <= i < w->Dict_0.len() && !info_key(#[trigger] w->Dict_0[i].0))
                    ==> (r matches Err(Error::UnexpectedField(k)) && !info_key(k@) && exists|j: int|
                    0 <= j < w->Dict_0.len() && (#[trigger] w->Dict_0[j]).0 == k@),
    {
        match decode_value(bytes, 4) {
            Err(e) => {
                proof {
                    assert forall|m: InfoModel| info_valid(m) && encoding(info_value(m)) == bytes@ implies false by {
                        lemma_info_value_round_trip(m);
                    }
                }
                Err(e)
            },
            Ok(v) => {
                let r = Info::from_value(&v);
                proof {
                    assert forall|m: InfoModel| info_valid(m) && encoding(info_value(m)) == bytes@ implies r is Ok && r->Ok_0@ == m by {
                        lemma_info_value_round_trip(m);
                    }
                }
                r
            },
        }
    }
}

} // verus!
