//! The tracker's announce exchange: the request's query string and the
//! response's decoding.
use vstd::prelude::*;

use crate::bencode::{
    BVal, Value, decode_value, encoding, fits, items_view, lemma_dict_view, lemma_list_view,
    pairs_view, well_formed,
};
use crate::error::Error;
use crate::field::{as_text, as_u64, bytes_eq, lookup, opt_text, value_string, value_u64};
use crate::field::opt_field;
use crate::keys::{
    complete_key, downloaded_key, failure_reason_key, incomplete_key, interval_key,
    key_complete, key_downloaded, key_failure_reason, key_incomplete, key_interval,
    key_min_interval, key_peers, key_tracker_id, key_warning_message, min_interval_key, peers_key,
    tracker_id_key, warning_message_key,
};
use crate::peer::{
    Peer, PeerModel, compact_peer_list, compact_peers, peer_decodes, peer_of,
};

verus! {

/// The event that an announce reports.
#[derive(Debug, Clone, Copy, PartialEq, Eq, Structural)]
pub enum Event {
    Started,
    Stopped,
    Completed,
    Empty,
}

/// The token of an event in a query string.
pub open spec fn event_text(e: Event) -> Seq<char> {
    match e {
        Event::Started => "started"@,
        Event::Stopped => "stopped"@,
        Event::Completed => "completed"@,
        Event::Empty => "empty"@,
    }
}

impl Event {
    /// The lowercase token of this event.
    pub fn as_str(&self) -> (r: &'static str)
        ensures
            r@ == event_text(*self),
    {
        match self {
            Event::Started => "started",
            Event::Stopped => "stopped",
            Event::Completed => "completed",
            Event::Empty => "empty",
        }
    }

    /// The lowercase token of this event.
    pub fn to_string(&self) -> (r: String)
        ensures
            r@ == event_text(*self),
    {
        String::from_str(self.as_str())
    }
}

/// The character of a decimal digit.
pub open spec fn digit_char(d: nat) -> char {
    if d == 0 {
        '0'
    } else if d == 1 {
        '1'
    } else if d == 2 {
        '2'
    } else if d == 3 {
        '3'
    } else if d == 4 {
        '4'
    } else if d == 5 {
        '5'
    } else if d == 6 {
        '6'
    } else if d == 7 {
        '7'
    } else if d == 8 {
        '8'
    } else {
        '9'
    }
}

/// The decimal text of `n`, without leading zeros.
pub open spec fn dec_chars(n: nat) -> Seq<char>
    decreases n,
{
    if n < 10 {
        seq![digit_char(n)]
    } else {
        dec_chars(n / 10).push(digit_char(n % 10))
    }
}

fn digit_str(d: u64) -> (r: &'static str)
    requires
        d < 10,
    ensures
        r@ == seq![digit_char(d as nat)],
{
    if d == 0 {
        proof {
            reveal_strlit("0");
        }
        "0"
    } else if d == 1 {
        proof {
            reveal_strlit("1");
        }
        "1"
    } else if d == 2 {
        proof {
            reveal_strlit("2");
        }
        "2"
    } else if d == 3 {
        proof {
            reveal_strlit("3");
        }
        "3"
    } else if d == 4 {
        proof {
            reveal_strlit("4");
        }
        "4"
    } else if d == 5 {
        proof {
            reveal_strlit("5");
        }
        "5"
    } else if d == 6 {
        proof {
            reveal_strlit("6");
        }
        "6"
    } else if d == 7 {
        proof {
            reveal_strlit("7");
        }
        "7"
    } else if d == 8 {
        proof {
            reveal_strlit("8");
        }
        "8"
    } else {
        proof {
            reveal_strlit("9");
        }
        "9"
    }
}

/// Appends the decimal text of `n` to `s`.
fn push_dec(n: u64, s: &mut String)
    ensures
        final(s)@ == old(s)@ + dec_chars(n as nat),
    decreases n,
{
    if n >= 10 {
        push_dec(n / 10, s);
    }
    s.append(digit_str(n % 10));
    proof {
        assert(final(s)@ =~= old(s)@ + dec_chars(n as nat));
    }
}

/// The uppercase hexadecimal digit of `n`, below sixteen.
pub open spec fn hex_upper(n: int) -> char {
    if n == 0 {
        '0'
    } else if n == 1 {
        '1'
    } else if n == 2 {
        '2'
    } else if n == 3 {
        '3'
    } else if n == 4 {
        '4'
    } else if n == 5 {
        '5'
    } else if n == 6 {
        '6'
    } else if n == 7 {
        '7'
    } else if n == 8 {
        '8'
    } else if n == 9 {
        '9'
    } else if n == 10 {
        'A'
    } else if n == 11 {
        'B'
    } else if n == 12 {
        'C'
    } else if n == 13 {
        'D'
    } else if n == 14 {
        'E'
    } else {
        'F'
    }
}

/// A byte that form-encoding keeps as it is: `*`, `-`, `.`, `_`, and ASCII
/// digits and letters.
pub open spec fn form_unchanged(b: u8) -> bool {
    b == 42 || b == 45 || b == 46 || b == 95 || (48 <= b <= 57) || (65 <= b <= 90) || (97 <= b
        <= 122)
}

/// The form-encoding of one byte: itself when unchanged, `+` for a space,
/// else `%` and two uppercase hexadecimal digits.
pub open spec fn form_byte(b: u8) -> Seq<char> {
    if form_unchanged(b) {
        seq![b as char]
    } else if b == 32 {
        seq!['+']
    } else {
        seq!['%', hex_upper(b as int / 16), hex_upper(b as int % 16)]
    }
}

/// The form-encoding of a byte string, byte by byte.
pub open spec fn form_bytes(bs: Seq<u8>) -> Seq<char>
    decreases bs.len(),
{
    if bs.len() == 0 {
        Seq::empty()
    } else {
        form_bytes(bs.drop_last()) + form_byte(bs.last())
    }
}

/// The application/x-www-form-urlencoded text of `s`: the form-encoding of
/// its UTF-8 bytes.
pub open spec fn form_encoded(s: Seq<char>) -> Seq<char> {
    form_bytes(vstd::utf8::encode_utf8(s))
}

/// Relies on url's `form_urlencoded::byte_serialize`, the encoding that
/// `Url::query_pairs_mut` applies to each value: each UTF-8 byte of `s` in
/// `*-._0-9A-Za-z` is kept, a space becomes `+`, any other byte becomes `%`
/// and its two uppercase hexadecimal digits.
#[verifier::external_body]
fn form_encode(s: &str) -> (r: String)
    ensures
        r@ == form_encoded(s@),
{
    url::form_urlencoded::byte_serialize(s.as_bytes()).collect()
}

/// An announce request to a tracker.
#[derive(Debug)]
pub struct Request {
    announce_url: String,
    info_hash: String,
    peer_id: String,
    ip: Option<String>,
    port: u16,
    uploaded: u64,
    downloaded: u64,
    left: u64,
    event: Option<Event>,
    compact: bool,
    no_peer_id: Option<bool>,
    numwant: Option<u64>,
    key: Option<String>,
    trackerid: Option<String>,
}

/// The model of a [`Request`].
pub struct RequestModel {
    pub announce_url: Seq<char>,
    pub info_hash: Seq<char>,
    pub peer_id: Seq<char>,
    pub ip: Option<Seq<char>>,
    pub port: u16,
    pub uploaded: u64,
    pub downloaded: u64,
    pub left: u64,
    pub event: Option<Event>,
    pub compact: bool,
    pub no_peer_id: Option<bool>,
    pub numwant: Option<u64>,
    pub key: Option<Seq<char>>,
    pub trackerid: Option<Seq<char>>,
}

impl View for Request {
    type V = RequestModel;

    closed spec fn view(&self) -> RequestModel {
        RequestModel {
            announce_url: self.announce_url@,
            info_hash: self.info_hash@,
            peer_id: self.peer_id@,
            ip: opt_text(self.ip),
            port: self.port,
            uploaded: self.uploaded,
            downloaded: self.downloaded,
            left: self.left,
            event: self.event,
            compact: self.compact,
            no_peer_id: self.no_peer_id,
            numwant: self.numwant,
            key: opt_text(self.key),
            trackerid: opt_text(self.trackerid),
        }
    }
}

/// `prefix` and the value, when there is a value; else nothing.
pub open spec fn opt_part(prefix: Seq<char>, value: Option<Seq<char>>) -> Seq<char> {
    match value {
        Some(v) => prefix + v,
        None => Seq::empty(),
    }
}

/// A flag as `1` or `0`.
pub open spec fn flag_text(b: bool) -> Seq<char> {
    if b {
        "1"@
    } else {
        "0"@
    }
}

/// The form-encoded text of an optional value.
pub open spec fn opt_form(o: Option<Seq<char>>) -> Option<Seq<char>> {
    match o {
        Some(v) => Some(form_encoded(v)),
        None => None,
    }
}

/// The decimal text of an optional number.
pub open spec fn opt_dec(o: Option<u64>) -> Option<Seq<char>> {
    match o {
        Some(n) => Some(dec_chars(n as nat)),
        None => None,
    }
}

/// The query string up to and including the peer's address and port.
pub open spec fn query_head(r: RequestModel) -> Seq<char> {
    "info_hash="@ + r.info_hash + "&peer_id="@ + r.peer_id + opt_part("&ip="@, opt_form(r.ip))
        + "&port="@ + dec_chars(r.port as nat)
}

/// The query string up to and including the `compact` flag.
pub open spec fn query_middle(r: RequestModel) -> Seq<char> {
    query_head(r) + "&uploaded="@ + dec_chars(r.uploaded as nat) + "&downloaded="@ + dec_chars(
        r.downloaded as nat,
    ) + "&left="@ + dec_chars(r.left as nat) + opt_part("&event="@, opt_event(r.event))
        + "&compact="@ + flag_text(r.compact)
}

/// The query string of a request: the already-encoded `info_hash` and
/// `peer_id` first and verbatim, then the other parameters in order, with
/// text values form-encoded and numbers in decimal.
pub open spec fn query_text(r: RequestModel) -> Seq<char> {
    query_middle(r) + opt_part("&no_peer_id="@, opt_flag(r.no_peer_id)) + opt_part("&numwant="@, opt_dec(r.numwant)) + opt_part("&key="@, opt_form(r.key)) + opt_part(
        "&trackerid="@,
        opt_form(r.trackerid),
    )
}

fn push_flag(b: bool, s: &mut String)
    ensures
        final(s)@ == old(s)@ + flag_text(b),
{
    if b {
        s.append("1");
    } else {
        s.append("0");
    }
}

fn append_opt_form(s: &mut String, prefix: &str, v: &Option<String>)
    ensures
        final(s)@ == old(s)@ + opt_part(prefix@, opt_form(opt_text(*v))),
{
    match v {
        Some(x) => {
            s.append(prefix);
            s.append(form_encode(x.as_str()).as_str());
        },
        None => {},
    }
    proof {
        assert(final(s)@ =~= old(s)@ + opt_part(prefix@, opt_form(opt_text(*v))));
    }
}

fn append_opt_dec(s: &mut String, prefix: &str, v: Option<u64>)
    ensures
        final(s)@ == old(s)@ + opt_part(prefix@, opt_dec(v)),
{
    match v {
        Some(n) => {
            s.append(prefix);
            push_dec(n, s);
        },
        None => {},
    }
    proof {
        assert(final(s)@ =~= old(s)@ + opt_part(prefix@, opt_dec(v)));
    }
}

/// The text of an optional flag.
pub open spec fn opt_flag(o: Option<bool>) -> Option<Seq<char>> {
    match o {
        Some(b) => Some(flag_text(b)),
        None => None,
    }
}

/// The token of an optional event.
pub open spec fn opt_event(o: Option<Event>) -> Option<Seq<char>> {
    match o {
        Some(e) => Some(event_text(e)),
        None => None,
    }
}

fn append_opt_flag(s: &mut String, prefix: &str, v: Option<bool>)
    ensures
        final(s)@ == old(s)@ + opt_part(prefix@, opt_flag(v)),
{
    match v {
        Some(b) => {
            s.append(prefix);
            push_flag(b, s);
        },
        None => {},
    }
    proof {
        assert(final(s)@ =~= old(s)@ + opt_part(prefix@, opt_flag(v)));
    }
}

fn append_opt_event(s: &mut String, v: Option<Event>)
    ensures
        final(s)@ == old(s)@ + opt_part("&event="@, opt_event(v)),
{
    match v {
        Some(e) => {
            s.append("&event=");
            s.append(e.as_str());
        },
        None => {},
    }
    proof {
        assert(final(s)@ =~= old(s)@ + opt_part("&event="@, opt_event(v)));
    }
}

impl Request {
    /// An announce request. `info_hash` and `peer_id` are given already
    /// percent-encoded; `ip` is the textual address to report, if any.
    pub fn new(
        announce_url: String,
        info_hash: String,
        peer_id: String,
        ip: Option<String>,
        port: u16,
        uploaded: u64,
        downloaded: u64,
        left: u64,
        event: Option<Event>,
        compact: bool,
        no_peer_id: Option<bool>,
        numwant: Option<u64>,
        key: Option<String>,
        trackerid: Option<String>,
    ) -> (r: Self)
        ensures
            r@ == (RequestModel {
                announce_url: announce_url@,
                info_hash: info_hash@,
                peer_id: peer_id@,
                ip: opt_text(ip),
                port,
                uploaded,
                downloaded,
                left,
                event,
                compact,
                no_peer_id,
                numwant,
                key: opt_text(key),
                trackerid: opt_text(trackerid),
            }),
    {
        Request {
            announce_url,
            info_hash,
            peer_id,
            ip,
            port,
            uploaded,
            downloaded,
            left,
            event,
            compact,
            no_peer_id,
            numwant,
            key,
            trackerid,
        }
    }

    /// The tracker's announce URL; its query is to be replaced by
    /// [`Request::to_query`].
    pub fn announce_url(&self) -> (r: &str)
        ensures
            r@ == self@.announce_url,
    {
        self.announce_url.as_str()
    }

    /// The query string of this request.
    pub fn to_query(&self) -> (r: String)
        ensures
            r@ == query_text(self@),
    {
        let mut s = String::from_str("info_hash=");
        s.append(self.info_hash.as_str());
        s.append("&peer_id=");
        s.append(self.peer_id.as_str());
        append_opt_form(&mut s, "&ip=", &self.ip);
        s.append("&port=");
        push_dec(self.port as u64, &mut s);
        s.append("&uploaded=");
        push_dec(self.uploaded, &mut s);
        s.append("&downloaded=");
        push_dec(self.downloaded, &mut s);
        s.append("&left=");
        push_dec(self.left, &mut s);
        append_opt_event(&mut s, self.event);
        s.append("&compact=");
        push_flag(self.compact, &mut s);
        append_opt_flag(&mut s, "&no_peer_id=", self.no_peer_id);
        append_opt_dec(&mut s, "&numwant=", self.numwant);
        append_opt_form(&mut s, "&key=", &self.key);
        append_opt_form(&mut s, "&trackerid=", &self.trackerid);
        s
    }
}

/// The peers of a `peers` value: a compact byte string whose length is a
/// multiple of six, or a list of peer dictionaries. Which one is read
/// follows from the value's shape alone.
pub open spec fn as_peers(v: BVal) -> Option<Seq<PeerModel>> {
    match v {
        BVal::Bytes(b) => if b.len() % 6 == 0 {
            Some(compact_peers(b))
        } else {
            None
        },
        BVal::List(xs) => if forall|i: int|
            0 <= i < xs.len() ==> (#[trigger] xs[i]) is Dict && peer_decodes(xs[i]->Dict_0) {
            Some(Seq::new(xs.len(), |i: int| peer_of(xs[i]->Dict_0)))
        } else {
            None
        },
        _ => None,
    }
}

/// Every key is allowed, every `peers` value is a byte string, and every
/// other value is well-typed.
pub open spec fn response_compact_shape(ps: Seq<(Seq<u8>, BVal)>) -> bool {
    forall|i: int|
        0 <= i < ps.len() ==> response_key(#[trigger] ps[i].0) && (ps[i].0 == key_peers()
            ==> ps[i].1 is Bytes) && (ps[i].0 != key_peers() ==> response_pair_ok(ps[i].0, ps[i].1))
}

/// Some `peers` value is a byte string whose length is not a multiple of
/// six.
pub open spec fn has_bad_compact_peers(ps: Seq<(Seq<u8>, BVal)>) -> bool {
    exists|i: int|
        0 <= i < ps.len() && (#[trigger] ps[i]).0 == key_peers() && ps[i].1 is Bytes
            && ps[i].1->Bytes_0.len() % 6 != 0
}

/// The error names the length left over by a bad compact peer string of
/// the dictionary.
pub open spec fn names_bad_compact_peers(ps: Seq<(Seq<u8>, BVal)>, n: usize) -> bool {
    exists|i: int|
        0 <= i < ps.len() && (#[trigger] ps[i]).0 == key_peers() && ps[i].1 is Bytes && n
            == ps[i].1->Bytes_0.len() % 6
}

/// The models of a sequence of peers.
pub open spec fn peer_models(ps: Seq<Peer>) -> Seq<PeerModel> {
    ps.map_values(|p: Peer| p@)
}

/// Reads the `peers` value of a response, by its shape.
pub fn peers_from_value(v: &Value) -> (r: Result<Vec<Peer>, Error>)
    ensures
        r is Ok <==> as_peers(v@) is Some,
        r is Ok ==> peer_models(r->Ok_0@) == as_peers(v@)->0,
        r matches Err(Error::InvalidCompactPeerLength(n)) ==> v@ is Bytes && n == v@->Bytes_0.len()
            % 6 && n != 0,
        v@ is Bytes && v@->Bytes_0.len() % 6 != 0 ==> (r matches Err(
            Error::InvalidCompactPeerLength(n),
        ) && n == v@->Bytes_0.len() % 6),
        r matches Err(e) ==> e is InvalidCompactPeerLength || e is UnexpectedField || e is MissingField
            || e is MalformedContent,
{
    match v {
        Value::Bytes(b) => {
            let r = compact_peer_list(b.as_slice());
            proof {
                if r is Ok {
                    assert(peer_models(r->Ok_0@) =~= compact_peers(b@));
                }
            }
            r
        },
        Value::List(xs) => {
            proof {
                lemma_list_view(*v);
            }
            let mut out: Vec<Peer> = Vec::new();
            let mut i: usize = 0;
            while i < xs.len()
                invariant
                    i <= xs@.len(),
                    v@ == BVal::List(items_view(xs@)),
                    out@.len() == i,
                    forall|j: int|
                        0 <= j < i ==> (#[trigger] xs@[j]@) is Dict && peer_decodes(xs@[j]@->Dict_0)
                            && out@[j]@ == peer_of(xs@[j]@->Dict_0),
                decreases xs@.len() - i,
            {
                match Peer::from_value(&xs[i]) {
                    Ok(p) => out.push(p),
                    Err(e) => {
                        proof {
                            assert(v@->List_0[i as int] == xs@[i as int]@);
                        }
                        return Err(e);
                    },
                }
                i += 1;
            }
            proof {
                let ys = v@->List_0;
                assert forall|j: int| 0 <= j < ys.len() implies (#[trigger] ys[j]) is Dict
                    && peer_decodes(ys[j]->Dict_0) by {
                    assert(ys[j] == xs@[j]@);
                }
                assert(peer_models(out@) =~= Seq::new(ys.len(), |j: int| peer_of(ys[j]->Dict_0)));
            }
            Ok(out)
        },
        _ => Err(Error::MalformedContent(String::from_str("peers is neither a string nor a list"))),
    }
}

/// A tracker's answer to an announce.
#[derive(Debug, PartialEq, Eq)]
pub struct Response {
    failure_reason: Option<String>,
    warning_message: Option<String>,
    interval: Option<u64>,
    min_interval: Option<u64>,
    tracker_id: Option<String>,
    complete: Option<u64>,
    incomplete: Option<u64>,
    downloaded: Option<u64>,
    peers: Option<Vec<Peer>>,
}

/// The model of a [`Response`].
pub struct ResponseModel {
    pub failure_reason: Option<Seq<char>>,
    pub warning_message: Option<Seq<char>>,
    pub interval: Option<u64>,
    pub min_interval: Option<u64>,
    pub tracker_id: Option<Seq<char>>,
    pub complete: Option<u64>,
    pub incomplete: Option<u64>,
    pub downloaded: Option<u64>,
    pub peers: Option<Seq<PeerModel>>,
}

/// The models of optional peers.
pub open spec fn opt_peer_models(o: Option<Vec<Peer>>) -> Option<Seq<PeerModel>> {
    match o {
        Some(ps) => Some(peer_models(ps@)),
        None => None,
    }
}

impl View for Response {
    type V = ResponseModel;

    closed spec fn view(&self) -> ResponseModel {
        ResponseModel {
            failure_reason: opt_text(self.failure_reason),
            warning_message: opt_text(self.warning_message),
            interval: self.interval,
            min_interval: self.min_interval,
            tracker_id: opt_text(self.tracker_id),
            complete: self.complete,
            incomplete: self.incomplete,
            downloaded: self.downloaded,
            peers: opt_peer_models(self.peers),
        }
    }
}

/// A key that a response may hold.
pub open spec fn response_key(k: Seq<u8>) -> bool {
    k == key_failure_reason() || k == key_warning_message() || k == key_interval() || k
        == key_min_interval() || k == key_tracker_id() || k == key_complete() || k
        == key_incomplete() || k == key_downloaded() || k == key_peers()
}

/// The value under an allowed key has the type that the key calls for.
pub open spec fn response_pair_ok(k: Seq<u8>, v: BVal) -> bool {
    &&& k == key_failure_reason() ==> as_text(v) is Some
    &&& k == key_warning_message() ==> as_text(v) is Some
    &&& k == key_interval() ==> as_u64(v) is Some
    &&& k == key_min_interval() ==> as_u64(v) is Some
    &&& k == key_tracker_id() ==> as_text(v) is Some
    &&& k == key_complete() ==> as_u64(v) is Some
    &&& k == key_incomplete() ==> as_u64(v) is Some
    &&& k == key_downloaded() ==> as_u64(v) is Some
    &&& k == key_peers() ==> as_peers(v) is Some
}

/// A dictionary that decodes as a response: every key allowed and every
/// value well-typed.
pub open spec fn response_decodes(ps: Seq<(Seq<u8>, BVal)>) -> bool {
    forall|i: int|
        0 <= i < ps.len() ==> response_key(#[trigger] ps[i].0) && response_pair_ok(ps[i].0, ps[i].1)
}

/// The response that a dictionary decodes as. With a failure reason, no
/// count, tracker id or peer list is kept.
pub open spec fn response_of(ps: Seq<(Seq<u8>, BVal)>) -> ResponseModel {
    let failed = lookup(ps, key_failure_reason()) is Some;
    ResponseModel {
        failure_reason: opt_field(lookup(ps, key_failure_reason()), |x: BVal| as_text(x)),
        warning_message: opt_field(lookup(ps, key_warning_message()), |x: BVal| as_text(x)),
        interval: if failed {
            None
        } else {
            opt_field(lookup(ps, key_interval()), |x: BVal| as_u64(x))
        },
        min_interval: if failed {
            None
        } else {
            opt_field(lookup(ps, key_min_interval()), |x: BVal| as_u64(x))
        },
        tracker_id: if failed {
            None
        } else {
            opt_field(lookup(ps, key_tracker_id()), |x: BVal| as_text(x))
        },
        complete: if failed {
            None
        } else {
            opt_field(lookup(ps, key_complete()), |x: BVal| as_u64(x))
        },
        incomplete: if failed {
            None
        } else {
            opt_field(lookup(ps, key_incomplete()), |x: BVal| as_u64(x))
        },
        downloaded: if failed {
            None
        } else {
            opt_field(lookup(ps, key_downloaded()), |x: BVal| as_u64(x))
        },
        peers: if failed {
            None
        } else {
            opt_field(lookup(ps, key_peers()), |x: BVal| as_peers(x))
        },
    }
}

/// A response that carries a failure reason keeps no interval, tracker id,
/// count or peer list, whatever else it holds.
pub proof fn law_failure_response(ps: Seq<(Seq<u8>, BVal)>)
    requires
        lookup(ps, key_failure_reason()) is Some,
    ensures
        response_of(ps).interval is None,
        response_of(ps).min_interval is None,
        response_of(ps).tracker_id is None,
        response_of(ps).complete is None,
        response_of(ps).incomplete is None,
        response_of(ps).downloaded is None,
        response_of(ps).peers is None,
{
}

impl Response {
    pub fn new(
        failure_reason: Option<String>,
        warning_message: Option<String>,
        interval: Option<u64>,
        min_interval: Option<u64>,
        tracker_id: Option<String>,
        complete: Option<u64>,
        incomplete: Option<u64>,
        downloaded: Option<u64>,
        peers: Option<Vec<Peer>>,
    ) -> (r: Self)
        ensures
            r@ == (ResponseModel {
                failure_reason: opt_text(failure_reason),
                warning_message: opt_text(warning_message),
                interval,
                min_interval,
                tracker_id: opt_text(tracker_id),
                complete,
                incomplete,
                downloaded,
                peers: opt_peer_models(peers),
            }),
    {
        Response {
            failure_reason,
            warning_message,
            interval,
            min_interval,
            tracker_id,
            complete,
            incomplete,
            downloaded,
            peers,
        }
    }

    pub fn failure_reason(&self) -> (r: Option<&str>)
        ensures
            r is Some == self@.failure_reason is Some,
            r is Some ==> r->0@ == self@.failure_reason->0,
    {
        match &self.failure_reason {
            Some(s) => Some(s.as_str()),
            None => None,
        }
    }

    pub fn warning_message(&self) -> (r: Option<&str>)
        ensures
            r is Some == self@.warning_message is Some,
            r is Some ==> r->0@ == self@.warning_message->0,
    {
        match &self.warning_message {
            Some(s) => Some(s.as_str()),
            None => None,
        }
    }

    pub fn interval(&self) -> (r: Option<u64>)
        ensures
            r == self@.interval,
    {
        self.interval
    }

    pub fn min_interval(&self) -> (r: Option<u64>)
        ensures
            r == self@.min_interval,
    {
        self.min_interval
    }

    pub fn tracker_id(&self) -> (r: Option<&str>)
        ensures
            r is Some == self@.tracker_id is Some,
            r is Some ==> r->0@ == self@.tracker_id->0,
    {
        match &self.tracker_id {
            Some(s) => Some(s.as_str()),
            None => None,
        }
    }

    pub fn complete(&self) -> (r: Option<u64>)
        ensures
            r == self@.complete,
    {
        self.complete
    }

    pub fn incomplete(&self) -> (r: Option<u64>)
        ensures
            r == self@.incomplete,
    {
        self.incomplete
    }

    pub fn downloaded(&self) -> (r: Option<u64>)
        ensures
            r == self@.downloaded,
    {
        self.downloaded
    }

    pub fn peers(&self) -> (r: Option<&[Peer]>)
        ensures
            r is Some == self@.peers is Some,
            r is Some ==> peer_models(r->0@) == self@.peers->0,
    {
        match &self.peers {
            Some(ps) => Some(ps.as_slice()),
            None => None,
        }
    }

    /// Reads a response from its bencode value, admitting only the keys of
    /// the announce protocol.
    pub fn from_value(v: &Value) -> (r: Result<Response, Error>)
        ensures
            r is Ok <==> v@ is Dict && response_decodes(v@->Dict_0),
            r is Ok ==> r->Ok_0@ == response_of(v@->Dict_0),
            v@ is Dict && (forall|i: int|
                0 <= i < v@->Dict_0.len() && response_key(#[trigger] v@->Dict_0[i].0)
                    ==> response_pair_ok(v@->Dict_0[i].0, v@->Dict_0[i].1)) && (exists|i: int|
                0 <= i < v@->Dict_0.len() && !response_key(#[trigger] v@->Dict_0[i].0))
                ==> (r matches Err(Error::UnexpectedField(k)) && !response_key(k@) && exists|j: int|
                0 <= j < v@->Dict_0.len() && (#[trigger] v@->Dict_0[j]).0 == k@),
            r matches Err(Error::UnexpectedField(k)) ==> v@ is Dict && ((!response_key(k@) && exists|
                i: int,
            | 0 <= i < v@->Dict_0.len() && (#[trigger] v@->Dict_0[i]).0 == k@) || !response_decodes(
                v@->Dict_0,
            )),
            v@ is Dict && response_compact_shape(v@->Dict_0) && has_bad_compact_peers(v@->Dict_0)
                ==> (r matches Err(Error::InvalidCompactPeerLength(n)) && names_bad_compact_peers(
                v@->Dict_0,
                n,
            )),
            r matches Err(e) ==> (e is UnexpectedField || e is MissingField || e is MalformedContent
                || e is InvalidCompactPeerLength),
    {
        let (ks, vs) = match v {
            Value::Dict(ks, vs) => (ks, vs),
            _ => {
                return Err(Error::MalformedContent(String::from_str("expected a dictionary")));
            },
        };
        proof {
            lemma_dict_view(*v);
        }
        let ghost ps = v@->Dict_0;
        let mut failure_reason: Option<String> = None;
        let mut warning_message: Option<String> = None;
        let mut interval: Option<u64> = None;
        let mut min_interval: Option<u64> = None;
        let mut tracker_id: Option<String> = None;
        let mut complete: Option<u64> = None;
        let mut incomplete: Option<u64> = None;
        let mut downloaded: Option<u64> = None;
        let mut peers: Option<Vec<Peer>> = None;
        let mut i: usize = 0;
        while i < ks.len() && i < vs.len()
            invariant
                v@ is Dict,
                ps == v@->Dict_0,
                ps == pairs_view(ks@, vs@),
                i <= ps.len(),
                forall|j: int| 0 <= j < i ==> response_key(#[trigger] ps[j].0) && response_pair_ok(ps[j].0, ps[j].1),
                opt_text(failure_reason) == opt_field(lookup(ps.subrange(0, i as int), key_failure_reason()), |x: BVal| as_text(x)),
                opt_text(warning_message) == opt_field(lookup(ps.subrange(0, i as int), key_warning_message()), |x: BVal| as_text(x)),
                interval == opt_field(lookup(ps.subrange(0, i as int), key_interval()), |x: BVal| as_u64(x)),
                min_interval == opt_field(lookup(ps.subrange(0, i as int), key_min_interval()), |x: BVal| as_u64(x)),
                opt_text(tracker_id) == opt_field(lookup(ps.subrange(0, i as int), key_tracker_id()), |x: BVal| as_text(x)),
                complete == opt_field(lookup(ps.subrange(0, i as int), key_complete()), |x: BVal| as_u64(x)),
                incomplete == opt_field(lookup(ps.subrange(0, i as int), key_incomplete()), |x: BVal| as_u64(x)),
                downloaded == opt_field(lookup(ps.subrange(0, i as int), key_downloaded()), |x: BVal| as_u64(x)),
                opt_peer_models(peers) == opt_field(lookup(ps.subrange(0, i as int), key_peers()), |x: BVal| as_peers(x)),
            decreases ks@.len() - i,
        {
            let k = &ks[i];
            let x = &vs[i];
            proof {
                assert(ps[i as int] == (k@, x@));
                assert(ps.subrange(0, i + 1).drop_last() =~= ps.subrange(0, i as int));
                assert(ps.subrange(0, i + 1).last() == ps[i as int]);
            }
            let mut bad = false;
            if bytes_eq(k.as_slice(), failure_reason_key().as_slice()) {
                match value_string(x) {
                    Some(s) => failure_reason = Some(s),
                    None => bad = true,
                }
            } else if bytes_eq(k.as_slice(), warning_message_key().as_slice()) {
                match value_string(x) {
                    Some(s) => warning_message = Some(s),
                    None => bad = true,
                }
            } else if bytes_eq(k.as_slice(), interval_key().as_slice()) {
                match value_u64(x) {
                    Some(n) => interval = Some(n),
                    None => bad = true,
                }
            } else if bytes_eq(k.as_slice(), min_interval_key().as_slice()) {
                match value_u64(x) {
                    Some(n) => min_interval = Some(n),
                    None => bad = true,
                }
            } else if bytes_eq(k.as_slice(), tracker_id_key().as_slice()) {
                match value_string(x) {
                    Some(s) => tracker_id = Some(s),
                    None => bad = true,
                }
            } else if bytes_eq(k.as_slice(), complete_key().as_slice()) {
                match value_u64(x) {
                    Some(n) => complete = Some(n),
                    None => bad = true,
                }
            } else if bytes_eq(k.as_slice(), incomplete_key().as_slice()) {
                match value_u64(x) {
                    Some(n) => incomplete = Some(n),
                    None => bad = true,
                }
            } else if bytes_eq(k.as_slice(), downloaded_key().as_slice()) {
                match value_u64(x) {
                    Some(n) => downloaded = Some(n),
                    None => bad = true,
                }
            } else if bytes_eq(k.as_slice(), peers_key().as_slice()) {
                match peers_from_value(x) {
                    Ok(p) => peers = Some(p),
                    Err(e) => {
                        proof {
                            assert(response_key(ps[i as int].0) && !response_pair_ok(ps[i as int].0, ps[i as int].1));
                        }
                        return Err(e);
                    },
                }
            } else {
                proof {
                    assert(!response_key(ps[i as int].0));
                }
                return Err(Error::UnexpectedField(k.clone()));
            }
            if bad {
                proof {
                    assert(response_key(ps[i as int].0) && !response_pair_ok(ps[i as int].0, ps[i as int].1));
                }
                return Err(Error::MalformedContent(String::from_str("a field has the wrong type")));
            }
            i += 1;
        }
        proof {
            assert(ps.subrange(0, i as int) =~= ps);
        }
        if failure_reason.is_some() {
            interval = None;
            min_interval = None;
            tracker_id = None;
            complete = None;
            incomplete = None;
            downloaded = None;
            peers = None;
        }
        Ok(
            Response {
                failure_reason,
                warning_message,
                interval,
                min_interval,
                tracker_id,
                complete,
                incomplete,
                downloaded,
                peers,
            },
        )
    }

    /// Decodes a tracker's announce response, nesting at most three levels.
    pub fn decode(bytes: &[u8]) -> (r: Result<Response, Error>)
        ensures
            r is Ok ==> exists|w: BVal|
                encoding(w) == bytes@ && w is Dict && response_decodes(w->Dict_0) && r->Ok_0@
                    == response_of(w->Dict_0),
            forall|w: BVal|
                well_formed(w, 3) && fits(w) && encoding(w) == bytes@ ==> (r is Ok <==> w is Dict
                    && response_decodes(w->Dict_0)) && (r is Ok ==> r->Ok_0@ == response_of(w->Dict_0)),
            forall|w: BVal|
                well_formed(w, 3) && fits(w) && encoding(w) == bytes@ && w is Dict && (forall|i: int|
                    0 <= i < w->Dict_0.len() && response_key(#[trigger] w->Dict_0[i].0) ==> response_pair_ok(
                        w->Dict_0[i].0,
                        w->Dict_0[i].1,
                    )) && (exists|i: int| 0 <= i < w->Dict_0.len() && !response_key(#[trigger] w->Dict_0[i].0))
                    ==> (r matches Err(Error::UnexpectedField(k)) && !response_key(k@) && exists|j: int|
                    0 <= j < w->Dict_0.len() && (#[trigger] w->Dict_0[j]).0 == k@),
            forall|w: BVal|
                well_formed(w, 3) && fits(w) && encoding(w) == bytes@ && w is Dict
                    && response_compact_shape(w->Dict_0) && has_bad_compact_peers(w->Dict_0) ==> (r matches Err(
                    Error::InvalidCompactPeerLength(n),
                ) && names_bad_compact_peers(w->Dict_0, n)),
    {
        let v = decode_value(bytes, 3)?;
        Response::from_value(&v)
    }
}

} // verus!
