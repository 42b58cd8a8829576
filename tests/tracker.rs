use bittorrent::announce::{Event, Request, Response};
use bittorrent::error::Error;
use bittorrent::peer::{Host, SocketAddress};
use bittorrent::scrape;
use bittorrent::Peer;

fn v4(a: u8, b: u8, c: u8, d: u8, port: u16) -> SocketAddress {
    SocketAddress { host: Host::Ipv4(a, b, c, d), port }
}

fn named(host: &str, port: u16) -> SocketAddress {
    SocketAddress { host: Host::Name(String::from(host)), port }
}

fn peer_from_dict(bytes: &[u8]) -> Peer {
    let v = bittorrent::bencode::decode_value(bytes, 1).unwrap();
    Peer::from_value(&v).unwrap()
}

#[test]
fn peer_conversion_test() {
    // the port is the big-endian number of the last two bytes: 60 * 256 + 80
    let bytes: &[u8] = &[127, 0, 0, 1, 60, 80];
    let peer = Peer::new(None, v4(127, 0, 0, 1, 15440));
    assert_eq!(Peer::try_from(bytes).unwrap(), peer);
}

#[test]
fn peer_old_conversion_test_ipv4() {
    assert_eq!(
        peer_from_dict(b"d2:ip9:127.0.0.17:peer id6:abcdef4:porti6080ee"),
        Peer::new(Some(String::from("abcdef")), named("127.0.0.1", 6080))
    );
}

#[test]
fn peer_old_conversion_test_ipv6() {
    assert_eq!(
        peer_from_dict(b"d2:ip24:fe80::202:b3ff:fe1e:83297:peer id6:abcdef4:porti6080ee"),
        Peer::new(Some(String::from("abcdef")), named("fe80::202:b3ff:fe1e:8329", 6080))
    );
}

#[test]
fn peer_old_conversion_test_dns() {
    assert_eq!(
        peer_from_dict(b"d2:ip11:example.com7:peer id6:abcdef4:porti80ee"),
        Peer::new(Some(String::from("abcdef")), named("example.com", 80))
    );
}

#[test]
fn compact_peer_decodes_big_endian_port() {
    let bytes: &[u8] = &[127, 0, 0, 1, 0x1F, 0x90];
    let peer = Peer::try_from(bytes).unwrap();
    assert_eq!(peer.address(), &v4(127, 0, 0, 1, 8080));
    assert!(peer.peer_id().is_none());
}

#[test]
fn compact_peer_of_wrong_length_is_rejected() {
    let bytes: &[u8] = &[127, 0, 0, 1, 0x1F];
    assert!(matches!(Peer::try_from(bytes), Err(Error::InvalidCompactPeerLength(5))));
}

#[test]
fn compact_peer_list_keeps_order() {
    let r = Response::decode(b"d5:peers12:\x0a\x00\x00\x01\x1a\xe1\xc0\xa8\x01\x02\x00\x50e").unwrap();
    let peers = r.peers().unwrap();
    assert_eq!(peers.len(), 2);
    assert_eq!(peers[0].address(), &v4(10, 0, 0, 1, 6881));
    assert_eq!(peers[1].address(), &v4(192, 168, 1, 2, 80));
}

#[test]
fn compact_peer_list_of_bad_length_is_rejected() {
    let r = Response::decode(b"d5:peers7:\x0a\x00\x00\x01\x1a\xe1\x00e");
    assert!(matches!(r, Err(Error::InvalidCompactPeerLength(1))));
}

#[test]
fn dictionary_peer_list_is_read_by_shape() {
    let r = Response::decode(
        b"d8:intervali1800e5:peersld2:ip11:example.com4:porti80eed2:ip3:::17:peer id2:id4:porti6881eeee",
    )
    .unwrap();
    assert_eq!(r.interval(), Some(1800));
    let peers = r.peers().unwrap();
    assert_eq!(peers.len(), 2);
    assert_eq!(peers[0], Peer::new(None, named("example.com", 80)));
    assert_eq!(peers[1], Peer::new(Some(String::from("id")), named("::1", 6881)));
}

#[test]
fn failure_response_has_no_other_fields() {
    let r = Response::decode(b"d14:failure reason4:nopee").unwrap();
    assert_eq!(r.failure_reason(), Some("nope"));
    assert!(r.warning_message().is_none());
    assert!(r.interval().is_none());
    assert!(r.min_interval().is_none());
    assert!(r.tracker_id().is_none());
    assert!(r.complete().is_none());
    assert!(r.incomplete().is_none());
    assert!(r.downloaded().is_none());
    assert!(r.peers().is_none());
}

#[test]
fn failure_reason_hides_counts_that_were_sent() {
    let r = Response::decode(b"d8:completei5e14:failure reason4:nope8:intervali10e5:peers0:e").unwrap();
    assert_eq!(r.failure_reason(), Some("nope"));
    assert!(r.complete().is_none());
    assert!(r.interval().is_none());
    assert!(r.peers().is_none());
}

#[test]
fn full_announce_response() {
    let r = Response::decode(
        b"d8:completei3e10:downloadedi7e10:incompletei2e8:intervali900e12:min intervali60e5:peers0:10:tracker id3:abc15:warning message4:slowe",
    )
    .unwrap();
    assert_eq!(r.complete(), Some(3));
    assert_eq!(r.downloaded(), Some(7));
    assert_eq!(r.incomplete(), Some(2));
    assert_eq!(r.interval(), Some(900));
    assert_eq!(r.min_interval(), Some(60));
    assert_eq!(r.tracker_id(), Some("abc"));
    assert_eq!(r.warning_message(), Some("slow"));
    assert_eq!(r.peers().unwrap().len(), 0);
}

#[test]
fn unknown_announce_key_is_rejected() {
    let r = Response::decode(b"d8:intervali1e3:zzzi0ee");
    assert!(matches!(r, Err(Error::UnexpectedField(_))));
}

#[test]
fn request_query_puts_encoded_hash_first() {
    let request = Request::new(
        String::from("http://tracker.example/announce"),
        String::from("%80%BB%B5"),
        String::from("abcdefghijklmnopqrst"),
        None,
        6881,
        0,
        0,
        1109803008,
        Some(Event::Started),
        true,
        None,
        None,
        None,
        None,
    );
    assert_eq!(
        request.to_query(),
        "info_hash=%80%BB%B5&peer_id=abcdefghijklmnopqrst&port=6881&uploaded=0&downloaded=0&left=1109803008&event=started&compact=1"
    );
    assert_eq!(request.announce_url(), "http://tracker.example/announce");
}

#[test]
fn request_query_form_encodes_text_values() {
    let request = Request::new(
        String::from("http://tracker.example/announce"),
        String::from("h"),
        String::from("p"),
        Some(String::from("10.0.0.1")),
        1,
        2,
        3,
        4,
        Some(Event::Empty),
        false,
        Some(true),
        Some(50),
        Some(String::from("a b&c")),
        Some(String::from("t=1")),
    );
    assert_eq!(
        request.to_query(),
        "info_hash=h&peer_id=p&ip=10.0.0.1&port=1&uploaded=2&downloaded=3&left=4&event=empty&compact=0&no_peer_id=1&numwant=50&key=a+b%26c&trackerid=t%3D1"
    );
}

#[test]
fn request_query_percent_encodes_non_ascii_bytes() {
    let request = Request::new(
        String::from("http://tracker.example/announce"),
        String::from("h"),
        String::from("p"),
        None,
        1,
        0,
        0,
        0,
        None,
        true,
        None,
        None,
        Some(String::from("caf\u{e9}*-._~")),
        None,
    );
    assert_eq!(
        request.to_query(),
        "info_hash=h&peer_id=p&port=1&uploaded=0&downloaded=0&left=0&compact=1&key=caf%C3%A9*-._%7E"
    );
}

#[test]
fn event_tokens() {
    assert_eq!(Event::Started.to_string(), "started");
    assert_eq!(Event::Stopped.to_string(), "stopped");
    assert_eq!(Event::Completed.to_string(), "completed");
    assert_eq!(Event::Empty.as_str(), "empty");
}

#[test]
fn scrape_response_is_keyed_by_raw_hash() {
    let hash: Vec<u8> = (0u8..20).map(|i| 0x80 + i).collect();
    let mut bytes = b"d5:filesd20:".to_vec();
    bytes.extend_from_slice(&hash);
    bytes.extend_from_slice(b"d8:completei5e10:downloadedi50e5:extrai1e10:incompletei10e4:name4:demoee5:flagsde");
    bytes.extend_from_slice(b"e");
    let r = scrape::Response::decode(&bytes).unwrap();
    assert_eq!(r.files().len(), 1);
    let stats = r.get(&hash).unwrap();
    assert_eq!(stats, &scrape::TorrentStats::new(5, 50, 10, Some(String::from("demo"))));
    assert_eq!(stats.complete(), 5);
    assert_eq!(stats.downloaded(), 50);
    assert_eq!(stats.incomplete(), 10);
    assert_eq!(stats.name(), Some("demo"));
    assert!(r.get(&[0u8; 20]).is_none());
}

#[test]
fn scrape_response_without_files_is_missing_a_field() {
    let r = scrape::Response::decode(b"d5:flagsdee");
    assert!(matches!(r, Err(Error::MissingField(_))));
}

#[test]
fn scrape_stats_without_a_count_is_missing_a_field() {
    let mut bytes = b"d5:filesd20:".to_vec();
    bytes.extend_from_slice(&[1u8; 20]);
    bytes.extend_from_slice(b"d8:completei5e10:incompletei10eeee");
    let r = scrape::Response::decode(&bytes);
    assert!(matches!(r, Err(Error::MissingField(_))));
}
