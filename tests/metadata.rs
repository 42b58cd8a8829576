use bittorrent::error::Error;
use bittorrent::meta_info::Timestamp;
use bittorrent::{FileInfo, Info, MetaInfo};

fn file_info() -> FileInfo {
    FileInfo::new(
        123456,
        vec![
            String::from("testing"),
            String::from("another"),
            String::from("final.txt"),
        ],
        None,
    )
}

fn info() -> Info {
    Info::new(
        String::from("some name"),
        1234,
        b"blahblahblahblah".to_vec(),
        Some(321),
        None,
        Some(false),
        None,
    )
    .unwrap()
}

fn meta_info() -> MetaInfo {
    MetaInfo::new(
        String::from("http://someurl.com"),
        info(),
        Some(vec![
            vec![
                String::from("http://primary.url"),
                String::from("http://second-primary.url"),
            ],
            vec![String::from("http://backup.url")],
        ]),
        Timestamp::from_secs(1234567890),
        Some(String::from("this is a comment")),
        Some(String::from("author goes here")),
        Some(String::from("UTF-8")),
    )
}

const META_BYTES: &[u8] = b"d8:announce18:http://someurl.com13:announce-listll18:http://primary.url25:http://second-primary.urlel17:http://backup.urlee7:comment17:this is a comment10:created by16:author goes here13:creation datei1234567890e8:encoding5:UTF-84:infod6:lengthi321e4:name9:some name12:piece lengthi1234e6:pieces16:blahblahblahblah7:privatei0eee";

#[test]
fn file_info_encoding_test() {
    assert_eq!(
        "d6:lengthi123456e4:pathl7:testing7:another9:final.txtee",
        &String::from_utf8_lossy(&file_info().encode())
    );
}

#[test]
fn file_info_decoding_test() {
    assert_eq!(
        file_info(),
        FileInfo::decode(b"d6:lengthi123456e4:pathl7:testing7:another9:final.txtee").unwrap()
    );
    // missing 'length' field
    assert!(FileInfo::decode(b"d4:pathl7:testing7:another9:final.txtee").is_err());
}

#[test]
fn info_encoding_test() {
    assert_eq!(
        "d6:lengthi321e4:name9:some name12:piece lengthi1234e6:pieces16:blahblahblahblah7:privatei0ee",
        &String::from_utf8_lossy(&info().encode())
    );
}

#[test]
fn info_decoding_test() {
    assert_eq!(
        info(),
        Info::decode(
            b"d6:lengthi321e4:name9:some name12:piece lengthi1234e6:pieces16:blahblahblahblah7:privatei0ee"
        )
        .unwrap()
    );
    // missing 'length' field
    assert!(Info::decode(
        b"d4:name9:some name12:piece lengthi1234e6:pieces16:blahblahblahblah7:privatei0ee"
    )
    .is_err());
}

#[test]
fn meta_info_encoding_test() {
    assert_eq!(META_BYTES, &meta_info().encode()[..]);
}

#[test]
fn meta_info_decoding_test() {
    assert_eq!(meta_info(), MetaInfo::decode(META_BYTES).unwrap());
    // missing 'announce' field
    assert!(MetaInfo::decode(
        b"d13:announce-listll18:http://primary.url25:http://second-primary.urlel17:http://backup.urlee7:comment17:this is a comment10:created by16:author goes here13:creation datei1234567890e8:encoding5:UTF-84:infod6:lengthi321e4:name9:some name12:piece lengthi1234e6:pieces16:blahblahblahblah7:privatei0eee"
    )
    .is_err());
}

#[test]
fn round_trip_of_each_metadata_type() {
    let f = file_info();
    assert_eq!(FileInfo::decode(&f.encode()).unwrap(), f);
    let i = info();
    assert_eq!(Info::decode(&i.encode()).unwrap(), i);
    let m = meta_info();
    assert_eq!(MetaInfo::decode(&m.encode()).unwrap(), m);
    let multi = Info::new(
        String::from("dir"),
        262144,
        vec![0xff; 40],
        None,
        Some(vec![
            FileInfo::new(5, vec![String::from("a"), String::from("b.txt")], Some(String::from("abc"))),
            FileInfo::new(0, vec![String::from("c")], None),
        ]),
        Some(true),
        Some(String::from("d41d8cd98f00b204e9800998ecf8427e")),
    )
    .unwrap();
    assert_eq!(Info::decode(&multi.encode()).unwrap(), multi);
}

#[test]
fn encoding_is_deterministic() {
    assert_eq!(info().encode(), info().encode());
    assert_eq!(meta_info().encode(), meta_info().encode());
}

#[test]
fn info_hash_is_sha1_of_the_encoding() {
    let hex: String = info().info_hash().iter().map(|b| format!("{:02x}", b)).collect();
    assert_eq!(hex, "65684e6ba56d6f13506815fc7f04dbe1bf6193d8");
}

#[test]
fn info_requires_exactly_one_of_length_and_files() {
    let both = Info::new(
        String::from("x"),
        1,
        vec![],
        Some(1),
        Some(vec![FileInfo::new(1, vec![String::from("f")], None)]),
        None,
        None,
    );
    assert!(matches!(both, Err(Error::InvalidMetadata(_))));
    let neither = Info::new(String::from("x"), 1, vec![], None, None, None, None);
    assert!(matches!(neither, Err(Error::InvalidMetadata(_))));
    let files = Info::new(
        String::from("x"),
        1,
        vec![],
        None,
        Some(vec![FileInfo::new(1, vec![String::from("f")], None)]),
        None,
        None,
    );
    assert!(files.is_ok());
    assert!(Info::new(String::from("x"), 1, vec![], Some(7), None, None, None).is_ok());
}

#[test]
fn decoding_info_with_length_and_files_is_malformed() {
    let r = Info::decode(
        b"d5:filesld6:lengthi1e4:pathl1:feee6:lengthi1e4:name1:x12:piece lengthi1e6:pieces0:e",
    );
    assert!(matches!(r, Err(Error::MalformedContent(_))));
}

#[test]
fn unknown_top_level_key_is_rejected() {
    let r = MetaInfo::decode(
        b"d8:announce3:url3:foo3:bar4:infod6:lengthi1e4:name1:x12:piece lengthi1e6:pieces0:ee",
    );
    match r {
        Err(Error::UnexpectedField(k)) => assert_eq!(k, b"foo".to_vec()),
        other => panic!("expected an unexpected field, got {:?}", other),
    }
}

#[test]
fn unknown_info_key_is_rejected() {
    let r = Info::decode(b"d6:lengthi1e4:name1:x12:piece lengthi1e6:pieces0:3:zzzi0ee");
    match r {
        Err(Error::UnexpectedField(k)) => assert_eq!(k, b"zzz".to_vec()),
        other => panic!("expected an unexpected field, got {:?}", other),
    }
}

#[test]
fn timestamps_span_the_utc_calendar_range() {
    assert_eq!(Timestamp::from_secs(8210266876799).unwrap().secs(), 8210266876799);
    assert!(Timestamp::from_secs(8210266876800).is_none());
    assert_eq!(Timestamp::from_secs(-8334601228800).unwrap().secs(), -8334601228800);
    assert!(Timestamp::from_secs(-8334601228801).is_none());
    assert!(Timestamp::from_secs(0).is_some());
}

#[test]
fn missing_required_keys_are_named() {
    match MetaInfo::decode(b"d8:announce3:urle") {
        Err(Error::MissingField(n)) => assert_eq!(n, "info"),
        other => panic!("expected a missing field, got {:?}", other),
    }
    match FileInfo::decode(b"d6:lengthi1ee") {
        Err(Error::MissingField(n)) => assert_eq!(n, "path"),
        other => panic!("expected a missing field, got {:?}", other),
    }
    match Info::decode(b"d6:lengthi1e4:name1:x6:pieces0:e") {
        Err(Error::MissingField(n)) => assert_eq!(n, "piece length"),
        other => panic!("expected a missing field, got {:?}", other),
    }
}

#[test]
fn pieces_are_raw_bytes() {
    let mut bytes = b"d6:lengthi1e4:name1:x12:piece lengthi1e6:pieces20:".to_vec();
    let pieces: Vec<u8> = (0u8..20).map(|i| 0xec ^ i).collect();
    bytes.extend_from_slice(&pieces);
    bytes.push(b'e');
    let info = Info::decode(&bytes).unwrap();
    assert_eq!(info.pieces(), &pieces[..]);
    assert_eq!(info.encode(), bytes);
}

#[test]
fn non_utf8_name_is_malformed() {
    let r = Info::decode(b"d6:lengthi1e4:name1:\xff12:piece lengthi1e6:pieces0:e");
    assert!(matches!(r, Err(Error::MalformedContent(_))));
}

#[test]
fn empty_path_is_malformed() {
    assert!(matches!(
        FileInfo::decode(b"d6:lengthi1e4:pathlee"),
        Err(Error::MalformedContent(_))
    ));
}

#[test]
fn out_of_range_creation_date_is_malformed() {
    let r = MetaInfo::decode(
        b"d8:announce3:url13:creation datei9223372036854775807e4:infod6:lengthi1e4:name1:x12:piece lengthi1e6:pieces0:ee",
    );
    assert!(matches!(r, Err(Error::MalformedContent(_))));
}

#[test]
fn malformed_bencode_is_a_decode_error() {
    assert!(matches!(FileInfo::decode(b"d6:lengthi1e"), Err(Error::Decode(_))));
    // keys out of order
    assert!(matches!(
        FileInfo::decode(b"d4:pathl1:ae6:lengthi1ee"),
        Err(Error::Decode(_))
    ));
    // trailing data after the dictionary
    assert!(FileInfo::decode(b"d6:lengthi1e4:pathl1:aeei1e").is_err());
}

#[test]
fn nesting_beyond_the_limit_is_rejected() {
    assert!(matches!(
        FileInfo::decode(b"d6:lengthi1e4:pathll1:aeee"),
        Err(Error::Decode(_))
    ));
}

#[test]
fn fixture_shaped_torrent_decodes() {
    let mut bytes = b"d8:announce46:http://torrent.fedoraproject.org:6969/announce13:creation datei1587996219e4:infod5:filesld6:lengthi1109803008e4:pathl34:Fedora-SoaS-Live-x86_64-32-1.6.isoeed6:lengthi2032e4:pathl35:Fedora-Spins-32-1.6-x86_64-CHECKSUMeee4:name26:Fedora-SoaS-Live-x86_64-3212:piece lengthi262144e6:pieces84680:".to_vec();
    bytes.extend(std::iter::repeat(7u8).take(84680));
    bytes.extend_from_slice(b"ee");
    let meta_info = MetaInfo::decode(&bytes).unwrap();
    assert_eq!("http://torrent.fedoraproject.org:6969/announce", meta_info.announce());
    assert!(meta_info.announce_list().is_none());
    assert_eq!(Some(1587996219), meta_info.creation_date());
    assert!(meta_info.comment().is_none());
    assert!(meta_info.created_by().is_none());
    assert!(meta_info.encoding().is_none());
    let info = meta_info.info();
    assert_eq!("Fedora-SoaS-Live-x86_64-32", info.name());
    assert_eq!(2_u64.pow(18), info.piece_length());
    assert_eq!(84_680, info.pieces().len());
    assert!(info.length().is_none());
    assert!(info.private().is_none());
    assert!(info.md5sum().is_none());
    let files = info.files().unwrap();
    assert_eq!(2, files.len());
    assert_eq!(1_109_803_008, files[0].length());
    assert_eq!(&[String::from("Fedora-SoaS-Live-x86_64-32-1.6.iso")], files[0].path());
    assert_eq!(2032, files[1].length());
    assert_eq!(&[String::from("Fedora-Spins-32-1.6-x86_64-CHECKSUM")], files[1].path());
    assert!(files[0].md5sum().is_none());
    assert_eq!(meta_info.encode(), bytes);
}
