//! The dictionary keys of the torrent and tracker formats, as bytes.
use vstd::prelude::*;

verus! {

/// The key `length`.
pub open spec fn key_length() -> Seq<u8> {
    seq![108u8, 101, 110, 103, 116, 104]
}

/// The key `length`.
pub fn length_key() -> (r: Vec<u8>)
    ensures
        r@ == key_length(),
{
    let r = vec![108u8, 101, 110, 103, 116, 104];
    proof {
        assert(r@ =~= key_length());
    }
    r
}

/// The key `md5sum`.
pub open spec fn key_md5sum() -> Seq<u8> {
    seq![109u8, 100, 53, 115, 117, 109]
}

/// The key `md5sum`.
pub fn md5sum_key() -> (r: Vec<u8>)
    ensures
        r@ == key_md5sum(),
{
    let r = vec![109u8, 100, 53, 115, 117, 109];
    proof {
        assert(r@ =~= key_md5sum());
    }
    r
}

/// The key `path`.
pub open spec fn key_path() -> Seq<u8> {
    seq![112u8, 97, 116, 104]
}

/// The key `path`.
pub fn path_key() -> (r: Vec<u8>)
    ensures
        r@ == key_path(),
{
    let r = vec![112u8, 97, 116, 104];
    proof {
        assert(r@ =~= key_path());
    }
    r
}

/// The key `files`.
pub open spec fn key_files() -> Seq<u8> {
    seq![102u8, 105, 108, 101, 115]
}

/// The key `files`.
pub fn files_key() -> (r: Vec<u8>)
    ensures
        r@ == key_files(),
{
    let r = vec![102u8, 105, 108, 101, 115];
    proof {
        assert(r@ =~= key_files());
    }
    r
}

/// The key `name`.
pub open spec fn key_name() -> Seq<u8> {
    seq![110u8, 97, 109, 101]
}

/// The key `name`.
pub fn name_key() -> (r: Vec<u8>)
    ensures
        r@ == key_name(),
{
    let r = vec![110u8, 97, 109, 101];
    proof {
        assert(r@ =~= key_name());
    }
    r
}

/// The key `piece length`.
pub open spec fn key_piece_length() -> Seq<u8> {
    seq![112u8, 105, 101, 99, 101, 32, 108, 101, 110, 103, 116, 104]
}

/// The key `piece length`.
pub fn piece_length_key() -> (r: Vec<u8>)
    ensures
        r@ == key_piece_length(),
{
    let r = vec![112u8, 105, 101, 99, 101, 32, 108, 101, 110, 103, 116, 104];
    proof {
        assert(r@ =~= key_piece_length());
    }
    r
}

/// The key `pieces`.
pub open spec fn key_pieces() -> Seq<u8> {
    seq![112u8, 105, 101, 99, 101, 115]
}

/// The key `pieces`.
pub fn pieces_key() -> (r: Vec<u8>)
    ensures
        r@ == key_pieces(),
{
    let r = vec![112u8, 105, 101, 99, 101, 115];
    proof {
        assert(r@ =~= key_pieces());
    }
    r
}

/// The key `private`.
pub open spec fn key_private() -> Seq<u8> {
    seq![112u8, 114, 105, 118, 97, 116, 101]
}

/// The key `private`.
pub fn private_key() -> (r: Vec<u8>)
    ensures
        r@ == key_private(),
{
    let r = vec![112u8, 114, 105, 118, 97, 116, 101];
    proof {
        assert(r@ =~= key_private());
    }
    r
}

/// The key `announce`.
pub open spec fn key_announce() -> Seq<u8> {
    seq![97u8, 110, 110, 111, 117, 110, 99, 101]
}

/// The key `announce`.
pub fn announce_key() -> (r: Vec<u8>)
    ensures
        r@ == key_announce(),
{
    let r = vec![97u8, 110, 110, 111, 117, 110, 99, 101];
    proof {
        assert(r@ =~= key_announce());
    }
    r
}

/// The key `announce-list`.
pub open spec fn key_announce_list() -> Seq<u8> {
    seq![97u8, 110, 110, 111, 117, 110, 99, 101, 45, 108, 105, 115, 116]
}

/// The key `announce-list`.
pub fn announce_list_key() -> (r: Vec<u8>)
    ensures
        r@ == key_announce_list(),
{
    let r = vec![97u8, 110, 110, 111, 117, 110, 99, 101, 45, 108, 105, 115, 116];
    proof {
        assert(r@ =~= key_announce_list());
    }
    r
}

/// The key `comment`.
pub open spec fn key_comment() -> Seq<u8> {
    seq![99u8, 111, 109, 109, 101, 110, 116]
}

/// The key `comment`.
pub fn comment_key() -> (r: Vec<u8>)
    ensures
        r@ == key_comment(),
{
    let r = vec![99u8, 111, 109, 109, 101, 110, 116];
    proof {
        assert(r@ =~= key_comment());
    }
    r
}

/// The key `created by`.
pub open spec fn key_created_by() -> Seq<u8> {
    seq![99u8, 114, 101, 97, 116, 101, 100, 32, 98, 121]
}

/// The key `created by`.
pub fn created_by_key() -> (r: Vec<u8>)
    ensures
        r@ == key_created_by(),
{
    let r = vec![99u8, 114, 101, 97, 116, 101, 100, 32, 98, 121];
    proof {
        assert(r@ =~= key_created_by());
    }
    r
}

/// The key `creation date`.
pub open spec fn key_creation_date() -> Seq<u8> {
    seq![99u8, 114, 101, 97, 116, 105, 111, 110, 32, 100, 97, 116, 101]
}

/// The key `creation date`.
pub fn creation_date_key() -> (r: Vec<u8>)
    ensures
        r@ == key_creation_date(),
{
    let r = vec![99u8, 114, 101, 97, 116, 105, 111, 110, 32, 100, 97, 116, 101];
    proof {
        assert(r@ =~= key_creation_date());
    }
    r
}

/// The key `encoding`.
pub open spec fn key_encoding() -> Seq<u8> {
    seq![101u8, 110, 99, 111, 100, 105, 110, 103]
}

/// The key `encoding`.
pub fn encoding_key() -> (r: Vec<u8>)
    ensures
        r@ == key_encoding(),
{
    let r = vec![101u8, 110, 99, 111, 100, 105, 110, 103];
    proof {
        assert(r@ =~= key_encoding());
    }
    r
}

/// The key `info`.
pub open spec fn key_info() -> Seq<u8> {
    seq![105u8, 110, 102, 111]
}

/// The key `info`.
pub fn info_key() -> (r: Vec<u8>)
    ensures
        r@ == key_info(),
{
    let r = vec![105u8, 110, 102, 111];
    proof {
        assert(r@ =~= key_info());
    }
    r
}

/// The key `failure reason`.
pub open spec fn key_failure_reason() -> Seq<u8> {
    seq![102u8, 97, 105, 108, 117, 114, 101, 32, 114, 101, 97, 115, 111, 110]
}

/// The key `failure reason`.
pub fn failure_reason_key() -> (r: Vec<u8>)
    ensures
        r@ == key_failure_reason(),
{
    let r = vec![102u8, 97, 105, 108, 117, 114, 101, 32, 114, 101, 97, 115, 111, 110];
    proof {
        assert(r@ =~= key_failure_reason());
    }
    r
}

/// The key `warning message`.
pub open spec fn key_warning_message() -> Seq<u8> {
    seq![119u8, 97, 114, 110, 105, 110, 103, 32, 109, 101, 115, 115, 97, 103, 101]
}

/// The key `warning message`.
pub fn warning_message_key() -> (r: Vec<u8>)
    ensures
        r@ == key_warning_message(),
{
    let r = vec![119u8, 97, 114, 110, 105, 110, 103, 32, 109, 101, 115, 115, 97, 103, 101];
    proof {
        assert(r@ =~= key_warning_message());
    }
    r
}

/// The key `interval`.
pub open spec fn key_interval() -> Seq<u8> {
    seq![105u8, 110, 116, 101, 114, 118, 97, 108]
}

/// The key `interval`.
pub fn interval_key() -> (r: Vec<u8>)
    ensures
        r@ == key_interval(),
{
    let r = vec![105u8, 110, 116, 101, 114, 118, 97, 108];
    proof {
        assert(r@ =~= key_interval());
    }
    r
}

/// The key `min interval`.
pub open spec fn key_min_interval() -> Seq<u8> {
    seq![109u8, 105, 110, 32, 105, 110, 116, 101, 114, 118, 97, 108]
}

/// The key `min interval`.
pub fn min_interval_key() -> (r: Vec<u8>)
    ensures
        r@ == key_min_interval(),
{
    let r = vec![109u8, 105, 110, 32, 105, 110, 116, 101, 114, 118, 97, 108];
    proof {
        assert(r@ =~= key_min_interval());
    }
    r
}

/// The key `tracker id`.
pub open spec fn key_tracker_id() -> Seq<u8> {
    seq![116u8, 114, 97, 99, 107, 101, 114, 32, 105, 100]
}

/// The key `tracker id`.
pub fn tracker_id_key() -> (r: Vec<u8>)
    ensures
        r@ == key_tracker_id(),
{
    let r = vec![116u8, 114, 97, 99, 107, 101, 114, 32, 105, 100];
    proof {
        assert(r@ =~= key_tracker_id());
    }
    r
}

/// The key `complete`.
pub open spec fn key_complete() -> Seq<u8> {
    seq![99u8, 111, 109, 112, 108, 101, 116, 101]
}

/// The key `complete`.
pub fn complete_key() -> (r: Vec<u8>)
    ensures
        r@ == key_complete(),
{
    let r = vec![99u8, 111, 109, 112, 108, 101, 116, 101];
    proof {
        assert(r@ =~= key_complete());
    }
    r
}

/// The key `incomplete`.
pub open spec fn key_incomplete() -> Seq<u8> {
    seq![105u8, 110, 99, 111, 109, 112, 108, 101, 116, 101]
}

/// The key `incomplete`.
pub fn incomplete_key() -> (r: Vec<u8>)
    ensures
        r@ == key_incomplete(),
{
    let r = vec![105u8, 110, 99, 111, 109, 112, 108, 101, 116, 101];
    proof {
        assert(r@ =~= key_incomplete());
    }
    r
}

/// The key `downloaded`.
pub open spec fn key_downloaded() -> Seq<u8> {
    seq![100u8, 111, 119, 110, 108, 111, 97, 100, 101, 100]
}

/// The key `downloaded`.
pub fn downloaded_key() -> (r: Vec<u8>)
    ensures
        r@ == key_downloaded(),
{
    let r = vec![100u8, 111, 119, 110, 108, 111, 97, 100, 101, 100];
    proof {
        assert(r@ =~= key_downloaded());
    }
    r
}

/// The key `peers`.
pub open spec fn key_peers() -> Seq<u8> {
    seq![112u8, 101, 101, 114, 115]
}

/// The key `peers`.
pub fn peers_key() -> (r: Vec<u8>)
    ensures
        r@ == key_peers(),
{
    let r = vec![112u8, 101, 101, 114, 115];
    proof {
        assert(r@ =~= key_peers());
    }
    r
}

/// The key `peer id`.
pub open spec fn key_peer_id() -> Seq<u8> {
    seq![112u8, 101, 101, 114, 32, 105, 100]
}

/// The key `peer id`.
pub fn peer_id_key() -> (r: Vec<u8>)
    ensures
        r@ == key_peer_id(),
{
    let r = vec![112u8, 101, 101, 114, 32, 105, 100];
    proof {
        assert(r@ =~= key_peer_id());
    }
    r
}

/// The key `ip`.
pub open spec fn key_ip() -> Seq<u8> {
    seq![105u8, 112]
}

/// The key `ip`.
pub fn ip_key() -> (r: Vec<u8>)
    ensures
        r@ == key_ip(),
{
    let r = vec![105u8, 112];
    proof {
        assert(r@ =~= key_ip());
    }
    r
}

/// The key `port`.
pub open spec fn key_port() -> Seq<u8> {
    seq![112u8, 111, 114, 116]
}

/// The key `port`.
pub fn port_key() -> (r: Vec<u8>)
    ensures
        r@ == key_port(),
{
    let r = vec![112u8, 111, 114, 116];
    proof {
        assert(r@ =~= key_port());
    }
    r
}

} // verus!
