//! Codec for the three protocol layers of BitTorrent: torrent metadata,
//! the HTTP tracker protocol, and the peer wire handshake and framing.

pub mod announce;
pub mod bencode;
mod decimal;
pub mod error;
pub mod field;
pub mod file_info;
pub mod info;
pub mod keys;
pub mod meta_info;
pub mod peer;
pub mod scrape;
pub mod wire;

pub use error::Error;
pub use file_info::FileInfo;
pub use info::Info;
pub use meta_info::MetaInfo;
pub use peer::Peer;
