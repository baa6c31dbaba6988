//! The custom Matrix events of the protocol: a file offer posted to a
//! room, a request for a file, and one base64 chunk of a file sent to a
//! device.
use vstd::prelude::*;

verus! {

/// Event type of a file offer posted to a room.
pub const EVENT_FILE_OFFER: &'static str = "com.fileshare.offer";

/// Event type of a request for an offered file.
pub const EVENT_FILE_REQUEST: &'static str = "com.fileshare.request";

/// Event type of one chunk of a file, sent to a device.
pub const EVENT_FILE_CHUNK: &'static str = "com.fileshare.chunk";

/// The content of a file offer event.
#[derive(Debug, Clone)]
pub struct FileOfferContent {
    pub offer_id: String,
    pub filename: String,
    pub size: u64,
    pub mimetype: String,
    pub sha256: String,
    pub description: Option<String>,
    pub sender_device_id: Option<String>,
    pub iroh_ticket: Option<String>,
    pub target_user: Option<String>,
}

/// The content of a file request event.
#[derive(Debug, Clone)]
pub struct FileRequestContent {
    pub offer_id: String,
    pub target_user: String,
    pub target_device: String,
    pub requester_device_id: String,
}

/// The content of a file chunk event; `data` is base64.
#[derive(Debug, Clone)]
pub struct FileChunkContent {
    pub offer_id: String,
    pub chunk_index: u32,
    pub total_chunks: u32,
    pub data: String,
}

} // verus!
