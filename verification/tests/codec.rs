use matrix_fileshare::codec::Base64Error;
use matrix_fileshare::events::FileChunkContent;
use matrix_fileshare::state::{ActiveTransfers, FileOfferData};
use matrix_fileshare::transfer::{handle_incoming_chunk, start_receiving};

#[test]
fn base64_error_messages() {
    assert_eq!(Base64Error::InvalidByte(3, 42).message(), "Invalid symbol 42, offset 3.");
    assert_eq!(Base64Error::InvalidLength(5).message(), "Invalid input length: 5");
    assert_eq!(Base64Error::InvalidLastSymbol(1, 82).message(), "Invalid last symbol 82, offset 1.");
    assert_eq!(Base64Error::InvalidPadding.message(), "Invalid padding");
}

fn refusal(data: &str) -> String {
    let offer = FileOfferData {
        offer_id: "z".to_string(),
        filename: "f".to_string(),
        size: 10,
        mimetype: "m".to_string(),
        sha256: "s".to_string(),
        description: None,
        sender_user_id: "@u:s".to_string(),
        sender_device_id: None,
        room_id: "!r:s".to_string(),
        iroh_ticket: None,
    };
    let mut active = ActiveTransfers::new();
    start_receiving(&mut active, &offer, "d", '/').unwrap();
    let chunk = FileChunkContent {
        offer_id: "z".to_string(),
        chunk_index: 0,
        total_chunks: 1,
        data: data.to_string(),
    };
    match handle_incoming_chunk(&mut active, chunk) {
        Err(e) => e,
        Ok(_) => panic!("payload {:?} should be refused", data),
    }
}

#[test]
fn chunk_payload_refusals_name_the_fault() {
    assert_eq!(refusal("YW*j"), "Base64 decode error: Invalid symbol 42, offset 2.");
    assert_eq!(refusal("YR=="), "Base64 decode error: Invalid last symbol 82, offset 1.");
    assert_eq!(refusal("YQ"), "Base64 decode error: Invalid padding");
    assert_eq!(refusal("YWJjZ"), "Base64 decode error: Invalid input length: 5");
}
