use matrix_fileshare::cli::{choose_ticket, download_request, fix_room_id, offer_lines, room_lines, Commands};
use matrix_fileshare::state::{FileOfferData, RoomSummary};

fn offer(ticket: Option<&str>, device: Option<&str>) -> FileOfferData {
    FileOfferData {
        offer_id: "1234".to_string(),
        filename: "movie.mp4".to_string(),
        size: 5 * 1024 * 1024,
        mimetype: "video/mp4".to_string(),
        sha256: "00".to_string(),
        description: None,
        sender_user_id: "@bob:s".to_string(),
        sender_device_id: device.map(|d| d.to_string()),
        room_id: "!r:s".to_string(),
        iroh_ticket: ticket.map(|t| t.to_string()),
    }
}

#[test]
fn room_ids_typed_in_a_shell() {
    assert_eq!(fix_room_id("\\!abc:matrix.org"), "!abc:matrix.org");
    assert_eq!(fix_room_id("!abc:matrix.org"), "!abc:matrix.org");
    assert_eq!(fix_room_id("abc:matrix.org"), "!abc:matrix.org");
    assert_eq!(fix_room_id(""), "!");
    assert_eq!(fix_room_id("\\"), "!\\");
}

#[test]
fn commands_get_fixed_room_ids() {
    let c = Commands::Offers {
        homeserver: "h".to_string(),
        username: "u".to_string(),
        password: "p".to_string(),
        room_id: "abc:s".to_string(),
    };
    match c.with_fixed_room_id() {
        Commands::Offers { room_id, homeserver, .. } => {
            assert_eq!(room_id, "!abc:s");
            assert_eq!(homeserver, "h");
        }
        _ => panic!("offers expected"),
    }
    let s = Commands::IrohServe { file_path: "abc".to_string() };
    match s.with_fixed_room_id() {
        Commands::IrohServe { file_path } => assert_eq!(file_path, "abc"),
        _ => panic!("kept"),
    }
}

#[test]
fn room_table_lines() {
    assert_eq!(room_lines(&[]), vec!["No rooms found.".to_string()]);
    let rooms = vec![RoomSummary { room_id: "!a:s".to_string(), name: "Team".to_string(), member_count: 3 }];
    let lines = room_lines(&rooms);
    assert_eq!(lines[0], format!("{:<50} {:<10} {}", "ROOM ID", "MEMBERS", "NAME"));
    assert_eq!(lines[1], "-".repeat(80));
    assert_eq!(lines[2], format!("{:<50} {:<10} {}", "!a:s", 3, "Team"));
    assert_eq!(lines.len(), 3);
}

#[test]
fn offer_table_lines() {
    assert_eq!(offer_lines(&[]), vec!["No file offers in this room.".to_string()]);
    let offers = vec![offer(Some("t"), None), offer(None, None)];
    let lines = offer_lines(&offers);
    assert_eq!(lines[0], format!("{:<38} {:<30} {:<12} {:<6} {}", "OFFER ID", "FILENAME", "SIZE", "IROH", "SENDER"));
    assert_eq!(lines[1], "-".repeat(110));
    assert_eq!(lines[2], format!("{:<38} {:<30} {:<12} {:<6} {}", "1234", "movie.mp4", "5.0 MB", "yes", "@bob:s"));
    assert_eq!(lines[3], format!("{:<38} {:<30} {:<12} {:<6} {}", "1234", "movie.mp4", "5.0 MB", "no", "@bob:s"));
}

#[test]
fn download_requests_target_the_sender() {
    let r = download_request(&offer(None, Some("DEVB")), "MINE".to_string());
    assert_eq!(r.offer_id, "1234");
    assert_eq!(r.target_user, "@bob:s");
    assert_eq!(r.target_device, "DEVB");
    assert_eq!(r.requester_device_id, "MINE");
    let any = download_request(&offer(None, None), "MINE".to_string());
    assert_eq!(any.target_device, "*");
}

#[test]
fn tickets_prefer_the_given_one() {
    assert_eq!(choose_ticket(Some("a".to_string()), &offer(Some("b"), None)), Some("a".to_string()));
    assert_eq!(choose_ticket(None, &offer(Some("b"), None)), Some("b".to_string()));
    assert_eq!(choose_ticket(None, &offer(None, None)), None);
}
