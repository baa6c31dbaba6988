use matrix_fileshare::events::{FileOfferContent, FileRequestContent, EVENT_FILE_CHUNK, EVENT_FILE_OFFER, EVENT_FILE_REQUEST};
use matrix_fileshare::matrix_client::{
    cli_progress_text, data_dir, db_path_for, find_offer, is_chunk_event, login_failure_message,
    mime_for_extension, mime_guess_from_path, new_offer, normalize_homeserver, offer_data_from_content,
    offer_with_id, replace_text, room_summary, session_file_name_of, session_file_path,
    session_file_path_in, session_paths, db_path_in, restore_next, RestoreAction, RestoreEvent,
    store_dir_name_of, sync_failure, timeline_action, HistoryEvent, HistoryPage, OfferScan,
    TimelineAction, LOGIN_TIMEOUT_MESSAGE, MAX_HISTORY_PAGES, SESSION_EXPIRED_MESSAGE,
};
use matrix_fileshare::paths::join_path;

fn content(offer_id: &str) -> FileOfferContent {
    FileOfferContent {
        offer_id: offer_id.to_string(),
        filename: "a.txt".to_string(),
        size: 3,
        mimetype: "text/plain".to_string(),
        sha256: "abc".to_string(),
        description: Some("notes".to_string()),
        sender_device_id: Some("DEV".to_string()),
        iroh_ticket: None,
        target_user: None,
    }
}

#[test]
fn event_types() {
    assert_eq!(EVENT_FILE_OFFER, "com.fileshare.offer");
    assert_eq!(EVENT_FILE_REQUEST, "com.fileshare.request");
    assert_eq!(EVENT_FILE_CHUNK, "com.fileshare.chunk");
}

#[test]
fn session_names_are_sanitized() {
    assert_eq!(
        session_file_name_of("alice.b", "https://matrix.org"),
        "session_alice_b_https_matrix.org.json"
    );
    assert_eq!(store_dir_name_of("al-ice_1", "https://example.com:8448/x"), "al-ice_1_https_example.com_8448_x");
    assert_eq!(session_file_name_of("é", "http://a"), "session_é_http_a.json");
}

#[test]
fn session_paths_live_in_the_data_dir() {
    let dir = data_dir('/');
    assert!(dir.ends_with("/matrix-fileshare") || dir == "./matrix-fileshare" || dir.ends_with("\\matrix-fileshare"));
    let p = session_file_path('/', "bob", "https://hs.example");
    assert!(p.starts_with(&dir));
    assert!(p.ends_with("session_bob_https_hs.example.json"));
    let d = db_path_for('/', "bob", "https://hs.example");
    assert!(d.ends_with("bob_https_hs.example"));
}

#[test]
fn store_dir_of_a_full_user_id() {
    let d = db_path_for('/', "@alice:matrix.org", "https://matrix.org:8448");
    let expected = std::path::Path::new(&data_dir('/'))
        .join("_alice_matrix_org_https_matrix.org_8448");
    assert_eq!(d, expected.to_str().unwrap());
    assert_eq!(
        db_path_in('/', "/data/matrix-fileshare", "@alice:matrix.org", "https://matrix.org:8448"),
        "/data/matrix-fileshare/_alice_matrix_org_https_matrix.org_8448"
    );
}

#[test]
fn session_file_sits_beside_the_store_and_is_named_after_it() {
    let (session, store) = session_paths('/', "@alice:matrix.org", "https://matrix.org:8448");
    let store_path = std::path::Path::new(&store);
    let store_name = store_path.file_name().unwrap().to_str().unwrap();
    let beside = store_path.with_file_name(format!("session_{}.json", store_name));
    assert_eq!(session, beside.to_str().unwrap());
    assert_eq!(session, session_file_path('/', "@alice:matrix.org", "https://matrix.org:8448"));
    assert_eq!(store, db_path_for('/', "@alice:matrix.org", "https://matrix.org:8448"));
    assert_eq!(
        session_file_path_in('/', "d", "a/b", "https://h/x"),
        "d/session_a_b_https_h_x.json"
    );
}

#[test]
fn replace_text_is_leftmost_non_overlapping() {
    assert_eq!(replace_text("a://b://c", "://", "_"), "a_b_c");
    assert_eq!(replace_text("aaaa", "aa", "b"), "bb");
    assert_eq!(replace_text("xyz", "q", "_"), "xyz");
}

#[test]
fn paths_join_like_pathbuf() {
    assert_eq!(join_path('/', "/tmp", "f.txt"), "/tmp/f.txt");
    assert_eq!(join_path('/', "/tmp/", "f.txt"), "/tmp/f.txt");
    assert_eq!(join_path('/', "", "f.txt"), "f.txt");
    assert_eq!(join_path('/', "/tmp", "/etc/x"), "/etc/x");
    let std_join = std::path::Path::new("dl").join("a b.txt");
    assert_eq!(join_path('/', "dl", "a b.txt"), std_join.to_str().unwrap());
}

#[test]
fn homeserver_gets_a_scheme() {
    assert_eq!(normalize_homeserver("matrix.org"), "https://matrix.org");
    assert_eq!(normalize_homeserver("http://localhost:8008"), "http://localhost:8008");
    assert_eq!(normalize_homeserver("https://x"), "https://x");
}

#[test]
fn login_failures_are_explained() {
    let rate = "Rate limited by server. Please wait a minute and try again.";
    assert_eq!(login_failure_message("HTTP 429 Too Many Requests"), rate);
    assert_eq!(login_failure_message("M_LIMIT_EXCEEDED"), rate);
    assert_eq!(login_failure_message("You are being RATE limited"), rate);
    assert_eq!(login_failure_message("Invalid password"), "Login failed: Invalid password");
    assert!(LOGIN_TIMEOUT_MESSAGE.starts_with("Login timed out."));
}

#[test]
fn sync_failures_are_classified() {
    let f = sync_failure("the server replied 401 Unauthorized");
    assert!(f.session_expired);
    assert_eq!(f.message, SESSION_EXPIRED_MESSAGE);
    let g = sync_failure("M_UNKNOWN_TOKEN: token expired");
    assert!(g.session_expired);
    let h = sync_failure("connection reset");
    assert!(!h.session_expired);
    assert_eq!(h.message, "Initial sync failed: connection reset");
}

#[test]
fn mime_types_follow_extensions() {
    assert_eq!(mime_guess_from_path('/', "/home/a/photo.JPG"), "image/jpeg");
    assert_eq!(mime_guess_from_path('/', "x.jpeg"), "image/jpeg");
    assert_eq!(mime_guess_from_path('/', "doc.pdf"), "application/pdf");
    assert_eq!(mime_guess_from_path('/', "archive.tar.gz"), "application/gzip");
    assert_eq!(mime_guess_from_path('/', "page.HTM"), "text/html");
    assert_eq!(mime_guess_from_path('/', "README"), "application/octet-stream");
    assert_eq!(mime_guess_from_path('/', ".bashrc"), "application/octet-stream");
    assert_eq!(mime_guess_from_path('/', "song.mp3"), "audio/mpeg");
    assert_eq!(mime_for_extension("svg"), "image/svg+xml");
    assert_eq!(mime_for_extension("JSON"), "application/octet-stream");
}

#[test]
fn rooms_fall_back_to_id_and_active_members() {
    let r = room_summary("!a:s", None, 0, 4);
    assert_eq!(r.name, "!a:s");
    assert_eq!(r.member_count, 4);
    let s = room_summary("!a:s", Some("Team"), 3, 4);
    assert_eq!(s.name, "Team");
    assert_eq!(s.member_count, 3);
}

#[test]
fn offer_scan_reads_pages_in_order() {
    let mut scan = OfferScan::new("!room:s");
    assert_eq!(scan.next_request(), Some(None));
    let page = HistoryPage {
        events: vec![
            HistoryEvent { event_type: Some("m.room.message".to_string()), sender: Some("@x:s".to_string()), offer: None },
            HistoryEvent { event_type: Some(EVENT_FILE_OFFER.to_string()), sender: Some("@bob:s".to_string()), offer: Some(content("o1")) },
            HistoryEvent { event_type: Some(EVENT_FILE_OFFER.to_string()), sender: None, offer: Some(content("o2")) },
            HistoryEvent { event_type: Some(EVENT_FILE_OFFER.to_string()), sender: Some("@c:s".to_string()), offer: None },
        ],
        end: Some("t1".to_string()),
    };
    scan.take_page(page);
    assert_eq!(scan.next_request(), Some(Some("t1".to_string())));
    scan.take_page(HistoryPage { events: vec![], end: Some("t2".to_string()) });
    assert_eq!(scan.next_request(), None);
    let offers = scan.into_offers();
    assert_eq!(offers.len(), 2);
    assert_eq!(offers[0].offer_id, "o1");
    assert_eq!(offers[0].sender_user_id, "@bob:s");
    assert_eq!(offers[0].room_id, "!room:s");
    assert_eq!(offers[0].description.as_deref(), Some("notes"));
    assert_eq!(offers[1].offer_id, "o2");
    assert_eq!(offers[1].sender_user_id, "");
    assert_eq!(find_offer(&offers, "o2").map(|o| o.offer_id.clone()), Some("o2".to_string()));
    assert!(find_offer(&offers, "o3").is_none());
}

#[test]
fn offer_scan_stops_after_ten_pages() {
    assert_eq!(MAX_HISTORY_PAGES, 10);
    let mut scan = OfferScan::new("!r:s");
    let mut pages = 0;
    while let Some(_) = scan.next_request() {
        let page = HistoryPage {
            events: vec![HistoryEvent { event_type: Some(EVENT_FILE_OFFER.to_string()), sender: Some("@s:s".to_string()), offer: Some(content("x")) }],
            end: Some(format!("t{}", pages)),
        };
        scan.take_page(page);
        pages += 1;
    }
    assert_eq!(pages, 10);
    assert_eq!(scan.into_offers().len(), 10);
}

#[test]
fn offer_scan_stops_without_end_token() {
    let mut scan = OfferScan::new("!r:s");
    scan.take_page(HistoryPage {
        events: vec![HistoryEvent { event_type: None, sender: None, offer: None }],
        end: None,
    });
    assert_eq!(scan.next_request(), None);
    assert!(scan.into_offers().is_empty());
}

#[test]
fn offers_carry_digest_type_and_name() {
    let (c, p) = offer_with_id(
        '/',
        "id-1".to_string(),
        "/home/me/Photo.PNG",
        b"abc",
        "!r:s",
        Some("holiday".to_string()),
        Some("DEV1".to_string()),
        None,
    );
    assert_eq!(c.offer_id, "id-1");
    assert_eq!(c.filename, "Photo.PNG");
    assert_eq!(c.size, 3);
    assert_eq!(c.mimetype, "image/png");
    assert_eq!(c.sha256, "ba7816bf8f01cfea414140de5dae2223b00361a396177a9cb410ff61f20015ad");
    assert_eq!(c.description.as_deref(), Some("holiday"));
    assert_eq!(c.sender_device_id.as_deref(), Some("DEV1"));
    assert!(c.iroh_ticket.is_none());
    assert!(c.target_user.is_none());
    assert_eq!(p.file_path, "/home/me/Photo.PNG");
    assert_eq!(p.room_id, "!r:s");
    assert_eq!(p.sha256, c.sha256);
    assert_eq!(p.size, 3);
    let (d, _) = offer_with_id('/', "id-2".to_string(), "/", b"", "!r:s", None, None, None);
    assert_eq!(d.filename, "unknown");
}

#[test]
fn fresh_offers_have_uuid_ids() {
    let (a, _) = new_offer('/', "f.txt", b"x", "!r:s", None, None, None);
    let (b, _) = new_offer('/', "f.txt", b"x", "!r:s", None, None, None);
    assert_eq!(a.offer_id.len(), 36);
    assert_ne!(a.offer_id, b.offer_id);
    let chars: Vec<char> = a.offer_id.chars().collect();
    for (i, c) in chars.iter().enumerate() {
        if i == 8 || i == 13 || i == 18 || i == 23 {
            assert_eq!(*c, '-');
        } else {
            assert!(c.is_ascii_hexdigit() && !c.is_ascii_uppercase());
        }
    }
    assert_eq!(chars[14], '4');
}

#[test]
fn terminal_progress_lines() {
    assert_eq!(
        cli_progress_text("transfer-progress", Some(512), Some(2048), Some("receiving"), None, None),
        Some("\r  receiving 25% (512 B/2.0 KB)".to_string())
    );
    assert_eq!(
        cli_progress_text("transfer-progress", Some(5), Some(0), Some("sending"), None, None),
        Some("\r  sending 0% (5 B/0 B)".to_string())
    );
    assert_eq!(cli_progress_text("transfer-progress", None, Some(1), Some("s"), None, None), None);
    assert_eq!(
        cli_progress_text("transfer-complete", None, None, None, Some("/x/y"), None),
        Some("\n  Transfer complete: /x/y\n".to_string())
    );
    assert_eq!(
        cli_progress_text("transfer-complete", None, None, None, None, None),
        Some("\n  Transfer complete.\n".to_string())
    );
    assert_eq!(
        cli_progress_text("transfer-failed", None, None, None, None, Some("Hash verification failed")),
        Some("\n  Transfer failed: Hash verification failed\n".to_string())
    );
    assert_eq!(cli_progress_text("transfer-failed", None, None, None, None, None), None);
    assert_eq!(cli_progress_text("other", Some(1), Some(1), Some("s"), None, None), None);
}

#[test]
fn sync_events_are_dispatched() {
    assert!(is_chunk_event(Some("com.fileshare.chunk")));
    assert!(!is_chunk_event(Some("m.room.message")));
    assert!(!is_chunk_event(None));
    let request = FileRequestContent {
        offer_id: "o".to_string(),
        target_user: "@me:s".to_string(),
        target_device: "MINE".to_string(),
        requester_device_id: "THEIRS".to_string(),
    };
    match timeline_action(Some(EVENT_FILE_REQUEST), Some("@them:s"), Some(request.clone()), None, "@me:s", "!r:s") {
        TimelineAction::SendFile { offer_id, recipient, device } => {
            assert_eq!(offer_id, "o");
            assert_eq!(recipient, "@them:s");
            assert_eq!(device, "THEIRS");
        }
        _ => panic!("send expected"),
    }
    assert!(matches!(
        timeline_action(Some(EVENT_FILE_REQUEST), Some("@them:s"), Some(request), None, "@other:s", "!r:s"),
        TimelineAction::Ignore
    ));
    match timeline_action(Some(EVENT_FILE_OFFER), Some("@bob:s"), None, Some(content("o9")), "@me:s", "!r:s") {
        TimelineAction::ShowOffer(d) => {
            assert_eq!(d.offer_id, "o9");
            assert_eq!(d.sender_user_id, "@bob:s");
            assert_eq!(d.room_id, "!r:s");
        }
        _ => panic!("offer expected"),
    }
    assert!(matches!(timeline_action(Some("m.room.message"), None, None, None, "@me:s", "!r:s"), TimelineAction::Ignore));
    let d = offer_data_from_content(content("o5"), "@s:s".to_string(), "!q:s");
    assert_eq!(d.sender_device_id.as_deref(), Some("DEV"));
}

#[test]
fn stale_sessions_fall_back_to_the_password() {
    assert_eq!(restore_next(RestoreEvent::NothingSaved, true), RestoreAction::PasswordLogin { clear_saved: false });
    assert_eq!(restore_next(RestoreEvent::Found, false), RestoreAction::BuildClient);
    assert_eq!(restore_next(RestoreEvent::ClientBuilt, false), RestoreAction::RestoreSession);
    assert_eq!(restore_next(RestoreEvent::Restored, false), RestoreAction::UseSession);
    assert_eq!(restore_next(RestoreEvent::Restored, true), RestoreAction::CheckToken);
    assert_eq!(restore_next(RestoreEvent::TokenAccepted, true), RestoreAction::UseSession);
    for e in [RestoreEvent::ClientFailed, RestoreEvent::RestoreFailed, RestoreEvent::TokenRejected].iter() {
        assert_eq!(restore_next(*e, true), RestoreAction::PasswordLogin { clear_saved: true });
        assert_eq!(restore_next(*e, false), RestoreAction::PasswordLogin { clear_saved: true });
    }
}
