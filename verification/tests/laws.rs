use base64::Engine;
use matrix_fileshare::cli::fix_room_id;
use matrix_fileshare::matrix_client::normalize_homeserver;
use matrix_fileshare::paths::{file_name_of, join_path};
use matrix_fileshare::transfer::{build_chunk, chunk_count, CHUNK_SIZE};

fn patterned_file(len: usize) -> Vec<u8> {
    (0..len).map(|i| ((i * 131 + 17) % 256) as u8).collect()
}

#[test]
fn sent_chunks_put_back_give_the_file() {
    for &len in [1usize, 100, CHUNK_SIZE - 1, CHUNK_SIZE, CHUNK_SIZE + 1, 3 * CHUNK_SIZE + 5].iter() {
        let file = patterned_file(len);
        let n = chunk_count(len);
        let mut joined = Vec::new();
        for i in 0..n {
            let chunk = build_chunk("o", &file, i, n);
            let bytes = base64::engine::general_purpose::STANDARD.decode(&chunk.data).unwrap();
            assert!(!bytes.is_empty() && bytes.len() <= CHUNK_SIZE);
            joined.extend_from_slice(&bytes);
        }
        assert_eq!(joined, file, "length {}", len);
    }
}

#[test]
fn fixing_a_room_id_twice_changes_nothing() {
    for id in ["abc", "!abc", "\\!abc", "", "\\", "\\\\!x"].iter() {
        let once = fix_room_id(id);
        assert_eq!(fix_room_id(&once), once);
    }
}

#[test]
fn normalizing_a_homeserver_twice_changes_nothing() {
    for hs in ["matrix.org", "http://a", "https://b", "httpfoo"].iter() {
        let once = normalize_homeserver(hs);
        assert_eq!(normalize_homeserver(&once), once);
    }
}

#[test]
fn a_joined_plain_name_is_the_file_name() {
    assert_eq!(file_name_of('/', &join_path('/', "a/b", "c.txt")), Some("c.txt".to_string()));
    assert_eq!(file_name_of('/', &join_path('/', "a/b/", "c.txt")), Some("c.txt".to_string()));
    assert_eq!(file_name_of('/', &join_path('/', "", "..x")), Some("..x".to_string()));
}
