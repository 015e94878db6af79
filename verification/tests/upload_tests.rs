use mine_autobackup::upload::{
    after_chunk, check_archive_size, chunk_end, chunk_request, content_range, parse_u64,
    rejection_message, upload_metadata, uploaded_from_range, ChunkOutcome, CHUNK_SIZE,
};

fn outcome(o: ChunkOutcome) -> Option<(u64, bool)> {
    match o {
        ChunkOutcome::Continue { uploaded, seek } => Some((uploaded, seek)),
        ChunkOutcome::Rejected => None,
    }
}

#[test]
fn parse_agrees_with_std() {
    let inputs = ["0", "42", "+7", "-7", "+", "", " 1", "1 ", "18446744073709551615", "18446744073709551616", "0001", "99999999999999999999", "12a", "+-1", "١٢"];
    for s in inputs {
        assert_eq!(parse_u64(s), s.parse::<u64>().ok(), "input {:?}", s);
    }
}

#[test]
fn range_header_reading() {
    assert_eq!(uploaded_from_range(Some("bytes=0-1048575")), Some(1048575));
    assert_eq!(uploaded_from_range(Some("bytes=0-")), None);
    assert_eq!(uploaded_from_range(Some("bytes 0-5")), None);
    assert_eq!(uploaded_from_range(Some("bytes=5")), None);
    assert_eq!(uploaded_from_range(Some("bytes=1-2-3")), None);
    assert_eq!(uploaded_from_range(Some("bytes=-+9")), Some(9));
    assert_eq!(uploaded_from_range(None), None);
}

#[test]
fn chunk_ranges() {
    assert_eq!(chunk_end(0, 8 * 1024 * 1024), 8 * 1024 * 1024 - 1);
    assert_eq!(content_range(0, 99, 1000), "bytes 0-99/1000");
    assert_eq!(content_range(100, 199, 200), "bytes 100-199/200");
}

#[test]
fn chunk_answers() {
    assert_eq!(outcome(after_chunk(99, 200, None)), Some((100, false)));
    assert_eq!(outcome(after_chunk(99, 201, Some(3))), Some((100, false)));
    assert_eq!(outcome(after_chunk(99, 308, Some(99))), Some((100, false)));
    assert_eq!(outcome(after_chunk(99, 308, Some(49))), Some((50, true)));
    assert_eq!(outcome(after_chunk(99, 308, None)), Some((100, false)));
    assert_eq!(outcome(after_chunk(99, 400, None)), None);
    assert_eq!(outcome(after_chunk(99, 500, Some(1))), None);
}

#[test]
fn empty_archive_is_refused() {
    assert_eq!(check_archive_size(0), Err("Arquivo de backup vazio".to_string()));
    assert_eq!(check_archive_size(1), Ok(()));
}

#[test]
fn metadata_matches_serde_json() {
    for (name, folder) in [("minecraft-worlds-2024.zip", "abc123"), ("quo\"te\\n\n", "é\u{1}")] {
        let mut map = serde_json::Map::new();
        map.insert("name".to_string(), serde_json::Value::String(name.to_string()));
        map.insert(
            "parents".to_string(),
            serde_json::Value::Array(vec![serde_json::Value::String(folder.to_string())]),
        );
        let expected = serde_json::Value::Object(map).to_string();
        assert_eq!(upload_metadata(name, folder), expected);
    }
}

#[test]
fn metadata_escapes_as_stated() {
    assert_eq!(
        upload_metadata("a\"\u{1}\u{1f}é\\\n", "\u{8}\t\u{c}\r"),
        "{\"name\":\"a\\\"\\u0001\\u001fé\\\\\\n\",\"parents\":[\"\\b\\t\\f\\r\"]}"
    );
}

#[test]
fn metadata_example() {
    assert_eq!(upload_metadata("a.zip", "f1"), "{\"name\":\"a.zip\",\"parents\":[\"f1\"]}");
}

#[test]
fn parse_reads_written_decimals() {
    for n in [0u64, 9, 10, 1048575, u64::MAX] {
        assert_eq!(parse_u64(&mine_autobackup::text::decimal_string(n)), Some(n));
        let header = format!("bytes=0-{}", mine_autobackup::text::decimal_string(n));
        assert_eq!(uploaded_from_range(Some(&header)), Some(n));
    }
}

#[test]
fn chunk_requests() {
    assert_eq!(CHUNK_SIZE, 8 * 1024 * 1024);
    let r = chunk_request(0, CHUNK_SIZE, 10_000_000);
    assert_eq!((r.start, r.end, r.length), (0, 8_388_607, 8_388_608));
    assert_eq!(r.range, "bytes 0-8388607/10000000");
    let r = chunk_request(8_388_608, 1_611_392, 10_000_000);
    assert_eq!((r.start, r.end, r.length), (8_388_608, 9_999_999, 1_611_392));
    assert_eq!(r.range, "bytes 8388608-9999999/10000000");
}

#[test]
fn refused_chunk_message() {
    assert_eq!(
        rejection_message("400 Bad Request", "{\"error\":1}"),
        "Google Drive recusou bloco do upload: 400 Bad Request {\"error\":1}"
    );
    assert_eq!(rejection_message("503 Service Unavailable", ""), "Google Drive recusou bloco do upload: 503 Service Unavailable ");
}

#[test]
fn whole_upload_with_a_partial_answer() {
    // 20 MiB: the second chunk is confirmed only in part and is sent again.
    let n: u64 = 20 * 1024 * 1024;
    let mut uploaded = 0;
    let mut sent = Vec::new();
    let mut partial_done = false;
    while uploaded < n {
        let read = CHUNK_SIZE.min((n - uploaded) as usize);
        let r = chunk_request(uploaded, read, n);
        sent.push(r.range.clone());
        let (status, confirmed) = if r.start == 8_388_608 && !partial_done {
            partial_done = true;
            (308, Some(9_999_999))
        } else {
            (200, None)
        };
        match after_chunk(r.end, status, confirmed) {
            ChunkOutcome::Continue { uploaded: next, .. } => uploaded = next,
            ChunkOutcome::Rejected => panic!("rejected"),
        }
    }
    assert_eq!(uploaded, n);
    assert_eq!(
        sent,
        vec![
            "bytes 0-8388607/20971520".to_string(),
            "bytes 8388608-16777215/20971520".to_string(),
            "bytes 10000000-18388607/20971520".to_string(),
            "bytes 18388608-20971519/20971520".to_string(),
        ]
    );
}
