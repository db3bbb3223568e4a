use bt_sniffer::catalog::search::{parse, truncate_display, DISPLAY_TEXT_BYTES, SEARCH_TEXT_BYTES};

#[test]
fn parses_single_and_multi_file_info() {
    let single = parse(b"d6:lengthi42e4:name8:file.txt12:piece lengthi64e6:pieces20:aaaaaaaaaaaaaaaaaaaa7:privatei1ee").unwrap().info;
    assert_eq!(single.name, "file.txt");
    assert_eq!(single.total_length, 42);
    assert_eq!(single.piece_count, 1);
    assert_eq!(single.files[0].path.as_deref(), Some("file.txt"));
    assert_eq!(single.private, Some(true));

    let multi = parse(b"d5:filesld6:lengthi2e4:pathl1:a1:beed6:lengthi3e10:path.utf-8l3:\xe4\xb8\xadeee4:name4:root12:piece lengthi4e6:pieces40:aaaaaaaaaaaaaaaaaaaabbbbbbbbbbbbbbbbbbbbe").unwrap().info;
    assert_eq!(multi.total_length, 5);
    assert_eq!(multi.files.len(), 2);
    assert_eq!(multi.files[0].path.as_deref(), Some("root/a/b"));
    assert_eq!(multi.files[1].path.as_deref(), Some("root/中"));
}

#[test]
fn utf8_precedence_lossy_controls_and_invalid_shapes() {
    let preferred = parse(b"d6:lengthi1e4:name6:legacy10:name.utf-83:new12:piece lengthi1e6:pieces20:aaaaaaaaaaaaaaaaaaaae").unwrap().info;
    assert_eq!(preferred.name, "new");

    let lossy =
        parse(b"d6:lengthi1e4:name2:\xff\n12:piece lengthi1e6:pieces20:aaaaaaaaaaaaaaaaaaaae")
            .unwrap()
            .info;
    assert!(lossy.encoding_lossy);
    assert!(lossy.name.contains("\\u{a}"));

    for invalid in [
        &b"d4:name1:x6:pieces0:e"[..],
        &b"d6:lengthi-1e4:name1:x12:piece lengthi1e6:pieces0:e"[..],
        &b"d6:lengthi1e5:filesle4:name1:x12:piece lengthi1e6:pieces0:e"[..],
        &b"d6:lengthi1e4:name1:x12:piece lengthi0e6:pieces0:e"[..],
    ] {
        assert!(
            parse(invalid).is_none(),
            "{}",
            String::from_utf8_lossy(invalid)
        );
    }
}

#[test]
fn display_values_are_bounded_on_utf8_boundaries() {
    let value = "中".repeat(DISPLAY_TEXT_BYTES);
    let (display, truncated) = truncate_display(&value);
    assert!(truncated);
    assert!(display.len() <= DISPLAY_TEXT_BYTES);
    assert!(display.ends_with('…'));
}

#[test]
fn large_file_list_reports_path_search_truncation_without_partial_paths() {
    const FILES: usize = 50_000;
    let root = "r".repeat(255);
    let expected_prefix = format!("{root}/");
    let mut info = b"d5:filesl".to_vec();
    for index in 0..FILES {
        info.extend_from_slice(format!("d6:lengthi0e4:pathl5:{index:05}ee").as_bytes());
    }
    info.extend_from_slice(b"e4:name255:");
    info.extend_from_slice(root.as_bytes());
    info.extend_from_slice(b"12:piece lengthi1e6:pieces0:e");
    assert!(info.len() < 4 * 1024 * 1024);

    let parsed = parse(&info).unwrap();
    assert_eq!(parsed.info.files.len(), FILES);
    assert!(parsed.search_truncated);
    assert!(parsed.search_text.len() <= SEARCH_TEXT_BYTES);
    assert!(parsed.search_text.lines().all(|path| path == root.as_str()
        || (path.starts_with(&expected_prefix) && path.len() == expected_prefix.len() + 5)));
    assert!(parsed.search_text.lines().count() < FILES + 1);
}
