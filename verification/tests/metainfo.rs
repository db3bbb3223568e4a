use bt_sniffer::bencode::parse_number;
use bt_sniffer::catalog::filing::{
    check_filing, prepare_filing, resolve_rows, FoundRow, Resolution, Verification,
};
use bt_sniffer::catalog::requests::{
    backfill_step, check_stored, files_request, index_state, judge_entry, page_request,
    parse_file_cursor, stored_identity, BackfillAction, BackfillStep,
};
use bt_sniffer::catalog::rows::{file_page, CatalogRow, TorrentDetail};
use bt_sniffer::catalog::search::parse;
use bt_sniffer::inspection::ReadError;
use bt_sniffer::jobs::model::StoreError;
use bt_sniffer::metainfo::analysis::{analyze, MAX_BYTES};
use bt_sniffer::metainfo::files::FileKind;
use bt_sniffer::metainfo::identity::{
    identities, is_v2, match_identity, InfoHashV1, InfoHashV2, SwarmKey, TorrentIdentity,
};
use bt_sniffer::reason::Reason;
use bt_sniffer::text::{display, display_path, escape, hex};
use sha1::{Digest, Sha1};
use sha2::Sha256;

const PIECES: &str = "6:pieces20:aaaaaaaaaaaaaaaaaaaa";
const ROOT: &str = "11:pieces root32:bbbbbbbbbbbbbbbbbbbbbbbbbbbbbbbb";

fn v2(tree: &str) -> String {
    format!("d9:file treed{tree}e12:meta versioni2e4:name1:r12:piece lengthi16384ee")
}

fn hybrid(tree: &str) -> String {
    format!(
        "d9:file treed{tree}e6:lengthi1e12:meta versioni2e4:name5:a.txt12:piece lengthi16384e{PIECES}e"
    )
}

fn leaf(length: u64) -> String {
    format!("5:a.txtd0:d6:lengthi{length}e{ROOT}ee")
}

fn v1(files: &str) -> String {
    format!("d5:filesl{files}e4:name1:r12:piece lengthi16384e{PIECES}e")
}

fn sha1_of(info: &[u8]) -> [u8; 20] {
    Sha1::digest(info).into()
}

fn sha256_of(info: &[u8]) -> [u8; 32] {
    Sha256::digest(info).into()
}

#[test]
fn source_matching_and_hybrid_aliases_are_distinct() {
    for (info, aliases) in [
        (v2(&leaf(1)), 1),
        (hybrid(&leaf(1)), 2),
        (hybrid(&leaf(2)), 1),
    ] {
        let info = info.as_bytes();
        let source = TorrentIdentity::V2(InfoHashV2(sha256_of(info)));
        assert_eq!(match_identity(info, source.swarm_key()), Some(source));
        assert_eq!(match_identity(info, SwarmKey([0; 20])), None);
        let first = TorrentIdentity::V1(InfoHashV1(sha1_of(info)));
        assert_eq!(match_identity(info, first.swarm_key()), Some(first));
        let analysis = analyze(info);
        let all = identities(info, source, &analysis);
        assert_eq!(all.len(), aliases);
        assert_eq!(
            aliases == 2,
            analysis.format.label() == "hybrid" && analysis.status.label() == "valid"
        );
        if aliases == 2 {
            assert_eq!(all, vec![first, source]);
        }
        assert!(is_v2(info));
    }
    let plain = v1("d6:lengthi1e4:pathl1:aee");
    assert!(!is_v2(plain.as_bytes()));
    let truncated = SwarmKey(sha256_of(plain.as_bytes())[..20].try_into().unwrap());
    assert_eq!(match_identity(plain.as_bytes(), truncated), None);
}

#[test]
fn padding_stats_and_stable_order() {
    let info = v1(concat_files(&[
        "d4:attr2:hx6:lengthi1e4:pathl1:aee",
        "d4:attr1:p6:lengthi16383ee",
        "d4:attr1:l4:pathl1:le12:symlink pathl1:aee",
    ])
    .as_str());
    let parsed = analyze(info.as_bytes()).parsed.unwrap();
    assert_eq!(
        (
            parsed.total_length,
            parsed.piece_space_length,
            parsed.padding_length,
            parsed.file_count
        ),
        (1, 16384, 16383, 2)
    );
    assert_eq!(parsed.files[1].path, None);
    assert_eq!(parsed.files[2].kind, FileKind::Symlink);
    assert_eq!(parsed.files[2].kind.label(), "symlink");
    assert!(parsed.files[0].hidden && parsed.files[0].executable);
    assert_eq!(
        analyze(&vec![0; MAX_BYTES + 1])
            .reason
            .map(|reason| reason.label()),
        Some("metadata_size")
    );
    let nested = [b"d1:a".as_slice(), &[b'l'; 65], &[b'e'; 66]].concat();
    assert_eq!(analyze(&nested).status.label(), "invalid");
}

fn concat_files(files: &[&str]) -> String {
    files.concat()
}

#[test]
fn empty_directories_do_not_contribute_files_or_piece_space() {
    for info in [
        v2(&format!("{}5:emptyde", leaf(1))),
        hybrid(&format!("{}5:emptyde", leaf(1))),
    ] {
        let parsed = analyze(info.as_bytes()).parsed.unwrap();
        assert_eq!(parsed.file_count, 1);
        assert_eq!(parsed.total_length, 1);
        assert_eq!(parsed.piece_space_length, 1);
        assert_eq!(parsed.piece_count, 1);
    }
    assert_eq!(
        analyze(b"d9:file treed5:emptydee12:meta versioni2e12:piece lengthi16384ee")
            .reason
            .map(|reason| reason.label()),
        Some("empty_file_tree")
    );
    let conflict = v2(&format!("1:ad0:d6:lengthi0ee1:bd0:d6:lengthi1e{ROOT}eee"));
    assert_eq!(
        analyze(conflict.as_bytes())
            .reason
            .map(|reason| reason.label()),
        Some("file_tree_conflict")
    );
}

#[test]
fn each_rule_has_its_reason() {
    let file = "d6:lengthi1e4:pathl1:aee";
    let many = format!("l{}e", "i0e".repeat(800_000));
    let huge = format!(
        "{}{}{}",
        "d6:lengthi9223372036854775807e4:pathl1:aee",
        "d6:lengthi9223372036854775807e4:pathl1:bee",
        "d6:lengthi9223372036854775807e4:pathl1:cee"
    );
    for (info, reason) in [
        (String::new(), Reason::MetadataSize),
        (many, Reason::SemanticCapacity),
        ("d1:ai99999999999999999999ee".into(), Reason::IntegerRange),
        ("d1:a".into(), Reason::InvalidBencode),
        ("d1:bi1e1:ai1ee".into(), Reason::InvalidBencode),
        ("dede".into(), Reason::TrailingData),
        ("i1e".into(), Reason::DictionaryType),
        ("d4:namei1ee".into(), Reason::BytesType),
        ("d12:meta version1:xe".into(), Reason::IntegerType),
        ("de".into(), Reason::MissingField),
        ("d12:piece lengthi-1ee".into(), Reason::NegativeLength),
        ("d12:piece lengthi0ee".into(), Reason::PieceLength),
        (
            "d12:meta versioni2e12:piece lengthi16385ee".into(),
            Reason::PieceLength,
        ),
        (
            "d12:meta versioni3ee".into(),
            Reason::UnsupportedMetaVersion,
        ),
        (
            "d12:piece lengthi1e7:privatei2ee".into(),
            Reason::PrivateFlag,
        ),
        (v1("d6:lengthi1e4:path1:ae"), Reason::PathType),
        (v1("d6:lengthi1e4:pathlee"), Reason::EmptyPath),
        (v1("d6:lengthi1e4:pathl2:..ee"), Reason::InvalidPath),
        (v1("d6:lengthi1ee"), Reason::MissingPath),
        (v1(""), Reason::FileLayout),
        (v1(&huge), Reason::LengthOverflow),
        (
            v1("d6:lengthi1e4:pathl1:a1:beed6:lengthi1e4:pathl1:aee"),
            Reason::PathConflict,
        ),
        (
            v1("d4:attr1:l4:pathl1:le12:symlink pathl1:zeed6:lengthi1e4:pathl1:aee"),
            Reason::DanglingSymlink,
        ),
        (
            v1("d4:attr2:lp6:lengthi0e4:pathl1:aee"),
            Reason::FileAttributes,
        ),
        (
            v1("d4:attr1:l6:lengthi1e4:pathl1:ae12:symlink pathl1:aee"),
            Reason::SymlinkLength,
        ),
        (
            v1("d6:lengthi1e4:pathl1:ae4:sha11:xe"),
            Reason::FileSha1Length,
        ),
        (
            format!("d5:filesl{file}e4:name1:r12:piece lengthi1e6:pieces1:ae"),
            Reason::PieceCount,
        ),
        (
            v2("5:a.txtd0:d4:attr1:p6:lengthi0eee"),
            Reason::V2PaddingFile,
        ),
        (v2("5:a.txtd0:d6:lengthi1eee"), Reason::PiecesRoot),
        (hybrid(&leaf(2)), Reason::HybridLayout),
    ] {
        let analysis = analyze(info.as_bytes());
        let shown = &info[..info.len().min(80)];
        assert_eq!(analysis.reason, Some(reason), "{shown}");
        assert!(analysis.parsed.is_none());
        assert_eq!(
            analysis.status.label(),
            if reason == Reason::UnsupportedMetaVersion {
                "unsupported"
            } else {
                "invalid"
            }
        );
    }
}

#[test]
fn valid_dictionaries_add_up() {
    let info = v1("d6:lengthi7e4:pathl1:b1:ceed6:lengthi5e4:pathl1:aee");
    let parsed = analyze(info.as_bytes()).parsed.unwrap();
    assert_eq!(parsed.total_length, 12);
    assert_eq!(parsed.piece_space_length, 12);
    assert_eq!(parsed.piece_count, 1);
    // The order of the list is kept.
    assert_eq!(parsed.files[0].path.as_deref(), Some("r/b/c"));
    let tree = v2(&format!(
        "1:ad0:d6:lengthi1e{ROOT}ee1:bd0:d6:lengthi16385e{ROOT}ee"
    ));
    let parsed = analyze(tree.as_bytes()).parsed.unwrap();
    assert_eq!(
        (
            parsed.total_length,
            parsed.piece_space_length,
            parsed.piece_count
        ),
        (16386, 16384 + 16385, 3)
    );
    assert_eq!(parse_number("-9223372036854775808"), Some(i64::MIN));
    assert_eq!(parse_number("9223372036854775808"), None);
}

#[test]
fn shown_text_is_readable() {
    assert_eq!(hex(&[0, 10, 255]), "000aff");
    assert_eq!(display("中".as_bytes()), ("中".to_string(), false));
    let (shown, lossy) = display(b"\xff\n");
    assert!(lossy);
    assert_eq!(shown, "\u{fffd}\\u{a}");
    assert_eq!(
        display_path(&[b"a".to_vec(), b"b".to_vec()]),
        ("a/b".to_string(), false)
    );
    assert!(display_path(&[b"a".to_vec(), b"\xff".to_vec()]).1);
    for plain in ["", "a b", "中文 é\\u{a}", "\u{a0}~ "] {
        assert_eq!(escape(plain), plain);
        assert_eq!(display(plain.as_bytes()), (plain.to_string(), false));
    }
    assert_eq!(
        escape("a\0b\u{7f}\u{9f}\r"),
        "a\\u{0}b\\u{7f}\\u{9f}\\u{d}"
    );
    assert_eq!(display(b"x\ty"), ("x\\u{9}y".to_string(), false));
}

#[test]
fn filing_names_how_each_swarm_is_known() {
    let info = hybrid(&leaf(1));
    let info = info.as_bytes();
    let first = SwarmKey(sha1_of(info));
    let second = SwarmKey(sha256_of(info)[..20].try_into().unwrap());
    for (key, labels) in [
        (first, ["v1_full", "hybrid_derived"]),
        (second, ["hybrid_derived", "v2_prefix"]),
    ] {
        let filed = prepare_filing(info, key).unwrap();
        assert_eq!(filed.len(), 2);
        assert_eq!(filed[0].swarm, first);
        assert_eq!(filed[1].swarm, second);
        for (entry, label) in filed.iter().zip(labels) {
            assert_eq!(entry.verification.label(), label);
            assert_eq!(entry.supersedes, entry.swarm != key);
        }
    }
    let mismatch = hybrid(&leaf(2));
    let filed = prepare_filing(
        mismatch.as_bytes(),
        SwarmKey(sha1_of(mismatch.as_bytes())),
    )
    .unwrap();
    assert_eq!(filed.len(), 1);
    assert_eq!(
        Verification::V1Full.merge(Verification::HybridDerived),
        Verification::V1Full
    );
    assert_eq!(
        Verification::HybridDerived.merge(Verification::V2Prefix),
        Verification::V2Prefix
    );
}

#[test]
fn filing_refuses_what_is_no_dictionary() {
    let key = |info: &[u8]| SwarmKey(sha1_of(info));
    assert_eq!(
        prepare_filing(b"", key(b"")),
        Err(StoreError::MetadataSize)
    );
    assert_eq!(
        prepare_filing(b"de", key(b"le")),
        Err(StoreError::Conflict)
    );
    assert_eq!(
        prepare_filing(b"le", key(b"le")),
        Err(StoreError::MetadataDictionary)
    );
    assert_eq!(
        prepare_filing(b"dede", key(b"dede")),
        Err(StoreError::MetadataTrailing)
    );
    assert!(prepare_filing(b"de", key(b"de")).is_ok());
    assert_eq!(
        check_filing(MAX_BYTES + 1, true, &[]),
        Some(StoreError::MetadataSize)
    );
}

#[test]
fn identical_rows_merge_and_others_conflict() {
    let row = |id, same| Some(FoundRow { id, same });
    assert_eq!(
        resolve_rows(&vec![None, None]),
        Ok(Resolution {
            keep: None,
            merged: vec![]
        })
    );
    assert_eq!(
        resolve_rows(&vec![row(1, true), row(2, true)]),
        Ok(Resolution {
            keep: Some(1),
            merged: vec![2]
        })
    );
    assert_eq!(
        resolve_rows(&vec![row(4, true), row(4, true)]),
        Ok(Resolution {
            keep: Some(4),
            merged: vec![]
        })
    );
    assert_eq!(
        resolve_rows(&vec![row(1, true), row(2, false)]),
        Err(StoreError::Conflict)
    );
}

#[test]
fn stored_bytes_are_checked_before_they_are_shown() {
    let info = hybrid(&leaf(1));
    let info = info.as_bytes();
    let first = stored_identity(&sha1_of(info)).unwrap();
    let second = stored_identity(&sha256_of(info)).unwrap();
    assert!(check_stored(info, first).is_ok());
    assert!(check_stored(info, second).is_ok());
    assert_eq!(check_stored(b"de", first), Err(ReadError::Unavailable));
    assert_eq!(stored_identity(&[0; 21]), Err(ReadError::Unavailable));
    assert_eq!(judge_entry(info, first), BackfillAction::Refile);
    assert_eq!(judge_entry(info, second), BackfillAction::Refile);
    assert_eq!(judge_entry(b"de", second), BackfillAction::Placeholder);
    let dictionaries = b"dede";
    let odd = stored_identity(&sha1_of(dictionaries)).unwrap();
    assert_eq!(
        check_stored(dictionaries, odd),
        Err(ReadError::Unavailable)
    );
}

#[test]
fn page_zero_and_limit_bounds_are_rejected() {
    for (page, limit) in [(0_usize, 50_usize), (1, 0), (1, 101)] {
        assert!(
            matches!(page_request(None, page, limit), Err(ReadError::Invalid)),
            "{page}/{limit}"
        );
    }
}

#[test]
fn invalid_queries_and_unavailable_metadata_are_distinct() {
    assert!(matches!(
        page_request(Some("ab"), 1, 50),
        Err(ReadError::Invalid)
    ));
    let analysis = analyze(b"de");
    assert_eq!(TorrentDetail::new(&analysis).parse_status, "unavailable");
    let page = file_page(None, 0, 100).unwrap();
    assert!(!page.available);
    let request = page_request(Some("one"), 9, 50).unwrap();
    assert_eq!((request.limit, request.offset, request.page), (50, 400, 9));
    assert_eq!(request.phrase.as_deref(), Some("\"one\""));
    assert_eq!(
        page_request(None, usize::MAX, 100).unwrap().offset,
        i64::MAX
    );
}

#[test]
fn file_pages_join_by_their_cursor() {
    let info = v1("d6:lengthi2e4:pathl6:folder9:movie.mkveed6:lengthi3e4:pathl9:notes.txtee");
    let analysis = analyze(info.as_bytes());
    let parsed = analysis.parsed.as_ref();
    let first = file_page(parsed, files_request(None, 1).unwrap(), 1).unwrap();
    assert_eq!(
        first.items[0].path.as_deref(),
        Some("r/folder/movie.mkv")
    );
    let next = first.next.unwrap();
    assert_eq!(next, "0000000000000001");
    let second = file_page(parsed, files_request(Some(&next), 1).unwrap(), 1).unwrap();
    assert_eq!(second.items[0].path.as_deref(), Some("r/notes.txt"));
    assert_eq!(second.next, None);
    for cursor in ["1", "000000000000000g", "00000000000000001"] {
        assert_eq!(parse_file_cursor(cursor), Err(ReadError::Invalid));
    }
    let detail = TorrentDetail::new(&analysis);
    assert_eq!(detail.total_length.as_deref(), Some("5"));
    assert_eq!(detail.file_count, Some(2));
    let row = CatalogRow::new(parse(info.as_bytes()));
    assert_eq!(row.parse_status, "parsed");
    assert_eq!(row.file_count, Some(2));
    assert!(row.search_text.contains("folder/movie.mkv"));
    assert!(!row.search_incomplete);
    let placeholder = CatalogRow::new(None);
    assert_eq!(placeholder.parse_status, "unavailable");
    assert!(placeholder.search_incomplete);
}

#[test]
fn the_backfill_is_complete_only_once_nothing_is_found() {
    let done = index_state(2, 2, 0);
    assert!(done.complete && done.search_complete);
    let behind = index_state(1, 2, 0);
    assert!(!behind.complete);
    assert_eq!(
        backfill_step(None, Some(7), done),
        BackfillStep {
            cursor: Some(7),
            complete: false
        }
    );
    assert_eq!(
        backfill_step(Some(7), None, done),
        BackfillStep {
            cursor: Some(7),
            complete: true
        }
    );
    assert!(!backfill_step(Some(7), None, behind).complete);
    assert!(!index_state(2, 2, 1).search_complete);
}
