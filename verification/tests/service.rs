use bt_sniffer::acceptance::{
    file_digest, source_digest, AlreadyAttempted, FinishOutcome, Phase, Report, SourceFile,
};
use bt_sniffer::backpressure::Mode;
use bt_sniffer::bootstrap::{
    resolve_addresses, retry_delay, QueryEnd, Resolved, Round, RoundState, Search,
};
use bt_sniffer::config::{
    bootstrap_address, effective_backpressure, instance_name, listen, monitor_address, policy,
    seeds, ConfigError,
};
use bt_sniffer::endpoint::{Endpoint, Family};
use bt_sniffer::jobs::backfill::AddressPolicy;
use bt_sniffer::logging::{read_filter, FilterSetting, QueueDiagnostics, DEFAULT_FILTER};
use bt_sniffer::sockets::{
    ipv6_unavailable, BindError, BindErrorKind, BindFailure, BindRequest, System,
};
use std::time::Duration;

fn nanos(duration: Duration) -> u64 {
    duration.as_nanos() as u64
}

fn v4(port: u16) -> Endpoint {
    Endpoint {
        family: Family::V4,
        ip: 0x7f00_0001,
        port,
        flow: 0,
        scope: 0,
    }
}

fn v6(port: u16) -> Endpoint {
    Endpoint {
        family: Family::V6,
        ip: 1,
        port,
        flow: 0,
        scope: 0,
    }
}

fn delay(base: Duration, jitter: u32) -> Duration {
    Duration::from_nanos(retry_delay(base.as_millis() as u32, jitter))
}

#[test]
fn jitter_has_floor_and_ceiling() {
    assert_eq!(
        delay(Duration::from_secs(60), 0),
        Duration::from_secs(60)
    );
    assert_eq!(
        delay(Duration::from_secs(60), 200),
        Duration::from_secs(72)
    );
    assert_eq!(
        delay(Duration::from_secs(900), 200),
        Duration::from_secs(900)
    );
}

#[test]
fn jitter_agrees_with_a_scaled_duration() {
    let jitters = (0..=200).chain([333, 999, 1001, 14_999, 1_000_003, u32::MAX]);
    for jitter in jitters {
        for base in [
            0, 1, 3, 7, 999, 1000, 12_345, 60_000, 77_777, 120_000, 240_000, 480_000, 750_001,
            899_999, 900_000, 900_001, u32::MAX,
        ] {
            let base = Duration::from_millis(u64::from(base));
            let scaled =
                (base + base.mul_f64(f64::from(jitter) / 1000.0)).min(Duration::from_secs(900));
            assert_eq!(delay(base, jitter), scaled);
        }
    }
}

#[test]
fn a_failing_search_backs_off_and_a_neighbour_resets_it() {
    let (mut search, wait) = Search::begin(true);
    assert_eq!(wait, nanos(Duration::from_secs(10)));
    let mut waits = Vec::new();
    for _ in 0..6 {
        assert_eq!(search.rests(0), None);
        waits.push(search.finish_round(Round::Failed, 0));
    }
    assert_eq!(
        waits,
        [60, 120, 240, 480, 900, 900].map(|s| nanos(Duration::from_secs(s)))
    );
    assert_eq!(
        search.finish_round(Round::Busy, 0),
        nanos(Duration::from_secs(1))
    );
    assert_eq!(
        search.finish_round(Round::Failed, 0),
        nanos(Duration::from_secs(900))
    );
    assert_eq!(search.rests(1), Some(nanos(Duration::from_secs(60))));
    assert_eq!(
        search.finish_round(Round::Failed, 200),
        nanos(Duration::from_secs(72))
    );
    assert_eq!(
        search.finish_round(Round::Connected, 0),
        nanos(Duration::from_secs(60))
    );
    assert_eq!(Search::begin(false).1, 0);
}

#[test]
fn resolver_filters_deduplicates_and_limits_addresses() {
    let public = |port| Endpoint {
        ip: 0x0808_0808,
        ..v4(port)
    };
    let far = Endpoint {
        ip: 0x2606_4700_0000_0000_0000_0000_0000_1111,
        ..v6(1)
    };
    let found = |endpoint, allowed| Resolved { endpoint, allowed };
    let mut resolved = vec![
        found(v4(1), false),
        found(far, true),
        found(public(0), false),
    ];
    for port in 1..=10 {
        resolved.push(found(public(port), true));
        resolved.push(found(public(port), true));
    }
    let mut chosen = Vec::new();
    assert!(resolve_addresses(&mut chosen, &resolved, Family::V4));
    assert_eq!(chosen, (1..=8).map(public).collect::<Vec<_>>());
    let mut chosen = Vec::new();
    assert!(!resolve_addresses(&mut chosen, &resolved, Family::V6));
    assert_eq!(chosen, vec![far]);
}

#[test]
fn a_round_asks_two_at_once_and_stops_at_the_first_answer() {
    let mut round = RoundState::new(4);
    assert!(!round.over());
    assert_eq!(round.send(), 0);
    assert_eq!(round.send(), 1);
    assert!(!round.can_send());
    assert!(round.finish(QueryEnd::Unanswered));
    assert_eq!(round.send(), 2);
    assert!(round.finish(QueryEnd::Answered));
    assert!(!round.can_send() && !round.over());
    assert!(round.finish(QueryEnd::AtCapacity));
    assert!(round.over());
    assert_eq!(round.result(), Round::Connected);

    let mut busy = RoundState::new(1);
    busy.send();
    busy.finish(QueryEnd::AtCapacity);
    assert!(busy.over());
    assert_eq!(busy.result(), Round::Busy);
    let mut closing = RoundState::new(1);
    closing.send();
    assert!(!closing.finish(QueryEnd::Closing));
    assert!(RoundState::new(0).over());
    assert_eq!(RoundState::new(0).result(), Round::Failed);
}

#[test]
fn ipv6_fallback_does_not_hide_configuration_errors() {
    for kind in [
        BindErrorKind::PermissionDenied,
        BindErrorKind::AddrInUse,
        BindErrorKind::InvalidInput,
    ] {
        assert!(!ipv6_unavailable(
            BindError { kind, code: None },
            System::Linux
        ));
    }
    assert!(ipv6_unavailable(
        BindError {
            kind: BindErrorKind::AddrNotAvailable,
            code: None
        },
        System::Linux
    ));
}

#[test]
fn only_a_default_listener_may_lack_ipv6() {
    let unsupported = BindError {
        kind: BindErrorKind::Other,
        code: Some(97),
    };
    for (system, code, expected) in [
        (System::Linux, 93, true),
        (System::Linux, 43, false),
        (System::Bsd, 47, true),
        (System::Windows, 10047, true),
        (System::Other, 97, false),
    ] {
        let error = BindError {
            kind: BindErrorKind::Other,
            code: Some(code),
        };
        assert_eq!(ipv6_unavailable(error, system), expected);
    }
    let request = |ipv6_only, listens_v6| BindRequest {
        ipv4_only: false,
        ipv6_only,
        listens_v6,
    };
    assert_eq!(
        request(false, false).v6_failure(unsupported, System::Linux),
        BindFailure::ContinueIpv4
    );
    for explicit in [request(true, false), request(false, true)] {
        assert_eq!(
            explicit.v6_failure(unsupported, System::Linux),
            BindFailure::Fail
        );
    }
    assert!(!request(true, false).binds_v4() && request(true, false).binds_v6());
}

#[test]
fn names_and_addresses_are_checked_before_anything_is_opened() {
    assert_eq!(instance_name("main").unwrap(), "main");
    assert_eq!(instance_name(""), Err(ConfigError::InstanceName));
    assert!(instance_name(&"中".repeat(42)).is_ok());
    assert_eq!(
        instance_name(&"中".repeat(43)),
        Err(ConfigError::InstanceName)
    );
    assert_eq!(listen(v4(1), Family::V4), Ok(v4(1)));
    assert_eq!(
        listen(v6(1), Family::V4),
        Err(ConfigError::ListenFamily)
    );
    assert_eq!(monitor_address(v6(80)), Ok(v6(80)));
    let other = Endpoint {
        ip: 0x0a00_0001,
        ..v4(80)
    };
    assert_eq!(monitor_address(other), Err(ConfigError::NotLoopback));
    for (value, socket, expected) in [
        ("localhost:1234", false, None),
        ("127.0.0.1:80", true, None),
        ("host:+80", false, None),
        ("host:00080", false, None),
        ("host", false, Some(ConfigError::MissingPort)),
        ("host:", false, Some(ConfigError::InvalidPort)),
        ("host:+", false, Some(ConfigError::InvalidPort)),
        ("host:65536", false, Some(ConfigError::InvalidPort)),
        ("host:-1", false, Some(ConfigError::InvalidPort)),
        ("host:0", false, Some(ConfigError::EmptyHost)),
        (":80", false, Some(ConfigError::EmptyHost)),
        ("ho st:80", false, Some(ConfigError::EmptyHost)),
        ("::1:1", false, Some(ConfigError::Unbracketed)),
        ("[::1]:1", true, None),
    ] {
        let result = bootstrap_address(value, socket);
        match expected {
            None => assert_eq!(result.unwrap(), value),
            Some(error) => assert_eq!(result, Err(error), "{value}"),
        }
    }
    assert_eq!(ConfigError::InvalidPort.message(), "无效引导端口");
}

#[test]
fn given_neighbours_replace_the_built_in_ones() {
    assert_eq!(
        seeds(false, vec![]),
        vec![
            "dht.libtorrent.org:25401",
            "router.bittorrent.com:6881",
            "dht.transmissionbt.com:6881",
        ]
    );
    assert_eq!(
        seeds(false, vec!["localhost:1234".to_string()]),
        vec!["localhost:1234"]
    );
    assert!(seeds(true, vec![]).is_empty());
    assert_eq!(policy(true), AddressPolicy::LocalUnicast);
    assert_eq!(policy(false), AddressPolicy::PublicOnly);
    assert_eq!(
        effective_backpressure(true, true, Mode::Freshness),
        Mode::Freshness
    );
    assert_eq!(
        effective_backpressure(true, false, Mode::Freshness),
        Mode::Capacity
    );
}

#[test]
fn queue_reports_tell_what_was_lost_since_the_last() {
    let mut diagnostics = QueueDiagnostics::new();
    let (file, stderr) = diagnostics.report(3, 0);
    assert_eq!(
        (file.dropped_total, file.dropped_since_last_report, file.warning),
        (3, 3, true)
    );
    assert!(!stderr.warning);
    let (file, stderr) = diagnostics.report(3, 2);
    assert_eq!((file.dropped_since_last_report, file.warning), (0, false));
    assert_eq!(stderr.dropped_since_last_report, 2);
    assert_eq!(
        read_filter(FilterSetting::Missing).unwrap(),
        DEFAULT_FILTER
    );
    assert_eq!(
        read_filter(FilterSetting::Text(String::new())).unwrap(),
        DEFAULT_FILTER
    );
    assert_eq!(
        read_filter(FilterSetting::Text("debug".into())).unwrap(),
        "debug"
    );
    assert_eq!(read_filter(FilterSetting::NotUnicode), None);
}

#[test]
fn a_report_says_passed_only_where_its_end_does() {
    let mut report = Report::new();
    assert_eq!(report.status, FinishOutcome::EnvironmentBlocked);
    assert!(report.ensure_mutable().is_ok());
    report.running().unwrap();
    assert_eq!(report.status, FinishOutcome::Failed);
    report.finish(FinishOutcome::Aborted).unwrap();
    assert_eq!(report.finish(FinishOutcome::Passed), Err(AlreadyAttempted));
    assert_eq!(report.running(), Err(AlreadyAttempted));
    assert!(report.ensure_mutable().is_err());
    assert!(!report.give_up());
    assert_eq!(report.status.label(), "aborted");
    assert_eq!(report.phase, Phase::Attempted);

    let mut preparing = Report::new();
    assert!(preparing.give_up());
    assert_eq!(preparing.status, FinishOutcome::EnvironmentBlocked);
    assert!(preparing.fallback);
    let mut running = Report::new();
    running.running().unwrap();
    assert!(running.give_up());
    assert_eq!(running.status, FinishOutcome::Failed);
    for (completed, passed, label) in [
        (false, true, "aborted"),
        (true, true, "passed"),
        (true, false, "failed"),
    ] {
        assert_eq!(FinishOutcome::of_run(completed, passed).label(), label);
    }
}

fn source(path: &str, content: &[u8]) -> SourceFile {
    SourceFile {
        parts: path.split('/').map(|part| part.as_bytes().to_vec()).collect(),
        path: path.into(),
        digest: file_digest(content),
    }
}

#[test]
fn the_manifest_is_in_the_order_of_the_parts_of_paths() {
    let paths = ["src/a.rs", "src/a-b/c.rs", "src/a/z.rs", ".cargo/config.toml", "src/b.rs"];
    let files = paths.iter().map(|path| source(path, b"")).collect();
    let (digest, manifest) = source_digest(files);
    let listed: Vec<&str> = manifest
        .lines()
        .map(|line| line.split("  ").nth(1).unwrap())
        .collect();
    assert_eq!(
        listed,
        [".cargo/config.toml", "src/a/z.rs", "src/a-b/c.rs", "src/a.rs", "src/b.rs"]
    );
    let reversed = paths.iter().rev().map(|path| source(path, b"")).collect();
    assert_eq!(source_digest(reversed), (digest, manifest));
}

#[test]
fn the_manifest_lists_digests_and_paths() {
    let empty = "e3b0c44298fc1c149afbf4c8996fb92427ae41e4649b934ca495991b7852b855";
    let (digest, manifest) = source_digest(vec![]);
    assert_eq!(digest, empty);
    assert_eq!(manifest, "");
    let files = vec![
        source("src/main.rs", b"abc"),
        source("Cargo.toml", b""),
    ];
    let (digest, manifest) = source_digest(files);
    assert_eq!(
        manifest,
        format!(
            "{empty}  Cargo.toml\nba7816bf8f01cfea414140de5dae2223b00361a396177a9cb410ff61f20015ad  src/main.rs\n"
        )
    );
    assert_eq!(digest.len(), 64);
    assert_ne!(digest, source_digest(vec![]).0);
}
