use bt_sniffer::inspection::JobState;
use bt_sniffer::jobs::backfill::{recent_start, RECENT_PAGE_SQL};
use bt_sniffer::jobs::claim::schedule_sql;
use bt_sniffer::jobs::model::{ClaimClass, JobRow, PEER_HINT_TTL_MS, RECENT_MS};
use bt_sniffer::jobs::schedule::{find_due, Candidate};
use bt_sniffer::metainfo::identity::InfoHashV1;
use rusqlite::functions::FunctionFlags;
use rusqlite::{Connection, OptionalExtension};

const SCHEMA: &str = "
    CREATE TABLE infohashes(hash BLOB PRIMARY KEY, first_seen INTEGER NOT NULL) WITHOUT ROWID;
    CREATE INDEX infohashes_first_seen ON infohashes(first_seen, hash);
    CREATE TABLE fetch_jobs(
        hash BLOB PRIMARY KEY, state TEXT NOT NULL, attempts INTEGER NOT NULL,
        generation INTEGER NOT NULL, due_at INTEGER NOT NULL) WITHOUT ROWID;
    CREATE INDEX fetch_claim_due ON fetch_jobs(due_at, hash)
        WHERE state IN ('pending', 'retry_wait');
    CREATE INDEX fetch_retry_due ON fetch_jobs(due_at, hash)
        WHERE state IN ('pending', 'retry_wait') AND generation > 0;
    CREATE TABLE peer_hints(
        hash BLOB NOT NULL, ip BLOB NOT NULL, port INTEGER NOT NULL,
        observed_at INTEGER NOT NULL, PRIMARY KEY(hash, ip, port)) WITHOUT ROWID;";

fn connection() -> Connection {
    let connection = Connection::open_in_memory().unwrap();
    connection.execute_batch(SCHEMA).unwrap();
    connection
        .create_scalar_function(
            "legal_peer",
            2,
            FunctionFlags::SQLITE_DETERMINISTIC | FunctionFlags::SQLITE_UTF8,
            |context| Ok(context.get::<u16>(1)? != 0),
        )
        .unwrap();
    connection
}

fn insert(connection: &Connection, job: &Candidate, now: i64) {
    let hash = job.hash.0.as_slice();
    connection
        .execute(
            "INSERT INTO infohashes VALUES(?1, ?2)",
            (hash, job.first_seen),
        )
        .unwrap();
    connection
        .execute(
            "INSERT INTO fetch_jobs VALUES(?1, ?2, 0, ?3, ?4)",
            (
                hash,
                job.row.state.label(),
                job.row.generation,
                job.row.due_at
            ),
        )
        .unwrap();
    // An address that has run out, and one that may not be used, count for nothing.
    for (port, at) in [
        (1, now - PEER_HINT_TTL_MS - 1),
        (0, now),
        (2, if job.hinted { now } else { 0 }),
    ] {
        connection
            .execute(
                "INSERT INTO peer_hints VALUES(?1, X'7f000001', ?2, ?3)",
                (hash, port, at),
            )
            .unwrap();
    }
}

#[test]
fn the_statement_finds_the_job_that_the_rule_names() {
    let now = 10_000_000;
    let classes = [
        None,
        Some(ClaimClass::Hint),
        Some(ClaimClass::Recent),
        Some(ClaimClass::Retry),
        Some(ClaimClass::History),
    ];
    let states = [
        JobState::Pending,
        JobState::RetryWait,
        JobState::Running,
        JobState::Dormant,
        JobState::Succeeded,
    ];
    let mut seed = 7u64;
    let mut draw = |range: u64| {
        seed = seed.wrapping_mul(6364136223846793005).wrapping_add(1);
        (seed >> 33) % range
    };
    for _ in 0..40 {
        let connection = connection();
        let mut jobs = Vec::new();
        for id in 0..draw(12) as u8 {
            let mut bytes = [draw(3) as u8; 20];
            bytes[19] = id;
            let job = Candidate {
                hash: InfoHashV1(bytes),
                row: JobRow {
                    state: states[draw(5) as usize],
                    generation: draw(2) as i64,
                    ..JobRow::new(now - 2 + draw(4) as i64)
                },
                first_seen: now - RECENT_MS - 1 + draw(3) as i64,
                hinted: draw(2) == 0,
            };
            insert(&connection, &job, now);
            jobs.push(job);
        }
        for class in classes {
            let found: Option<(Vec<u8>, i64)> = connection
                .query_row(
                    &schedule_sql(class),
                    (now, PEER_HINT_TTL_MS, RECENT_MS),
                    |row| Ok((row.get(0)?, row.get(3)?)),
                )
                .optional()
                .unwrap();
            let expected = find_due(&jobs, class, now).map(|i| {
                let class = jobs[i].class(now);
                let code = [
                    ClaimClass::Hint,
                    ClaimClass::Recent,
                    ClaimClass::Retry,
                    ClaimClass::History,
                ]
                .iter()
                .position(|other| *other == class)
                .unwrap();
                (jobs[i].hash.0.to_vec(), code as i64)
            });
            assert_eq!(found, expected, "{class:?}");
        }
    }
}

#[test]
fn claims_use_the_due_indexes() {
    let connection = connection();
    for (class, index) in [
        (ClaimClass::Hint, "fetch_claim_due"),
        (ClaimClass::Recent, "fetch_claim_due"),
        (ClaimClass::Retry, "fetch_retry_due"),
        (ClaimClass::History, "fetch_claim_due"),
    ] {
        let mut statement = connection
            .prepare(&format!("EXPLAIN QUERY PLAN {}", schedule_sql(Some(class))))
            .unwrap();
        let plan = statement
            .query_map((1i64, 2i64, 3i64), |row| row.get::<_, String>(3))
            .unwrap()
            .collect::<Result<Vec<_>, _>>()
            .unwrap()
            .join("\n");
        assert!(plan.contains(index), "{plan}");
        assert!(!plan.contains("SCAN i"), "{plan}");
        assert!(!plan.contains("TEMP B-TREE FOR ORDER BY"), "{plan}");
    }
}

#[test]
fn recent_pages_start_behind_the_cursor_and_inside_the_window() {
    let connection = connection();
    let now = RECENT_MS + 100;
    for (id, at) in [(1u8, 99), (2, 100), (3, 100), (4, 101), (5, now + 1)] {
        connection
            .execute(
                "INSERT INTO infohashes VALUES(?1, ?2)",
                ([id; 20].as_slice(), at),
            )
            .unwrap();
    }
    let page = |cursor| {
        let (at, hash) = recent_start(now, cursor);
        let after = hash.map(|hash| hash.0.to_vec()).unwrap_or_default();
        let mut statement = connection.prepare(RECENT_PAGE_SQL).unwrap();
        let rows = statement
            .query_map((now, at, after), |row| row.get::<_, Vec<u8>>(1))
            .unwrap()
            .map(|hash| hash.unwrap()[0])
            .collect::<Vec<_>>();
        rows
    };
    assert_eq!(page(None), vec![2, 3, 4]);
    assert_eq!(page(Some((99, InfoHashV1([1; 20])))), vec![2, 3, 4]);
    assert_eq!(page(Some((100, InfoHashV1([2; 20])))), vec![3, 4]);
    assert_eq!(page(Some((101, InfoHashV1([4; 20])))), Vec::<u8>::new());
}
