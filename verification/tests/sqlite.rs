//! The table in memory against a table in sqlite.

use rusqlite::{Connection, Row};

use aivyx_kvcache::changes::{changes, Change};
use aivyx_kvcache::conformance::key;
use aivyx_kvcache::manifest::{Manifest, RowOrder};
use aivyx_kvcache::{CacheHandle, CacheMeta};

fn open() -> Connection {
    let conn = Connection::open_in_memory().unwrap();
    conn.execute(
        "CREATE TABLE slots (
            backend_id TEXT NOT NULL,
            model_id TEXT NOT NULL,
            build_hash TEXT NOT NULL,
            prefix_hash TEXT NOT NULL,
            handle TEXT NOT NULL,
            size_bytes INTEGER NOT NULL,
            token_count INTEGER NOT NULL,
            created_at_secs INTEGER NOT NULL,
            last_used_at_nanos INTEGER NOT NULL,
            hit_count INTEGER NOT NULL DEFAULT 0,
            PRIMARY KEY (backend_id, model_id, build_hash, prefix_hash)
        )",
        (),
    )
    .unwrap();
    conn
}

fn insert(conn: &Connection, prefix: &str, size_bytes: u64, now: i64) {
    let key = key(prefix);
    conn.execute(
        "INSERT INTO slots VALUES (?1, ?2, ?3, ?4, ?5, ?6, 1, ?7, ?8, 0)
         ON CONFLICT (backend_id, model_id, build_hash, prefix_hash) DO UPDATE SET
            handle = excluded.handle,
            size_bytes = excluded.size_bytes,
            token_count = excluded.token_count,
            last_used_at_nanos = excluded.last_used_at_nanos,
            hit_count = 0",
        (
            key.backend_id,
            key.model_id,
            key.build_hash,
            key.prefix_hash,
            format!("{prefix}-{now}.slot"),
            size_bytes as i64,
            now / 1_000_000_000,
            now,
        ),
    )
    .unwrap();
}

fn confirm_hit(conn: &Connection, prefix: &str, now: i64) {
    conn.execute(
        "UPDATE slots SET hit_count = hit_count + 1, last_used_at_nanos = ?2
         WHERE prefix_hash = ?1",
        (prefix, now),
    )
    .unwrap();
}

fn remove(conn: &Connection, prefix: &str) {
    conn.execute("DELETE FROM slots WHERE prefix_hash = ?1", (prefix,)).unwrap();
}

type Columns = (String, String, i64, i64, i64, i64);

fn columns(row: &Row) -> rusqlite::Result<Columns> {
    Ok((row.get(0)?, row.get(1)?, row.get(2)?, row.get(3)?, row.get(4)?, row.get(5)?))
}

fn rows(conn: &Connection, order: &str) -> Vec<Columns> {
    let sql = format!(
        "SELECT prefix_hash, handle, size_bytes, created_at_secs, last_used_at_nanos, hit_count
         FROM slots ORDER BY last_used_at_nanos {order}, rowid {order}"
    );
    let mut stmt = conn.prepare(&sql).unwrap();
    let rows = stmt.query_map((), columns).unwrap();
    rows.map(|row| row.unwrap()).collect()
}

fn table(index: &Manifest, order: RowOrder) -> Vec<Columns> {
    let listed = index.all_rows(order);
    let stored = listed.iter().map(|row| index.stored(&row.key).unwrap());
    stored
        .map(|row| {
            (
                row.key.prefix_hash.clone(),
                row.handle.as_str().to_string(),
                row.size_bytes,
                row.created_at_secs,
                row.last_used_at_nanos,
                row.hit_count,
            )
        })
        .collect()
}

#[test]
fn the_table_follows_sqlite_through_a_long_run() {
    let conn = open();
    let mut index = Manifest::new();
    let mut seed: u64 = 12345;
    let mut next = |bound: u64| {
        seed = seed.wrapping_mul(6364136223846793005).wrapping_add(1442695040888963407);
        (seed >> 33) % bound
    };
    for _ in 0..400 {
        let prefix = format!("p{}", next(12));
        // A coarse clock, so that many uses fall together.
        let now = next(20) as i64 * 700_000_000;
        match next(4) {
            0 | 1 => {
                let size_bytes = next(1_000);
                insert(&conn, &prefix, size_bytes, now);
                index.insert_at(
                    &key(&prefix),
                    &CacheHandle::new(format!("{prefix}-{now}.slot")),
                    CacheMeta { size_bytes, token_count: 1 },
                    now / 1_000_000_000,
                    now,
                );
            }
            2 => {
                confirm_hit(&conn, &prefix, now);
                index.confirm_hit_at(&key(&prefix), now);
            }
            _ => {
                remove(&conn, &prefix);
                index.remove(&key(&prefix));
            }
        }
        assert_eq!(table(&index, RowOrder::OldestFirst), rows(&conn, "ASC"));
        assert_eq!(table(&index, RowOrder::NewestFirst), rows(&conn, "DESC"));
    }
    assert!(index.len() > 0);
}

#[test]
fn the_table_adds_up_as_sqlite_does() {
    for sizes in [
        vec![],
        vec![1, 2, 3],
        vec![i64::MAX as u64],
        vec![i64::MAX as u64, 1],
        vec![u64::MAX, 1],
        vec![1, i64::MAX as u64, u64::MAX],
        vec![u64::MAX, i64::MAX as u64, 1],
        vec![1 << 63, u64::MAX],
    ] {
        let conn = open();
        let mut index = Manifest::new();
        for (i, size_bytes) in sizes.iter().enumerate() {
            let prefix = format!("p{i}");
            insert(&conn, &prefix, *size_bytes, i as i64);
            let meta = CacheMeta { size_bytes: *size_bytes, token_count: 1 };
            index.insert_at(&key(&prefix), &CacheHandle::new(prefix), meta, 0, i as i64);
        }
        let sql = "SELECT COALESCE(SUM(size_bytes), 0) FROM slots";
        let total: rusqlite::Result<i64> = conn.query_row(sql, (), |row| row.get(0));
        match (total, index.total_bytes()) {
            (Ok(total), Ok(ours)) => assert_eq!(total as u64, ours),
            (Err(err), Err(ours)) => {
                assert_eq!(ours.to_string(), format!("kvcache backend error: {err}"));
            }
            (total, ours) => panic!("got: {total:?} and {ours:?} for {sizes:?}"),
        }
    }
}

fn apply(conn: &Connection, change: &Change) {
    match change {
        Change::Delete { key } => remove(conn, &key.prefix_hash),
        Change::Put { row } => {
            conn.execute(
                "INSERT INTO slots VALUES (?1, ?2, ?3, ?4, ?5, ?6, 1, ?7, ?8, ?9)
                 ON CONFLICT (backend_id, model_id, build_hash, prefix_hash) DO UPDATE SET
                    handle = excluded.handle,
                    size_bytes = excluded.size_bytes,
                    created_at_secs = excluded.created_at_secs,
                    last_used_at_nanos = excluded.last_used_at_nanos,
                    hit_count = excluded.hit_count",
                (
                    row.key.backend_id.as_str(),
                    row.key.model_id.as_str(),
                    row.key.build_hash.as_str(),
                    row.key.prefix_hash.as_str(),
                    row.handle.as_str(),
                    row.size_bytes,
                    row.created_at_secs,
                    row.last_used_at_nanos,
                    row.hit_count,
                ),
            )
            .unwrap();
        }
    }
}

#[test]
fn changes_carry_the_table_over_to_sqlite() {
    let conn = open();
    let mut index = Manifest::new();
    let mut seed: u64 = 99;
    let mut next = |bound: u64| {
        seed = seed.wrapping_mul(6364136223846793005).wrapping_add(1442695040888963407);
        (seed >> 33) % bound
    };
    for round in 0..300 {
        let before = index.clone();
        let prefix = format!("p{}", next(10));
        // A clock that jumps, and late in the run has come to its end.
        let reading = if round < 200 { next(50) as i64 } else { i64::MAX - next(2) as i64 };
        match next(5) {
            0 | 1 => index.insert_latest(
                &key(&prefix),
                &CacheHandle::new(format!("{prefix}-{round}.slot")),
                CacheMeta { size_bytes: next(100), token_count: 1 },
                round,
                reading,
            ),
            2 => index.confirm_hit_latest(&key(&prefix), reading),
            3 => index.remove(&key(&prefix)),
            _ => {
                index.evict_and_remove(200);
            }
        }
        let written = changes(&before, &index);
        for change in &written {
            apply(&conn, change);
        }
        assert_eq!(table(&index, RowOrder::OldestFirst), rows(&conn, "ASC"));
        assert_eq!(table(&index, RowOrder::NewestFirst), rows(&conn, "DESC"));
        assert!(changes(&index, &index.clone()).is_empty());
    }
    assert!(index.len() > 0);
}
