use mergemint::backend::db::{
    list_bounties_by_assignee, list_bounties_by_creator, Bounty, DbStore, IdempotencyEntry,
    IdempotencyStore, Timestamp, BOUNTIES_INDEX_MIGRATION,
};

/// The test harness compiles and is wired correctly.
#[test]
fn it_compiles() {}

#[test]
fn test_acquire_db_normal() {
    let mut store = DbStore::new();
    store.records.insert("key".to_string(), "value".to_string());
    assert_eq!(store.records.get("key").map(|s| s.as_str()), Some("value"));
}

#[test]
fn test_bounties_index_migration_covers_assignee_and_status() {
    let migration = BOUNTIES_INDEX_MIGRATION.to_lowercase();

    assert!(
        migration
            .contains("create index if not exists idx_bounties_assignee on bounties (assignee)"),
        "migration must index bounties.assignee (filtered by list_bounties_by_assignee); got:\n{migration}"
    );
    assert!(
        migration.contains("create index if not exists idx_bounties_status on bounties (status)"),
        "migration must index bounties.status (filtered by status-based listing queries); got:\n{migration}"
    );
}

#[test]
fn test_idempotency_store_starts_empty() {
    let store = IdempotencyStore::new();
    assert!(store.entries.is_empty());
}

#[test]
fn test_idempotency_store_records_in_flight_then_completed() {
    let mut store = IdempotencyStore::new();

    store.entries.insert("key-1".to_string(), IdempotencyEntry::InFlight);
    assert!(matches!(store.entries.get("key-1"), Some(IdempotencyEntry::InFlight)));

    store.entries.insert(
        "key-1".to_string(),
        IdempotencyEntry::Completed(r#"{"ok":true}"#.to_string()),
    );
    assert!(matches!(
        store.entries.get("key-1"),
        Some(IdempotencyEntry::Completed(body)) if body == r#"{"ok":true}"#
    ));
}

fn row(id: &str, creator: &str, assignee: Option<&str>, secs: i64) -> Bounty {
    Bounty {
        id: id.to_string(),
        creator: creator.to_string(),
        assignee: assignee.map(|a| a.to_string()),
        created_at: Timestamp { secs, nanos: 0 },
    }
}

fn ids(rows: &[Bounty]) -> Vec<&str> {
    rows.iter().map(|b| b.id.as_str()).collect()
}

#[test]
fn listing_is_newest_first_and_stable_for_equal_instants() {
    let mut db = DbStore::new();
    db.bounties.push(row("a", "carol", None, 10));
    db.bounties.push(row("b", "carol", None, 30));
    db.bounties.push(row("c", "carol", None, 20));
    db.bounties.push(row("d", "carol", None, 30));
    let page = list_bounties_by_creator(&db, "", 10, None);
    assert_eq!(ids(&page.bounties), vec!["b", "d", "c", "a"]);
    assert_eq!(page.next_cursor, None);
}

#[test]
fn listing_filters_by_creator_and_paginates_with_cursor() {
    let mut db = DbStore::new();
    for i in 0..5 {
        db.bounties.push(row(&format!("c{i}"), "carol", None, 100 + i));
        db.bounties.push(row(&format!("d{i}"), "dave", None, 200 + i));
    }
    let first = list_bounties_by_creator(&db, "carol", 2, None);
    assert_eq!(ids(&first.bounties), vec!["c4", "c3"]);
    assert_eq!(first.next_cursor, Some(Timestamp { secs: 103, nanos: 0 }));

    let second = list_bounties_by_creator(&db, "carol", 2, first.next_cursor);
    assert_eq!(ids(&second.bounties), vec!["c2", "c1"]);
    assert_eq!(second.next_cursor, Some(Timestamp { secs: 101, nanos: 0 }));

    let last = list_bounties_by_creator(&db, "carol", 2, second.next_cursor);
    assert_eq!(ids(&last.bounties), vec!["c0"]);
    assert_eq!(last.next_cursor, None);
}

#[test]
fn listing_with_zero_or_negative_limit_is_empty() {
    let mut db = DbStore::new();
    db.bounties.push(row("a", "carol", None, 1));
    let page = list_bounties_by_creator(&db, "carol", 0, None);
    assert!(page.bounties.is_empty());
    assert_eq!(page.next_cursor, None);
    let page = list_bounties_by_creator(&db, "carol", -5, None);
    assert!(page.bounties.is_empty());
}

#[test]
fn listing_by_assignee_matches_only_recorded_assignee() {
    let mut db = DbStore::new();
    db.bounties.push(row("a", "carol", Some("alice"), 1));
    db.bounties.push(row("b", "carol", None, 2));
    db.bounties.push(row("c", "carol", Some("bob"), 3));
    db.bounties.push(row("d", "carol", Some("alice"), 4));
    let page = list_bounties_by_assignee(&db, "alice", 20, None);
    assert_eq!(ids(&page.bounties), vec!["d", "a"]);
    let none = list_bounties_by_assignee(&db, "nobody", 20, None);
    assert!(none.bounties.is_empty());
}

#[test]
fn records_remove_and_replace() {
    let mut db = DbStore::new();
    db.records.insert("k".to_string(), "v1".to_string());
    db.records.insert("k".to_string(), "v2".to_string());
    assert_eq!(db.records.get("k").map(|s| s.as_str()), Some("v2"));
    assert!(db.records.contains_key("k"));
    db.records.remove("k");
    assert!(db.records.get("k").is_none());
    assert!(db.records.is_empty());
}
