use mergemint::backend::routes::leaderboard::{
    cache_entry_for, leaderboard_limit, new_leaderboard_cache, page_if_fresh, serve_cached,
    truncated_copy,
    LeaderboardEntry, LeaderboardPage, MAX_LIST_LIMIT,
};

fn page(n: u32) -> LeaderboardPage {
    LeaderboardPage {
        entries: (0..n)
            .map(|i| LeaderboardEntry {
                address: format!("contributor_{i}"),
                reputation: 100 - i,
                completed_bounties: i,
            })
            .collect(),
    }
}

#[test]
fn get_leaderboard_defaults_to_20_limit() {
    assert_eq!(leaderboard_limit(None), 20);
}

#[test]
fn get_leaderboard_clamps_oversized_limit() {
    assert_eq!(leaderboard_limit(Some(10_000)), MAX_LIST_LIMIT);
    assert_eq!(leaderboard_limit(Some(0)), 1);
    assert_eq!(leaderboard_limit(Some(-3)), 1);
    assert_eq!(leaderboard_limit(Some(5)), 5);
}

#[test]
fn get_leaderboard_respects_limit() {
    let p = page(20);
    assert_eq!(truncated_copy(&p, 5).entries.len(), 5);
    assert_eq!(truncated_copy(&p, 50).entries.len(), 20);
    assert_eq!(truncated_copy(&p, 5).entries[4].address, "contributor_4");
}

#[test]
fn get_leaderboard_caches_results() {
    let cache = new_leaderboard_cache();
    assert!(cache.read().unwrap().is_none());
    let entry = cache_entry_for(&page(5));
    let served = serve_cached(&Some(entry), 20).expect("a fresh entry is served");
    assert_eq!(served.entries.len(), 5);
    assert!(serve_cached(&None, 20).is_none());
}

#[test]
fn page_if_fresh_serves_only_a_fresh_entry() {
    let served = page_if_fresh(&Some(cache_entry_for(&page(8))), true, 3).expect("fresh entry");
    assert_eq!(served.entries.len(), 3);
    assert_eq!(served.entries[2].address, "contributor_2");
    assert_eq!(served.entries[0].reputation, 100);
    assert!(page_if_fresh(&Some(cache_entry_for(&page(8))), false, 3).is_none());
    assert!(page_if_fresh(&None, true, 3).is_none());
    assert!(page_if_fresh(&None, false, 3).is_none());
}
