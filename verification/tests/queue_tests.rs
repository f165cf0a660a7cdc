use reddw_core::candidate::Candidate;
use reddw_core::queue::QueueStore;

fn cand(id: &str, source: &str, date: i64, was_set: bool) -> Candidate {
    Candidate {
        id: id.to_string(),
        name: Some(format!("name of {id}")),
        data_url: format!("http://img.example/{id}.png"),
        info_url: None,
        date,
        source: source.to_string(),
        was_set,
    }
}

#[test]
fn refill_inserts_new_rows() {
    let mut q = QueueStore::new();
    let batch = vec![cand("a", "p_i", 1, false), cand("b", "p_i", 2, false)];
    assert_eq!(q.refill(&batch), 2);
    assert_eq!(q.len(), 2);
    assert!(q.has_id("a"));
    assert!(q.has_id("b"));
    assert!(!q.has_id("c"));
}

#[test]
fn refill_twice_inserts_nothing_second_time() {
    let mut q = QueueStore::new();
    let batch = vec![
        cand("a", "p_i", 1, false),
        cand("b", "p_i", 2, false),
        cand("c", "p_i", 3, false),
    ];
    assert_eq!(q.refill(&batch), 3);
    // An unchanged plugin result set adds zero rows on the second pass.
    assert_eq!(q.refill(&batch), 0);
    assert_eq!(q.len(), 3);
}

#[test]
fn refill_ignores_duplicates_within_batch() {
    let mut q = QueueStore::new();
    let batch = vec![cand("a", "p_i", 1, false), cand("a", "p_i", 9, false)];
    assert_eq!(q.refill(&batch), 1);
    let rows = q.get_queue();
    assert_eq!(rows.len(), 1);
    assert_eq!(rows[0].date, 1);
}

#[test]
fn select_next_picks_newest_unshown_of_source() {
    let mut q = QueueStore::new();
    q.refill(&vec![
        cand("old", "p_i", 10, false),
        cand("newest", "p_i", 30, false),
        cand("shown", "p_i", 99, true),
        cand("other", "p_j", 50, false),
    ]);
    let got = q.select_next("p_i").expect("an unshown row exists");
    assert_eq!(got.id, "newest");
    assert!(q.select_next("p_missing").is_none());
}

#[test]
fn mark_applied_flips_flag_and_refreshes_date() {
    let mut q = QueueStore::new();
    q.refill(&vec![cand("a", "p_i", 1, false), cand("b", "p_i", 2, false)]);
    assert!(q.mark_applied("a", 777));
    assert!(!q.mark_applied("zzz", 778));
    let rows = q.get_queue();
    let a = rows.iter().find(|c| c.id == "a").unwrap();
    assert!(a.was_set);
    assert_eq!(a.date, 777);
    let b = rows.iter().find(|c| c.id == "b").unwrap();
    assert!(!b.was_set);
    assert_eq!(b.date, 2);
}

#[test]
fn rotation_pass_marks_selection_and_leaves_the_rest() {
    // Candidates x, y, z arrive for a registered instance; all three are
    // staged unshown; the cycle selects the newest (y), applies it, and
    // the unshown remainder is exactly x and z.
    let mut q = QueueStore::new();
    let fetched = vec![
        cand("x", "wallhaven_a", 100, false),
        cand("y", "wallhaven_a", 300, false),
        cand("z", "wallhaven_a", 200, false),
    ];
    assert_eq!(q.refill(&fetched), 3);
    assert!(q.get_queue().iter().all(|c| !c.was_set));

    let picked = q.select_next("wallhaven_a").expect("three unshown rows");
    assert_eq!(picked.id, "y");
    assert!(q.mark_applied("y", 400));

    let mut unshown: Vec<String> = q
        .get_queue()
        .iter()
        .filter(|c| !c.was_set)
        .map(|c| c.id.clone())
        .collect();
    unshown.sort();
    assert_eq!(unshown, vec!["x".to_string(), "z".to_string()]);
}

#[test]
fn get_queue_lists_newest_first() {
    let mut q = QueueStore::new();
    q.refill(&vec![
        cand("oldest", "p_i", 10, false),
        cand("newest", "p_i", 30, true),
        cand("middle", "p_j", 20, false),
    ]);
    let listed = q.get_queue();
    let ids: Vec<&str> = listed.iter().map(|c| c.id.as_str()).collect();
    assert_eq!(ids, vec!["newest", "middle", "oldest"]);
}

#[test]
fn purge_unshown_keeps_shown_history() {
    let mut q = QueueStore::new();
    q.refill(&vec![
        cand("fresh", "p_i", 1, false),
        cand("history", "p_i", 2, true),
        cand("other", "p_j", 3, false),
    ]);
    assert_eq!(q.purge_unshown("p_i"), 1);
    let mut ids: Vec<String> = q.get_queue().iter().map(|c| c.id.clone()).collect();
    ids.sort();
    assert_eq!(ids, vec!["history".to_string(), "other".to_string()]);
    assert_eq!(q.purge_unshown("p_i"), 0);
}

#[test]
fn trim_keeps_newest_shown_rows_per_source() {
    let mut q = QueueStore::new();
    q.refill(&vec![
        cand("s1", "p_i", 10, true),
        cand("s2", "p_i", 20, true),
        cand("s3", "p_i", 30, true),
        cand("u1", "p_i", 1, false),
        cand("t1", "p_j", 5, true),
    ]);
    q.trim(2);
    let rows = q.get_queue();
    // Per source, at most two shown rows; the oldest shown row of p_i went.
    assert!(!rows.iter().any(|c| c.id == "s1"));
    assert!(rows.iter().any(|c| c.id == "s2"));
    assert!(rows.iter().any(|c| c.id == "s3"));
    assert!(rows.iter().any(|c| c.id == "t1"));
    // Unshown rows are never trimmed, whatever their age.
    assert!(rows.iter().any(|c| c.id == "u1"));
}

#[test]
fn trim_never_removes_unshown_rows() {
    let mut q = QueueStore::new();
    q.refill(&vec![
        cand("u1", "p_i", 1, false),
        cand("u2", "p_i", 2, false),
        cand("u3", "p_i", 3, false),
    ]);
    q.trim(0);
    assert_eq!(q.len(), 3);
    assert!(q.get_queue().iter().all(|c| !c.was_set));
}

#[test]
fn trim_with_zero_retention_drops_every_shown_row() {
    let mut q = QueueStore::new();
    q.refill(&vec![cand("s1", "p_i", 1, true), cand("u1", "p_i", 2, false)]);
    q.trim(0);
    let rows = q.get_queue();
    assert_eq!(rows.len(), 1);
    assert_eq!(rows[0].id, "u1");
}

#[test]
fn purge_source_removes_exactly_that_source() {
    let mut q = QueueStore::new();
    q.refill(&vec![
        cand("a", "p_i", 1, false),
        cand("b", "p_j", 2, true),
        cand("c", "p_i", 3, true),
    ]);
    assert_eq!(q.purge_source("p_i"), 2);
    let rows = q.get_queue();
    assert_eq!(rows.len(), 1);
    assert_eq!(rows[0].id, "b");
    assert_eq!(q.purge_source("p_i"), 0);
}

#[test]
fn known_ids_lists_every_instance_of_the_plugin() {
    let mut q = QueueStore::new();
    q.refill(&vec![
        cand("a", "wallhaven_one", 1, false),
        cand("b", "wallhaven_two", 2, true),
        cand("c", "reddit_one", 3, false),
    ]);
    let ids = q.get_ids_from_source("wallhaven");
    assert_eq!(ids, vec!["a".to_string(), "b".to_string()]);
    let none = q.get_ids_from_source("nothere");
    assert!(none.is_empty());
}

#[test]
fn candidate_new_starts_unshown() {
    let c = Candidate::new(
        "id1".to_string(),
        None,
        "http://x/i.png".to_string(),
        None,
        "p_i".to_string(),
    );
    assert!(!c.was_set);
    assert_eq!(c.id, "id1");
    assert_eq!(c.source, "p_i");
    assert!(c.date > 0);
}
