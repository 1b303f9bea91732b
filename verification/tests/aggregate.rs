//! Tests of the aggregate table and its derived metrics.

use mongodb_oplog_stats::oplog_stats::OplogStats;

#[test]
fn new_table_is_empty() {
    let stats = OplogStats::new();
    assert_eq!(stats.get_processed_doc_count(), 0);
    assert!(!stats.processed_at_least_one_doc());
    assert_eq!(stats.most_common().len(), 0);
    assert_eq!(stats.total_doc_size_for_all_entries(), 0);
}

#[test]
fn update_entry_creates_then_accumulates() {
    let mut stats = OplogStats::new();
    stats.update_entry("db.coll:i", 100);
    assert_eq!(stats.get_processed_doc_count(), 1);
    assert!(stats.processed_at_least_one_doc());
    stats.update_entry("db.coll:i", 50);
    assert_eq!(stats.get_processed_doc_count(), 2);
    let ranked = stats.most_common();
    assert_eq!(ranked.len(), 1);
    assert_eq!(ranked[0].0, "db.coll:i");
    assert_eq!(ranked[0].1.doc_count, 2);
    assert_eq!(ranked[0].1.doc_total_size, 150);
}

#[test]
fn processed_count_grows_by_one_per_update() {
    let mut stats = OplogStats::new();
    let mut previous = stats.get_processed_doc_count();
    for i in 0..10u64 {
        let name = if i % 2 == 0 { "a.b:i" } else { "a.b:u" };
        stats.update_entry(name, i);
        let now = stats.get_processed_doc_count();
        assert_eq!(now, previous + 1);
        previous = now;
    }
    assert_eq!(stats.get_processed_doc_count(), 10);
}

#[test]
fn doc_counts_sum_to_processed_count() {
    let mut stats = OplogStats::new();
    stats.update_entry("db.coll:i", 100);
    stats.update_entry("db.coll:i", 50);
    stats.update_entry("db.coll:d", 20);
    stats.update_entry("db.other:u", 7);
    let ranked = stats.most_common();
    let total_count: u64 = ranked.iter().map(|(_, st)| st.doc_count).sum();
    assert_eq!(total_count, stats.get_processed_doc_count());
}

#[test]
fn scenario_three_documents_two_keys() {
    let mut stats = OplogStats::new();
    stats.update_entry("db.coll:i", 100);
    stats.update_entry("db.coll:i", 50);
    stats.update_entry("db.coll:d", 20);

    let ranked = stats.most_common();
    assert_eq!(ranked.len(), 2);
    assert_eq!(ranked[0].0, "db.coll:i");
    assert_eq!(ranked[0].1.doc_count, 2);
    assert_eq!(ranked[0].1.doc_total_size, 150);
    assert_eq!(ranked[1].0, "db.coll:d");
    assert_eq!(ranked[1].1.doc_count, 1);
    assert_eq!(ranked[1].1.doc_total_size, 20);

    assert_eq!(stats.total_doc_size_for_all_entries(), 170);
    assert_eq!(stats.format_share_for("db.coll:i"), "88.24");
    assert_eq!(stats.format_share_for("db.coll:d"), "11.76");
}

#[test]
fn ranking_is_by_size_descending_with_stable_ties() {
    let mut stats = OplogStats::new();
    stats.update_entry("a.a:i", 10);
    stats.update_entry("b.b:i", 30);
    stats.update_entry("c.c:i", 10);
    stats.update_entry("d.d:i", 20);
    let ranked = stats.most_common();
    let names: Vec<&str> = ranked.iter().map(|(n, _)| n.as_str()).collect();
    // equal sizes (a.a:i and c.c:i) keep their first-observation order
    assert_eq!(names, vec!["b.b:i", "d.d:i", "a.a:i", "c.c:i"]);
}

#[test]
fn shares_are_bounded_and_sum_to_one_hundred() {
    let mut stats = OplogStats::new();
    stats.update_entry("db.coll:i", 100);
    stats.update_entry("db.coll:i", 50);
    stats.update_entry("db.coll:d", 20);
    for (name, _) in stats.most_common() {
        let text = stats.format_share_for(name.as_str());
        if text != "< 0.01" {
            let value: f64 = text.parse().unwrap();
            assert!((0.0..=100.0).contains(&value));
        }
    }
    // with these sizes the rounded shares happen to sum exactly
    let a: f64 = stats.format_share_for("db.coll:i").parse().unwrap();
    let b: f64 = stats.format_share_for("db.coll:d").parse().unwrap();
    assert!((a + b - 100.0).abs() < 1e-9);
}

#[test]
fn single_entry_share_is_full() {
    let mut stats = OplogStats::new();
    stats.update_entry("db.coll:i", 12345);
    assert_eq!(stats.format_share_for("db.coll:i"), "100.00");
}

#[test]
fn zero_sized_documents_share_is_below_threshold() {
    let mut stats = OplogStats::new();
    stats.update_entry("db.coll:n", 0);
    assert_eq!(stats.total_doc_size_for_all_entries(), 0);
    assert_eq!(stats.format_share_for("db.coll:n"), "< 0.01");
}

#[test]
fn snapshot_rows_render_the_ranked_entries() {
    let mut stats = OplogStats::new();
    stats.update_entry("db.coll:i", 100);
    stats.update_entry("db.coll:i", 50);
    stats.update_entry("db.coll:d", 20);
    let rows = stats.snapshot_rows();
    assert_eq!(rows.len(), 2);
    assert_eq!(rows[0].entry_name, "db.coll:i");
    assert_eq!(rows[0].doc_count_text, "2");
    assert_eq!(rows[0].total_size_text, "150 B");
    assert_eq!(rows[0].share_text, "88.24");
    assert_eq!(rows[1].entry_name, "db.coll:d");
    assert_eq!(rows[1].doc_count_text, "1");
    assert_eq!(rows[1].total_size_text, "20 B");
    assert_eq!(rows[1].share_text, "11.76");
}

#[test]
fn human_readable_sizes_use_decimal_units() {
    let stats = OplogStats::new();
    assert_eq!(stats.format_total_doc_size(0), "0 B");
    assert_eq!(stats.format_total_doc_size(100), "100 B");
    assert_eq!(stats.format_total_doc_size(1000), "1 KB");
    assert_eq!(stats.format_total_doc_size(1536), "1.54 KB");
    assert_eq!(stats.format_total_doc_size(2_000_000), "2 MB");
}
