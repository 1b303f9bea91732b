//! Tests of entry extraction from raw oplog documents.

use bson::Bson;
use bson::Document;
use mongodb_oplog_stats::extract::extract;
use mongodb_oplog_stats::extract::ExtractError;
use mongodb_oplog_stats::oplog_stats::OplogStats;
use mongodb_oplog_stats::oplog_stats::UpdateError;

fn oplog_doc(ns: &str, op: &str) -> Document {
    let mut doc = Document::new();
    doc.insert("ns", ns);
    doc.insert("op", op);
    doc
}

#[test]
fn extract_yields_key_and_serialized_size() {
    let doc = oplog_doc("db.coll", "i");
    let (key, size) = extract(&doc).unwrap();
    assert_eq!(key, "db.coll:i");
    let mut bytes: Vec<u8> = Vec::new();
    doc.to_writer(&mut bytes).unwrap();
    assert_eq!(size, bytes.len() as u64);
    assert!(size > 0);
}

#[test]
fn extract_twice_yields_the_same_result() {
    let doc = oplog_doc("db.coll", "u");
    let first = extract(&doc).unwrap();
    let second = extract(&doc).unwrap();
    assert_eq!(first, second);
}

#[test]
fn extract_reports_missing_namespace() {
    let mut doc = Document::new();
    doc.insert("op", "i");
    assert_eq!(extract(&doc), Err(ExtractError::MissingNamespace));
}

#[test]
fn extract_reports_missing_operation() {
    let mut doc = Document::new();
    doc.insert("ns", "db.coll");
    assert_eq!(extract(&doc), Err(ExtractError::MissingOperation));
}

#[test]
fn extract_rejects_non_string_fields() {
    let mut doc = Document::new();
    doc.insert("ns", Bson::Int64(7));
    doc.insert("op", "i");
    assert_eq!(extract(&doc), Err(ExtractError::MissingNamespace));
}

#[test]
fn extract_reports_unserializable_documents_first() {
    // a key with an interior NUL byte cannot be written in wire form, and
    // the size measurement fails before the fields are looked at
    let mut doc = Document::new();
    doc.insert("ns", "db.coll");
    doc.insert("op", "i");
    doc.insert("bad\0key", "x");
    assert_eq!(extract(&doc), Err(ExtractError::SerializeFailed));
}

#[test]
fn counter_overflow_is_reported_and_changes_nothing() {
    let mut stats = OplogStats::new();
    stats.update_entry("db.coll:i", u64::MAX);
    let doc = oplog_doc("db.coll", "i");
    assert_eq!(stats.update(&doc), Err(UpdateError::CounterOverflow));
    assert_eq!(stats.get_processed_doc_count(), 1);
    assert_eq!(stats.total_doc_size_for_all_entries(), u64::MAX);
}

#[test]
fn failed_extraction_does_not_count_the_document() {
    let mut stats = OplogStats::new();
    let mut doc = Document::new();
    doc.insert("ns", "db.coll");
    let outcome = stats.update(&doc);
    assert_eq!(
        outcome,
        Err(UpdateError::Extract(ExtractError::MissingOperation))
    );
    assert_eq!(stats.get_processed_doc_count(), 0);
    assert!(!stats.processed_at_least_one_doc());
}

#[test]
fn update_with_document_uses_its_key_and_size() {
    let mut stats = OplogStats::new();
    let doc = oplog_doc("db.coll", "i");
    stats.update(&doc).unwrap();
    stats.update(&doc).unwrap();
    let mut bytes: Vec<u8> = Vec::new();
    doc.to_writer(&mut bytes).unwrap();
    let ranked = stats.most_common();
    assert_eq!(ranked.len(), 1);
    assert_eq!(ranked[0].0, "db.coll:i");
    assert_eq!(ranked[0].1.doc_count, 2);
    assert_eq!(ranked[0].1.doc_total_size, 2 * bytes.len() as u64);
}
