use tamp_lib::journal::{
    migrate, reuse_is_stale, ConversionRecord, Journal, Output, RawRecord, MAX_RECORDS,
};

fn record(output_path: &str, completed_at_ms: u64) -> ConversionRecord {
    ConversionRecord {
        input_path: "/in/clip.mov".to_string(),
        input_bytes: 1_000_000,
        outputs: vec![Output {
            path: output_path.to_string(),
            bytes: 100_000,
        }],
        preset_hash: "823f".to_string(),
        preset_name: "Discord (10MB)".to_string(),
        target_mb_bits: 10.0f64.to_bits(),
        completed_at_ms,
        input_created_ms: 0,
    }
}

#[test]
fn missing_file_starts_empty() {
    let journal = Journal::new();
    assert!(journal
        .find_by_output("/in/clip (tamped 823f).mp4")
        .is_none());
    assert!(journal.records().is_empty());
}

#[test]
fn append_caps_at_newest_200() {
    let mut journal = Journal::new();
    for i in 0..205u64 {
        journal.append(record(&format!("/out/{i}.mp4"), i));
    }
    assert!(journal.find_by_output("/out/4.mp4").is_none());
    assert!(journal.find_by_output("/out/5.mp4").is_some());
    assert!(journal.find_by_output("/out/204.mp4").is_some());
    assert_eq!(journal.records().len(), MAX_RECORDS);
}

#[test]
fn find_by_output_prefers_newest_record() {
    let mut journal = Journal::new();
    journal.append(record("/out/a.mp4", 1));
    journal.append(record("/out/a.mp4", 2));
    assert_eq!(
        journal
            .find_by_output("/out/a.mp4")
            .unwrap()
            .completed_at_ms,
        2
    );
}

#[test]
fn dedup_replaces_same_output_set() {
    let mut journal = Journal::new();
    journal.append(record("/out/a.mp4", 1));
    journal.append(record("/out/a.mp4", 2));
    let all = journal.records();
    assert_eq!(all.len(), 1, "same-output-set append must replace, not add");
    assert_eq!(all[0].completed_at_ms, 2, "newest record wins");
}

fn split_record(paths: &[&str], completed_at_ms: u64) -> ConversionRecord {
    ConversionRecord {
        input_path: "/in/clip.mov".to_string(),
        input_bytes: 2_000_000,
        outputs: paths
            .iter()
            .map(|p| Output {
                path: p.to_string(),
                bytes: 100_000,
            })
            .collect(),
        preset_hash: "823f".to_string(),
        preset_name: "Discord (10MB)".to_string(),
        target_mb_bits: 10.0f64.to_bits(),
        completed_at_ms,
        input_created_ms: 0,
    }
}

#[test]
fn find_by_output_matches_any_part() {
    let mut journal = Journal::new();
    journal.append(split_record(
        &[
            "/out/clip (tamped 823f)/clip 1.mp4",
            "/out/clip (tamped 823f)/clip 2.mp4",
        ],
        5,
    ));
    let by_first = journal
        .find_by_output("/out/clip (tamped 823f)/clip 1.mp4")
        .expect("first part must match");
    let by_second = journal
        .find_by_output("/out/clip (tamped 823f)/clip 2.mp4")
        .expect("second part must match");
    assert_eq!(by_first.outputs.len(), 2);
    assert_eq!(by_second.outputs.len(), 2);
    assert_eq!(by_first.completed_at_ms, by_second.completed_at_ms);
}

#[test]
fn dedup_ignores_part_order_but_not_part_sets() {
    let mut journal = Journal::new();
    journal.append(split_record(&["/o/1.mp4", "/o/2.mp4"], 1));
    journal.append(split_record(&["/o/2.mp4", "/o/1.mp4"], 2));
    assert_eq!(journal.records().len(), 1);
    journal.append(split_record(&["/o/1.mp4"], 3));
    assert_eq!(journal.records().len(), 2);
    // Newest first.
    let all = journal.records();
    assert_eq!(all[0].completed_at_ms, 3);
    assert_eq!(all[1].completed_at_ms, 2);
    // The single-part record is newer and matches /o/1.mp4.
    assert_eq!(journal.find_by_output("/o/1.mp4").unwrap().completed_at_ms, 3);
    assert_eq!(journal.find_by_output("/o/2.mp4").unwrap().completed_at_ms, 2);
}

#[test]
fn loaded_records_keep_their_order() {
    let journal = Journal::from_records(vec![record("/o/a.mp4", 1), record("/o/b.mp4", 2)]);
    let all = journal.records();
    assert_eq!(all[0].completed_at_ms, 2);
    assert_eq!(all[1].completed_at_ms, 1);
    let copy = all[0].duplicate();
    assert_eq!(copy.outputs[0].path, "/o/b.mp4");
}

fn raw(outputs: Option<Vec<Output>>, output_path: Option<&str>, output_bytes: Option<u64>) -> RawRecord {
    RawRecord {
        input_path: "/in/clip.mov".to_string(),
        input_bytes: 1_000_000,
        outputs,
        output_path: output_path.map(|s| s.to_string()),
        output_bytes,
        preset_hash: "823f".to_string(),
        preset_name: "Discord (10MB)".to_string(),
        target_mb_bits: 0,
        completed_at_ms: 42,
        input_created_ms: 0,
    }
}

#[test]
fn records_without_target_mb_deserialize_as_unknown() {
    let (rec, legacy) = raw(None, Some("/out/clip (tamped 823f).mp4"), Some(100_000)).into_record();
    assert!(legacy);
    assert_eq!(f64::from_bits(rec.target_mb_bits), 0.0);
    assert_eq!(rec.completed_at_ms, 42);
    assert_eq!(rec.outputs.len(), 1);
    assert_eq!(rec.outputs[0].path, "/out/clip (tamped 823f).mp4");
    assert_eq!(rec.outputs[0].bytes, 100_000);
}

#[test]
fn legacy_records_with_absent_fields_read_as_empty_and_zero() {
    let (rec, legacy) = raw(None, None, None).into_record();
    assert!(legacy);
    assert_eq!(rec.outputs.len(), 1);
    assert_eq!(rec.outputs[0].path, "");
    assert_eq!(rec.outputs[0].bytes, 0);
    let (rec, legacy) = raw(
        Some(vec![Output { path: "/o/1.mp4".to_string(), bytes: 1 }]),
        Some("/ignored"),
        Some(9),
    )
    .into_record();
    assert!(!legacy);
    assert_eq!(rec.outputs[0].path, "/o/1.mp4");
}

/// A legacy per-part journal: three parts of one split (one recorded twice)
/// in a `(tamped …)` folder, and a standalone single.
fn legacy_part(output_path: &str, output_bytes: u64, completed_at_ms: u64, input: &str, input_bytes: u64, created: u64) -> RawRecord {
    RawRecord {
        input_path: input.to_string(),
        input_bytes,
        outputs: None,
        output_path: Some(output_path.to_string()),
        output_bytes: Some(output_bytes),
        preset_hash: "823f".to_string(),
        preset_name: "Discord (10MB)".to_string(),
        target_mb_bits: 10.0f64.to_bits(),
        completed_at_ms,
        input_created_ms: created,
    }
}

fn legacy_per_part_records() -> Vec<(ConversionRecord, bool)> {
    vec![
        legacy_part("/out/clip (tamped 823f)/clip 2.mp4", 110000, 50, "/in/clip.mov", 3000000, 7),
        legacy_part("/out/clip (tamped 823f)/clip 1.mp4", 100000, 40, "/in/clip.mov", 3000000, 7),
        legacy_part("/out/clip (tamped 823f)/clip 3.mp4", 120000, 55, "/in/clip.mov", 3000000, 7),
        legacy_part("/out/clip (tamped 823f)/clip 2.mp4", 111000, 90, "/in/clip.mov", 3000000, 7),
        legacy_part("/out/other (tamped 823f).mp4", 90000, 60, "/in/other.mov", 500000, 3),
    ]
    .into_iter()
    .map(RawRecord::into_record)
    .collect()
}

#[test]
fn legacy_per_part_journal_migrates_merges_and_dedups() {
    let (records, rewrite) = migrate(legacy_per_part_records());
    assert!(rewrite, "legacy records must be rewritten in the current layout");
    let journal = Journal::from_records(records);
    let recs = journal.records();
    assert_eq!(recs.len(), 2);

    let split = journal
        .find_by_output("/out/clip (tamped 823f)/clip 1.mp4")
        .expect("the bare parts must merge into one record");
    assert_eq!(split.outputs.len(), 3, "three unique parts, dup collapsed");
    assert_eq!(split.outputs[0].path, "/out/clip (tamped 823f)/clip 1.mp4");
    assert_eq!(split.outputs[1].path, "/out/clip (tamped 823f)/clip 2.mp4");
    assert_eq!(split.outputs[2].path, "/out/clip (tamped 823f)/clip 3.mp4");
    assert_eq!(split.outputs[1].bytes, 111000, "newest dup bytes win");
    assert_eq!(split.completed_at_ms, 90);
    assert_eq!(split.input_path, "/in/clip.mov");
    assert_eq!(split.input_bytes, 3_000_000);
    assert_eq!(split.input_created_ms, 7);

    let by_third = journal
        .find_by_output("/out/clip (tamped 823f)/clip 3.mp4")
        .expect("the third part must resolve to the merged record");
    assert_eq!(by_third.completed_at_ms, split.completed_at_ms);
    assert_eq!(by_third.outputs.len(), 3);

    let single = journal
        .find_by_output("/out/other (tamped 823f).mp4")
        .expect("the standalone single must survive migration");
    assert_eq!(single.outputs.len(), 1);
    assert_eq!(single.input_path, "/in/other.mov");
    assert_eq!(single.completed_at_ms, 60);
}

/// The records as the current layout stores them, read back.
fn reloaded(records: &[ConversionRecord]) -> Vec<(ConversionRecord, bool)> {
    records
        .iter()
        .map(|r| {
            let r = r.duplicate();
            RawRecord {
                input_path: r.input_path,
                input_bytes: r.input_bytes,
                outputs: Some(r.outputs),
                output_path: None,
                output_bytes: None,
                preset_hash: r.preset_hash,
                preset_name: r.preset_name,
                target_mb_bits: r.target_mb_bits,
                completed_at_ms: r.completed_at_ms,
                input_created_ms: r.input_created_ms,
            }
            .into_record()
        })
        .collect()
}

#[test]
fn migration_rewrites_once_then_reloads_are_idempotent() {
    let (first, rewrite) = migrate(legacy_per_part_records());
    assert!(rewrite);
    let (second, rewrite_again) = migrate(reloaded(&first));
    assert!(!rewrite_again, "a migrated journal must not be rewritten again");
    assert_eq!(first.len(), second.len());
    assert_eq!(second.len(), 2);
    for (a, b) in first.iter().zip(second.iter()) {
        assert_eq!(a.input_path, b.input_path);
        assert_eq!(a.completed_at_ms, b.completed_at_ms);
        assert_eq!(a.outputs.len(), b.outputs.len());
        for (oa, ob) in a.outputs.iter().zip(b.outputs.iter()) {
            assert_eq!(oa.path, ob.path);
            assert_eq!(oa.bytes, ob.bytes);
        }
    }
}

#[test]
fn migrated_journal_loads_as_new_format_records() {
    let (first, _) = migrate(legacy_per_part_records());
    let (again, rewrite) = migrate(reloaded(&first));
    assert!(!rewrite, "a journal already in the new shape must not be rewritten");
    assert_eq!(Journal::from_records(again).records().len(), 2);
}

#[test]
fn part_numbers_order_numerically_not_textually() {
    let parts: Vec<(ConversionRecord, bool)> = [10u64, 9, 1]
        .iter()
        .map(|n| {
            legacy_part(&format!("/o/v (tamped)/v {n}.mp4"), *n, *n, "/in/v.mov", 1, 0).into_record()
        })
        .collect();
    let (records, _) = migrate(parts);
    assert_eq!(records.len(), 1);
    let paths: Vec<&str> = records[0].outputs.iter().map(|o| o.path.as_str()).collect();
    assert_eq!(paths, vec!["/o/v (tamped)/v 1.mp4", "/o/v (tamped)/v 9.mp4", "/o/v (tamped)/v 10.mp4"]);
    assert_eq!(records[0].completed_at_ms, 10);
}

#[test]
fn legacy_singles_outside_part_folders_stay_separate() {
    let recs: Vec<(ConversionRecord, bool)> = vec![
        legacy_part("/out/a (tamped).mp4", 1, 1, "/in/a.mov", 1, 0).into_record(),
        legacy_part("/out/b (tamped).mp4", 2, 2, "/in/b.mov", 1, 0).into_record(),
    ];
    let (records, rewrite) = migrate(recs);
    assert!(rewrite);
    assert_eq!(records.len(), 2);
}

#[test]
fn reuse_is_stale_when_the_record_names_other_content() {
    let rec = Some(record("/in/clip (tamped 823f).mp4", 5_000));
    assert!(!reuse_is_stale(&None, "/in/clip.mov", Some(9_999)));
    assert!(!reuse_is_stale(&rec, "/in/clip.mov", Some(4_000)));
    assert!(!reuse_is_stale(&rec, "/in/clip.mov", None));
    assert!(reuse_is_stale(&rec, "/in/other.mov", Some(1)));
    assert!(reuse_is_stale(&rec, "/in/clip.mov", Some(5_001)));
}

#[test]
fn records_after_append_are_the_new_one_then_the_rest_newest_first() {
    let mut journal = Journal::new();
    journal.append(record("/out/a.mp4", 1));
    journal.append(record("/out/b.mp4", 2));
    journal.append(record("/out/a.mp4", 3));
    let paths: Vec<String> = journal
        .records()
        .iter()
        .map(|r| r.outputs[0].path.clone())
        .collect();
    assert_eq!(paths, vec!["/out/a.mp4".to_string(), "/out/b.mp4".to_string()]);
    assert_eq!(journal.records()[0].completed_at_ms, 3);
}
