use tamp_lib::journal::{ConversionRecord, Output};
use tamp_lib::scanner::{
    classify_stems, has_video_ext, is_video_extension, newest_first, tamped_original_stem,
    ConversionMeta, FileRole,
};

#[test]
fn derives_original_stem() {
    assert_eq!(tamped_original_stem("clip (tamped)"), Some("clip"));
    assert_eq!(tamped_original_stem("clip (tamped 2)"), Some("clip"));
    assert_eq!(tamped_original_stem("clip (tamped 42)"), Some("clip"));
    assert_eq!(tamped_original_stem("clip (tamped a3f2)"), Some("clip"));
    assert_eq!(tamped_original_stem("clip (tamped 0042)"), Some("clip"));
    assert_eq!(tamped_original_stem("clip (tamped a3f2 2)"), Some("clip"));
    assert_eq!(tamped_original_stem("clip (tamped a3f2 12)"), Some("clip"));
    assert_eq!(
        tamped_original_stem("demo (1) (tamped a3f2)"),
        Some("demo (1)")
    );
    assert_eq!(tamped_original_stem("demo (1) (tamped)"), Some("demo (1)"));
    assert_eq!(
        tamped_original_stem("demo (tamped a3f2) (tamped 9bd0)"),
        Some("demo (tamped a3f2)")
    );
}

#[test]
fn derives_original_stem_for_part_tokens() {
    assert_eq!(
        tamped_original_stem("clip (tamped 823f p1of3)"),
        Some("clip")
    );
    assert_eq!(
        tamped_original_stem("clip (tamped 823f p2of5)"),
        Some("clip")
    );
    assert_eq!(
        tamped_original_stem("clip (tamped 823f p12of20)"),
        Some("clip")
    );
    assert_eq!(tamped_original_stem("clip (tamped p2of5)"), Some("clip"));
    assert_eq!(
        tamped_original_stem("clip (tamped 823f p0of0)"),
        Some("clip")
    );
    assert_eq!(
        tamped_original_stem("demo (1) (tamped 823f p1of2)"),
        Some("demo (1)")
    );
}

#[test]
fn rejects_malformed_part_tokens() {
    assert_eq!(tamped_original_stem("clip (tamped 823f pof3)"), None);
    assert_eq!(tamped_original_stem("clip (tamped 823f p2of)"), None);
    assert_eq!(tamped_original_stem("clip (tamped 823f pof)"), None);
    assert_eq!(tamped_original_stem("clip (tamped 823f P2of5)"), None);
    assert_eq!(tamped_original_stem("clip (tamped 823f p2OF5)"), None);
    assert_eq!(tamped_original_stem("clip (tamped 823f p2of5x)"), None);
    assert_eq!(tamped_original_stem("clip (tamped 823f px2of5)"), None);
    assert_eq!(tamped_original_stem("clip (tamped 823f 2of5)"), None);
    assert_eq!(tamped_original_stem("clip (tamped 823f 2 p1of2)"), None);
    assert_eq!(tamped_original_stem("clip (tamped 823f p1of2 2)"), None);
    assert_eq!(tamped_original_stem("clip (tamped A3F2 p1of2)"), None);
    assert_eq!(tamped_original_stem("clip (tamped 2 p1of2)"), None);
}

#[test]
fn rejects_non_output_stems() {
    assert_eq!(tamped_original_stem("clip"), None);
    assert_eq!(tamped_original_stem("retamped"), None);
    assert_eq!(tamped_original_stem("clip (tamped )"), None);
    assert_eq!(tamped_original_stem("clip (tamped x)"), None);
    assert_eq!(tamped_original_stem("clip (tamped) more"), None);
    assert_eq!(tamped_original_stem("clip (tamped A3F2)"), None);
    assert_eq!(tamped_original_stem("clip (tamped a3f)"), None);
    assert_eq!(tamped_original_stem("clip (tamped a3f21)"), None);
    assert_eq!(tamped_original_stem("clip (tamped a3f2 x)"), None);
    assert_eq!(tamped_original_stem("clip (tamped a3f2 2 3)"), None);
    assert_eq!(tamped_original_stem("clip (tamped  2)"), None);
}

#[test]
fn named_preset_outputs_are_recognised() {
    assert_eq!(
        tamped_original_stem("clip (tamped Discord a3f2)"),
        Some("clip")
    );
    assert_eq!(
        tamped_original_stem("clip (tamped Discord Nitro a3f2 p1of2)"),
        Some("clip")
    );
}

#[test]
fn video_extensions_are_matched_case_insensitively() {
    for ext in ["mov", "MP4", "m4v", "WebM", "mkv", "avi"] {
        assert!(is_video_extension(ext), "{ext}");
    }
    assert!(!is_video_extension("txt"));
    assert!(!is_video_extension(""));
    assert!(has_video_ext("/a/b/clip.MOV"));
    assert!(!has_video_ext("/a/b/clip"));
    assert!(!has_video_ext("/a/b/clip.mov.txt"));
}

#[test]
fn outputs_are_covered_while_their_original_exists() {
    let stems = vec![
        "demo".to_string(),
        "demo (tamped a3f2)".to_string(),
        "gone (tamped a3f2)".to_string(),
    ];
    let roles = classify_stems(&stems);
    assert_eq!(roles, vec![FileRole::Source, FileRole::Covered, FileRole::Orphan]);
}

#[test]
fn newest_first_is_stable_and_limited() {
    let created = vec![10, 30, 20, 30, 5];
    assert_eq!(newest_first(&created, 10), vec![1, 3, 2, 0, 4]);
    assert_eq!(newest_first(&created, 2), vec![1, 3]);
    assert_eq!(newest_first(&created, 0), Vec::<usize>::new());
}

#[test]
fn orphan_meta_is_filled_from_the_journal() {
    let mut meta = ConversionMeta::orphan(1234);
    assert_eq!(meta.original_bytes, None);
    assert_eq!(meta.preset_name, None);
    let record = ConversionRecord {
        input_path: "/in/clip.mov".to_string(),
        input_bytes: 1_000_000,
        outputs: vec![Output { path: "/out/a.mp4".to_string(), bytes: 1234 }],
        preset_hash: "823f".to_string(),
        preset_name: "Discord (10MB)".to_string(),
        target_mb_bits: 10.0f64.to_bits(),
        completed_at_ms: 1,
        input_created_ms: 0,
    };
    meta.fill_from(&record);
    assert_eq!(meta.original_bytes, Some(1_000_000));
    assert_eq!(meta.output_bytes, 1234);
    assert_eq!(meta.preset_name.as_deref(), Some("Discord (10MB)"));
}
