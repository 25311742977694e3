use daily_git_brief::breakdown::LanguageBreakdown;
use daily_git_brief::models::LanguageInfo;

#[test]
fn breakdown_shares_from_bytes() {
    let pairs = vec![("Rust".to_string(), 600u64), ("C".to_string(), 400u64)];
    let bd = LanguageBreakdown::compute(&pairs, 0).unwrap();
    let v = bd.into_entries();
    assert_eq!(v.len(), 2);
    assert_eq!(v[0].language, "Rust");
    assert_eq!(v[0].percentage_bp, 6000);
    assert_eq!(v[1].language, "C");
    assert_eq!(v[1].percentage_bp, 4000);
}

#[test]
fn breakdown_threshold_filters() {
    let pairs = vec![("Rust".to_string(), 600u64), ("C".to_string(), 400u64)];
    let bd = LanguageBreakdown::compute(&pairs, 4500).unwrap();
    let v = bd.into_entries();
    assert_eq!(v.len(), 1);
    assert_eq!(v[0].language, "Rust");
    assert_eq!(v[0].percentage_bp, 6000);
}

#[test]
fn breakdown_sorts_descending() {
    let pairs = vec![
        ("A".to_string(), 100u64),
        ("B".to_string(), 300u64),
        ("C".to_string(), 600u64),
    ];
    let bd = LanguageBreakdown::compute(&pairs, 0).unwrap();
    let v = bd.into_entries();
    assert_eq!(v.len(), 3);
    assert_eq!(v[0].language, "C");
    assert_eq!(v[1].language, "B");
    assert_eq!(v[2].language, "A");
    assert!(v[0].percentage_bp >= v[1].percentage_bp);
    assert!(v[1].percentage_bp >= v[2].percentage_bp);
}

#[test]
fn breakdown_duplicate_language_rejected() {
    let pairs = vec![("Rust".to_string(), 600u64), ("Rust".to_string(), 400u64)];
    assert!(LanguageBreakdown::compute(&pairs, 0).is_none());
}

#[test]
fn breakdown_no_bytes_is_empty() {
    let pairs = vec![("Rust".to_string(), 0u64), ("C".to_string(), 0u64)];
    let bd = LanguageBreakdown::compute(&pairs, 0).unwrap();
    assert_eq!(bd.len(), 0);
}

#[test]
fn breakdown_rounds_down() {
    // 1 of 3 bytes: 3333 basis points, the remainder is dropped
    let pairs = vec![("A".to_string(), 1u64), ("B".to_string(), 2u64)];
    let bd = LanguageBreakdown::compute(&pairs, 0).unwrap();
    let v = bd.into_entries();
    assert_eq!(v[0].language, "B");
    assert_eq!(v[0].percentage_bp, 6666);
    assert_eq!(v[1].language, "A");
    assert_eq!(v[1].percentage_bp, 3333);
}

#[test]
fn from_entries_accepts_well_formed() {
    let v = vec![
        LanguageInfo { language: "A".to_string(), percentage_bp: 7000 },
        LanguageInfo { language: "B".to_string(), percentage_bp: 3000 },
    ];
    let bd = LanguageBreakdown::from_entries(v).unwrap();
    assert_eq!(bd.len(), 2);
    assert_eq!(bd.get(0).language, "A");
}

#[test]
fn from_entries_rejects_unsorted() {
    let v = vec![
        LanguageInfo { language: "A".to_string(), percentage_bp: 3000 },
        LanguageInfo { language: "B".to_string(), percentage_bp: 7000 },
    ];
    assert!(LanguageBreakdown::from_entries(v).is_none());
}

#[test]
fn from_entries_rejects_oversized_share() {
    let v = vec![LanguageInfo { language: "A".to_string(), percentage_bp: 10001 }];
    assert!(LanguageBreakdown::from_entries(v).is_none());
}

#[test]
fn from_entries_rejects_excess_total() {
    let v = vec![
        LanguageInfo { language: "A".to_string(), percentage_bp: 6000 },
        LanguageInfo { language: "B".to_string(), percentage_bp: 6000 },
    ];
    assert!(LanguageBreakdown::from_entries(v).is_none());
}

#[test]
fn from_entries_rejects_duplicate_language() {
    let v = vec![
        LanguageInfo { language: "A".to_string(), percentage_bp: 5000 },
        LanguageInfo { language: "A".to_string(), percentage_bp: 4000 },
    ];
    assert!(LanguageBreakdown::from_entries(v).is_none());
}
