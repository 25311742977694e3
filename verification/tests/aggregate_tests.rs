use daily_git_brief::aggregate::LanguageAccumulator;
use daily_git_brief::breakdown::LanguageBreakdown;
use daily_git_brief::models::LanguageInfo;

#[test]
fn normalization_matches_worked_example() {
    // repo1: A 40%, B 60%; repo2: A 20%, B 80%
    let b1 = LanguageBreakdown::from_entries(vec![
        LanguageInfo { language: "B".to_string(), percentage_bp: 6000 },
        LanguageInfo { language: "A".to_string(), percentage_bp: 4000 },
    ])
    .unwrap();
    let b2 = LanguageBreakdown::from_entries(vec![
        LanguageInfo { language: "B".to_string(), percentage_bp: 8000 },
        LanguageInfo { language: "A".to_string(), percentage_bp: 2000 },
    ])
    .unwrap();
    let mut acc = LanguageAccumulator::new();
    acc.fold_breakdown(&b1);
    acc.fold_breakdown(&b2);
    let trends = acc.finalize("2026-01-01");
    assert_eq!(trends.len(), 2);
    let mut seen_a = false;
    let mut seen_b = false;
    for t in &trends {
        assert_eq!(t.date, "2026-01-01");
        assert_eq!(t.repo_count, 2);
        if t.language == "A" {
            // (40 + 20) / (40 + 60 + 20 + 80) * 100 = 30
            assert_eq!(t.normalized_percentage_bp, 3000);
            seen_a = true;
        } else if t.language == "B" {
            assert_eq!(t.normalized_percentage_bp, 7000);
            seen_b = true;
        } else {
            panic!("unexpected language {}", t.language);
        }
    }
    assert!(seen_a && seen_b);
}

#[test]
fn zero_mass_writes_no_trend_rows() {
    // every language fetch failed: only empty breakdowns were folded
    let mut acc = LanguageAccumulator::new();
    acc.fold_breakdown(&LanguageBreakdown::empty());
    acc.fold_breakdown(&LanguageBreakdown::empty());
    let trends = acc.finalize("2026-01-01");
    assert!(trends.is_empty());
}

#[test]
fn untouched_accumulator_yields_nothing() {
    let acc = LanguageAccumulator::new();
    assert!(acc.finalize("2026-01-01").is_empty());
}

#[test]
fn single_language_normalizes_to_full_share() {
    let b = LanguageBreakdown::from_entries(vec![LanguageInfo {
        language: "Zig".to_string(),
        percentage_bp: 2500,
    }])
    .unwrap();
    let mut acc = LanguageAccumulator::new();
    acc.fold_breakdown(&b);
    let trends = acc.finalize("2026-02-02");
    assert_eq!(trends.len(), 1);
    assert_eq!(trends[0].language, "Zig");
    // the one language carries the whole mass
    assert_eq!(trends[0].normalized_percentage_bp, 10000);
    assert_eq!(trends[0].repo_count, 1);
}
