//! What a recovery is asked for.

use filerecovery::recover::{glob_match, RecoverOptions};

#[test]
fn size_ok_applies_the_min_and_max_window() {
    // Default: no bounds, everything passes.
    let any = RecoverOptions::default();
    assert!(any.size_ok(0));
    assert!(any.size_ok(u64::MAX));

    // A min and max together define an inclusive window.
    let windowed = RecoverOptions {
        min_size: 100,
        max_size: Some(1000),
        ..Default::default()
    };
    assert!(!windowed.size_ok(99), "below the floor is rejected");
    assert!(windowed.size_ok(100), "the floor is inclusive");
    assert!(windowed.size_ok(1000), "the cap is inclusive");
    assert!(!windowed.size_ok(1001), "above the cap is rejected");
}

#[test]
fn glob_match_handles_stars_and_question_marks() {
    assert!(glob_match("*.jpg", "photo.jpg"));
    assert!(glob_match("*.JPG", "photo.jpg"), "case-insensitive");
    assert!(glob_match("IMG_???.png", "img_042.png"));
    assert!(glob_match("*", "anything"));
    assert!(glob_match("a*b*c", "axxbyyc"));
    assert!(glob_match("report.pdf", "report.pdf"));
    assert!(!glob_match("*.jpg", "photo.png"));
    assert!(!glob_match("IMG_???.png", "img_42.png"), "? is exactly one");
    assert!(!glob_match("a*b", "axxc"));
}

#[test]
fn name_ok_matches_any_pattern_or_passes_when_empty() {
    let none = RecoverOptions::default();
    assert!(
        none.name_ok("whatever.bin"),
        "no patterns: everything passes"
    );

    let filtered = RecoverOptions {
        names: vec!["*.jpg".to_string(), "*.png".to_string()],
        ..Default::default()
    };
    assert!(filtered.name_ok("a.jpg"));
    assert!(filtered.name_ok("b.PNG"));
    assert!(!filtered.name_ok("c.gif"));
}

#[test]
fn name_ok_applies_excludes() {
    // Exclude-only: everything passes except matches.
    let ex = RecoverOptions {
        exclude_names: vec!["*.tmp".to_string(), "Thumbs.db".to_string()],
        ..Default::default()
    };
    assert!(ex.name_ok("photo.jpg"));
    assert!(!ex.name_ok("cache.tmp"));
    assert!(!ex.name_ok("thumbs.db"), "case-insensitive exclude");

    // Excludes are applied after includes (exclude wins on overlap).
    let both = RecoverOptions {
        names: vec!["*.txt".to_string()],
        exclude_names: vec!["draft*".to_string()],
        ..Default::default()
    };
    assert!(both.name_ok("notes.txt"));
    assert!(
        !both.name_ok("draft.txt"),
        "excluded even though it matches include"
    );
    assert!(!both.name_ok("photo.jpg"), "not an include match");
}
