use ward::clean::{
    keep_older_than, parse_duration, removed_total, size_tone, sort_by_size_desc, total_size, Artifact,
    DurationError, SizeTone,
};

fn art(path: &str, size: u64, last: Option<i32>) -> Artifact {
    Artifact { path: path.to_string(), size, ecosystem: "rust".to_string(), last_modified: last }
}

#[test]
fn durations() {
    assert_eq!(parse_duration("30d"), Ok(30));
    assert_eq!(parse_duration(" 4w "), Ok(28));
    assert_eq!(parse_duration("30"), Err(DurationError::InvalidFormat));
    assert_eq!(parse_duration("xd"), Err(DurationError::InvalidNumber));
    assert_eq!(parse_duration("2000000000000000000w"), Err(DurationError::OutOfRange));
}

#[test]
fn older_than_keeps_old_and_unknown() {
    let arts = vec![art("/a", 1, Some(100)), art("/b", 2, Some(95)), art("/c", 3, None), art("/d", 4, Some(89))];
    let kept = keep_older_than(arts, 100, 10);
    let paths: Vec<&str> = kept.iter().map(|a| a.path.as_str()).collect();
    assert_eq!(paths, vec!["/c", "/d"]);
}

#[test]
fn report_order_and_totals() {
    let arts = vec![art("/a", 5, None), art("/b", 50, None), art("/c", 5, None), art("/d", 500, None)];
    assert_eq!(total_size(&arts), 560);
    let sorted = sort_by_size_desc(arts);
    let paths: Vec<&str> = sorted.iter().map(|a| a.path.as_str()).collect();
    assert_eq!(paths, vec!["/d", "/b", "/a", "/c"]);
    assert_eq!(removed_total(&sorted, &vec![true, false, true, false]), 505);
}

#[test]
fn size_tones() {
    assert_eq!(size_tone(2 * 1024 * 1024 * 1024), SizeTone::Large);
    assert_eq!(size_tone(1024 * 1024 * 1024), SizeTone::Medium);
    assert_eq!(size_tone(200 * 1024 * 1024), SizeTone::Medium);
    assert_eq!(size_tone(100 * 1024 * 1024), SizeTone::Small);
}
