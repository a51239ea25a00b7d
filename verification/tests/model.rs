use clipmgr::model::{EntryKind, Timestamp};

#[test]
fn kind_names_are_lower_case() {
    assert_eq!(EntryKind::Text.name(), "text");
    assert_eq!(EntryKind::Url.name(), "url");
    assert_eq!(EntryKind::Image.name(), "image");
    assert_eq!(EntryKind::Rtf.name(), "rtf");
}

#[test]
fn unknown_kind_name_reads_as_text() {
    assert_eq!(EntryKind::from_name("image"), EntryKind::Image);
    assert_eq!(EntryKind::from_name("rtf"), EntryKind::Rtf);
    assert_eq!(EntryKind::from_name("url"), EntryKind::Url);
    assert_eq!(EntryKind::from_name("text"), EntryKind::Text);
    assert_eq!(EntryKind::from_name("IMAGE"), EntryKind::Text);
    assert_eq!(EntryKind::from_name(""), EntryKind::Text);
}

#[test]
fn epoch_as_rfc3339() {
    let t = Timestamp::new(0, 0).unwrap();
    assert_eq!(t.to_rfc3339(), "1970-01-01T00:00:00+00:00");
    let u = Timestamp::new(1704067200, 250_000_000).unwrap();
    assert_eq!(u.to_rfc3339(), "2024-01-01T00:00:00.250+00:00");
    assert!(t.at_or_before(&u));
    assert!(!u.at_or_before(&t));
}

#[test]
fn out_of_range_instant_is_refused() {
    assert!(Timestamp::new(i64::MAX, 0).is_none());
    assert!(Timestamp::new(0, 2_000_000_000).is_none());
    assert!(Timestamp::new(0, 1_000_000_000).is_none());
    assert!(Timestamp::new(59, 1_000_000_000).is_some());
}
