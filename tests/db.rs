use anneal::db::{days_to_date, now_iso8601};

#[test]
fn iso8601_format() {
    let ts = now_iso8601();
    // Basic format check: YYYY-MM-DDTHH:MM:SS.mmmZ
    assert_eq!(ts.len(), 24);
    assert_eq!(&ts[4..5], "-");
    assert_eq!(&ts[7..8], "-");
    assert_eq!(&ts[10..11], "T");
    assert_eq!(&ts[13..14], ":");
    assert_eq!(&ts[16..17], ":");
    assert_eq!(&ts[19..20], ".");
    assert_eq!(&ts[23..24], "Z");
}


#[test]
fn days_to_date_epoch() {
    // 1970-01-01
    assert_eq!(days_to_date(0), (1970, 1, 1));
}


#[test]
fn days_to_date_known_dates() {
    // 2024-01-01 is 19723 days from epoch
    assert_eq!(days_to_date(19723), (2024, 1, 1));
    // 2000-01-01 is 10957 days from epoch
    assert_eq!(days_to_date(10957), (2000, 1, 1));
}

