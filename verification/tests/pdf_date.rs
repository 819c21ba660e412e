use pdf2clipboard::pdf_date::parse_pdf_date_to_epoch;

// 2026-04-21 12:00:00 UTC, in seconds since the epoch.
const APR21_NOON_UTC: i64 = 1_776_772_800;
// 2026-04-21 00:00:00 UTC, in seconds since the epoch.
const APR21_MIDNIGHT_UTC: i64 = 1_776_729_600;

#[test]
fn utc_z_suffix() {
    assert_eq!(parse_pdf_date_to_epoch("D:20260421120000Z"), Some(APR21_NOON_UTC));
}

#[test]
fn no_d_prefix_still_parses() {
    assert_eq!(parse_pdf_date_to_epoch("20260421120000Z"), Some(APR21_NOON_UTC));
}

#[test]
fn positive_offset_converts_to_utc() {
    // 14:00 +02 = 12:00 UTC.
    assert_eq!(parse_pdf_date_to_epoch("D:20260421140000+02'00'"), Some(APR21_NOON_UTC));
}

#[test]
fn negative_offset_converts_to_utc() {
    // 08:00 -04 = 12:00 UTC.
    assert_eq!(parse_pdf_date_to_epoch("D:20260421080000-04'00'"), Some(APR21_NOON_UTC));
}

#[test]
fn partial_date_defaults_zero_midnight_utc() {
    assert_eq!(parse_pdf_date_to_epoch("D:20260421"), Some(APR21_MIDNIGHT_UTC));
}

#[test]
fn epoch_itself() {
    assert_eq!(parse_pdf_date_to_epoch("D:19700101000000Z"), Some(0));
}

#[test]
fn rejects_garbage() {
    assert_eq!(parse_pdf_date_to_epoch(""), None);
    assert_eq!(parse_pdf_date_to_epoch("D:not-a-date"), None);
    assert_eq!(parse_pdf_date_to_epoch("D:"), None);
}

#[test]
fn rejects_invalid_month_day() {
    assert_eq!(parse_pdf_date_to_epoch("D:20260099"), None);
    assert_eq!(parse_pdf_date_to_epoch("D:20260400"), None);
}

#[test]
fn year_only_reads_as_new_year_midnight() {
    // 2026-01-01 00:00:00 UTC.
    assert_eq!(parse_pdf_date_to_epoch("D:2026"), Some(1_767_225_600));
    assert_eq!(parse_pdf_date_to_epoch("D:2026"), parse_pdf_date_to_epoch("D:20260101000000Z"));
}

#[test]
fn cut_short_dates_match_their_defaults() {
    assert_eq!(parse_pdf_date_to_epoch("D:202604"), parse_pdf_date_to_epoch("D:20260401000000"));
    assert_eq!(parse_pdf_date_to_epoch("D:2026042112"), parse_pdf_date_to_epoch("D:20260421120000"));
    assert_eq!(parse_pdf_date_to_epoch("D:202604211230"), parse_pdf_date_to_epoch("D:20260421123000"));
}

#[test]
fn prefix_is_optional_for_any_date() {
    for s in ["20260421120000Z", "2026", "19991231235959-05'30'", "garbage"] {
        assert_eq!(parse_pdf_date_to_epoch(s), parse_pdf_date_to_epoch(&format!("D:{s}")));
    }
}

#[test]
fn offset_minutes_with_and_without_apostrophe() {
    // 17:30 +05'30' = 12:00 UTC.
    assert_eq!(parse_pdf_date_to_epoch("D:20260421173000+05'30'"), Some(APR21_NOON_UTC));
    assert_eq!(parse_pdf_date_to_epoch("D:20260421173000+0530"), Some(APR21_NOON_UTC));
    // Hours alone: minutes read as zero.
    assert_eq!(parse_pdf_date_to_epoch("D:20260421140000+02"), Some(APR21_NOON_UTC));
    assert_eq!(parse_pdf_date_to_epoch("D:20260421140000+02'"), Some(APR21_NOON_UTC));
}

#[test]
fn offset_without_hours_is_rejected() {
    assert_eq!(parse_pdf_date_to_epoch("D:20260421140000+"), None);
    assert_eq!(parse_pdf_date_to_epoch("D:20260421140000-x1'00'"), None);
}

#[test]
fn unknown_offset_marker_or_trailing_text_is_rejected() {
    assert_eq!(parse_pdf_date_to_epoch("D:20260421120000?"), None);
    assert_eq!(parse_pdf_date_to_epoch("D:20260421120000Zjunk"), None);
    assert_eq!(parse_pdf_date_to_epoch("D:20260421140000+02'00'x"), None);
    assert_eq!(parse_pdf_date_to_epoch("D:20260421140000+02'0"), None);
    // A zero offset written after `Z` is still UTC; any other is not a date.
    assert_eq!(parse_pdf_date_to_epoch("D:20260421120000Z00'00'"), Some(APR21_NOON_UTC));
    assert_eq!(parse_pdf_date_to_epoch("D:20260421120000Z02'00'"), None);
}

#[test]
fn leap_day_and_before_epoch() {
    // 2024-02-29 00:00:00 UTC.
    assert_eq!(parse_pdf_date_to_epoch("D:20240229"), Some(1_709_164_800));
    // 1969-12-31 00:00:00 UTC.
    assert_eq!(parse_pdf_date_to_epoch("D:19691231"), Some(-86_400));
    // 0000-03-01 00:00:00 UTC.
    assert_eq!(parse_pdf_date_to_epoch("D:00000301"), Some(-62_162_035_200));
    // 9999-12-31 23:59:59 UTC.
    assert_eq!(parse_pdf_date_to_epoch("D:99991231235959Z"), Some(253_402_300_799));
}

#[test]
fn day_past_month_end_runs_on() {
    // February 31 of 2026 is March 3.
    assert_eq!(parse_pdf_date_to_epoch("D:20260231"), parse_pdf_date_to_epoch("D:20260303"));
}

#[test]
fn field_that_is_not_two_digits_is_rejected() {
    assert_eq!(parse_pdf_date_to_epoch("D:2026ab"), None);
    assert_eq!(parse_pdf_date_to_epoch("D:2026-04-21"), None);
    assert_eq!(parse_pdf_date_to_epoch("D:202604211"), None);
    assert_eq!(parse_pdf_date_to_epoch("D:2026042112Z"), None);
}

#[test]
fn later_dates_give_later_times() {
    let dates = [
        "19691231235959",
        "19700101000000",
        "20240228235959",
        "20240229000000",
        "20260421115959",
        "20260421120000",
        "20261231235959",
        "20270101000000",
    ];
    for pair in dates.windows(2) {
        let a = parse_pdf_date_to_epoch(&format!("D:{}Z", pair[0])).unwrap();
        let b = parse_pdf_date_to_epoch(&format!("D:{}Z", pair[1])).unwrap();
        assert!(a < b);
    }
}

#[test]
fn utc_marker_is_optional() {
    assert_eq!(parse_pdf_date_to_epoch("D:20260421120000"), parse_pdf_date_to_epoch("D:20260421120000Z"));
}

#[test]
fn days_follow_each_other_across_months_and_years() {
    let day = 86_400;
    let jan31 = parse_pdf_date_to_epoch("D:20260131").unwrap();
    assert_eq!(parse_pdf_date_to_epoch("D:20260201"), Some(jan31 + day));
    let feb28 = parse_pdf_date_to_epoch("D:20240228").unwrap();
    assert_eq!(parse_pdf_date_to_epoch("D:20240301"), Some(feb28 + 2 * day));
    let dec31 = parse_pdf_date_to_epoch("D:19991231").unwrap();
    assert_eq!(parse_pdf_date_to_epoch("D:20000101"), Some(dec31 + day));
    // 2000 is a leap year, 2100 is not.
    assert_eq!(
        parse_pdf_date_to_epoch("D:2001").unwrap() - parse_pdf_date_to_epoch("D:2000").unwrap(),
        366 * day
    );
    assert_eq!(
        parse_pdf_date_to_epoch("D:2101").unwrap() - parse_pdf_date_to_epoch("D:2100").unwrap(),
        365 * day
    );
}
