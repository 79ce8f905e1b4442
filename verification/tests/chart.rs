use rust_mai::parser::parse_osu_lines;
use rust_mai::types::WkrType;

fn lines_of(text: &[&str]) -> Vec<Vec<u8>> {
    text.iter().map(|l| l.as_bytes().to_vec()).collect()
}

#[test]
fn lane_one_record_yields_calibrated_target() {
    let lines = lines_of(&["[HitObjects]", "64,0,1000,1,0"]);
    let base: i64 = 50_000;
    let (widgets, displays) = parse_osu_lines(&lines, base, 400);
    assert_eq!(widgets.len(), 1);
    assert_eq!(displays.len(), 1);
    let w = &widgets[0];
    assert_eq!(w.id, 0);
    // ideal time = base + 1000 ms - 1000 ms load calibration
    assert_eq!(w.time_stamp, base + 1000 - 1000);
    assert_eq!(w.wkr_ppty, WkrType::Wkr1);
    let d = &displays[0];
    assert_eq!(d.id, 0);
    assert_eq!(d.time_hit, base + 1000);
    // the approach instant sits the approach span before the ideal time
    assert_eq!(d.time_stamp_display, base + 1000 - 1000 - 400);
    // earliest relevant time is the smaller of the two derived instants
    assert_eq!(d.time_stamp_general, base + 1000 - 1000 - 400);
    assert_eq!(d.place, WkrType::Wkr1);
    assert!(!d.deleted);
}

#[test]
fn unknown_lane_position_yields_no_target() {
    let lines = lines_of(&["[HitObjects]", "500,0,1000,1,0"]);
    let (widgets, displays) = parse_osu_lines(&lines, 0, 100);
    assert_eq!(widgets.len(), 0);
    assert_eq!(displays.len(), 0);
}

#[test]
fn records_before_the_marker_are_ignored() {
    let lines = lines_of(&["64,0,1000,1,0", "[HitObjects]", "192,0,2000,1,0"]);
    let (widgets, _) = parse_osu_lines(&lines, 0, 100);
    assert_eq!(widgets.len(), 1);
    assert_eq!(widgets[0].wkr_ppty, WkrType::Wkr2);
}

#[test]
fn comments_and_blank_lines_are_skipped() {
    let lines = lines_of(&[
        "",
        "// header chatter",
        "  [HitObjects]  ",
        "   ",
        "// 64,0,1,1,0",
        "320,0,3000,1,0",
    ]);
    let (widgets, _) = parse_osu_lines(&lines, 0, 100);
    assert_eq!(widgets.len(), 1);
    assert_eq!(widgets[0].wkr_ppty, WkrType::Wkr3);
}

#[test]
fn slider_start_bit_is_schedulable() {
    let lines = lines_of(&["[HitObjects]", "448,0,4000,128,0"]);
    let (widgets, _) = parse_osu_lines(&lines, 0, 100);
    assert_eq!(widgets.len(), 1);
    assert_eq!(widgets[0].wkr_ppty, WkrType::Wkr4);
}

#[test]
fn non_note_types_are_ignored() {
    let lines = lines_of(&["[HitObjects]", "64,0,4000,2,0", "64,0,4100,8,0"]);
    let (widgets, _) = parse_osu_lines(&lines, 0, 100);
    assert_eq!(widgets.len(), 0);
}

#[test]
fn short_records_are_ignored() {
    let lines = lines_of(&["[HitObjects]", "64,0,4000", "64"]);
    let (widgets, _) = parse_osu_lines(&lines, 0, 100);
    assert_eq!(widgets.len(), 0);
}

#[test]
fn malformed_numbers_fall_back_to_zero() {
    // time field unreadable: sentinel zero, the record still loads
    let lines = lines_of(&["[HitObjects]", "64,0,abc,1,0"]);
    let base: i64 = 9_000;
    let (widgets, _) = parse_osu_lines(&lines, base, 100);
    assert_eq!(widgets.len(), 1);
    assert_eq!(widgets[0].time_stamp, base + 0 - 1000);
    // x field unreadable: sentinel zero matches no lane
    let lines = lines_of(&["[HitObjects]", "6 4,0,1000,1,0"]);
    let (widgets, _) = parse_osu_lines(&lines, base, 100);
    assert_eq!(widgets.len(), 0);
    // type field overflowing an i32: sentinel zero, not schedulable
    let lines = lines_of(&["[HitObjects]", "64,0,1000,4294967297,0"]);
    let (widgets, _) = parse_osu_lines(&lines, base, 100);
    assert_eq!(widgets.len(), 0);
}

#[test]
fn signed_and_padded_numbers_parse() {
    let lines = lines_of(&["[HitObjects]", "+64,0,-0500,1,0"]);
    let base: i64 = 100_000;
    let (widgets, _) = parse_osu_lines(&lines, base, 100);
    assert_eq!(widgets.len(), 1);
    assert_eq!(widgets[0].wkr_ppty, WkrType::Wkr1);
    assert_eq!(widgets[0].time_stamp, base - 500 - 1000);
}

#[test]
fn ids_are_assigned_in_chart_order() {
    let lines = lines_of(&[
        "[HitObjects]",
        "64,0,1000,1,0",
        "192,0,2000,1,0",
        "320,0,3000,1,0",
    ]);
    let (widgets, displays) = parse_osu_lines(&lines, 0, 100);
    assert_eq!(widgets.len(), 3);
    for (k, w) in widgets.iter().enumerate() {
        assert_eq!(w.id, k);
        assert_eq!(displays[k].id, k);
    }
    assert!(widgets[0].time_stamp <= widgets[1].time_stamp);
    assert!(widgets[1].time_stamp <= widgets[2].time_stamp);
}

#[test]
fn earliest_relevant_time_takes_the_smaller_instant() {
    let lines = lines_of(&["[HitObjects]", "64,0,1000,1,0"]);
    let base: i64 = 50_000;
    // a positive approach span puts the approach instant first
    let (_, displays) = parse_osu_lines(&lines, base, 3000);
    let d = &displays[0];
    assert_eq!(d.time_stamp_display, base + 1000 - 1000 - 3000);
    assert_eq!(d.time_stamp_general, d.time_stamp_display);
    // a negative span puts the ideal time first
    let (widgets, displays) = parse_osu_lines(&lines, base, -3000);
    let d = &displays[0];
    assert_eq!(d.time_stamp_display, base + 1000 - 1000 + 3000);
    assert_eq!(d.time_stamp_general, widgets[0].time_stamp);
}
