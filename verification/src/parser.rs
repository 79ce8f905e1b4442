use crate::types::{Widget, WidgetForDisplay, WkrType};
use vstd::prelude::*;

verus! {

/// Milliseconds subtracted from every chart instant when a target's
/// ideal time is derived: the chart-load calibration.
pub const LOAD_CALIBRATION_MS: i64 = 1000;

/// The whitespace bytes a line is trimmed of: space, tab, CR, LF.
pub open spec fn is_ws(b: u8) -> bool {
    b == 32 || b == 9 || b == 13 || b == 10
}

/// A decimal digit byte.
pub open spec fn is_digit(b: u8) -> bool {
    48 <= b && b <= 57
}

/// Index of the first non-whitespace byte at or after `i`, or the length.
pub open spec fn scan_non_ws(s: Seq<u8>, i: int) -> int
    decreases s.len() - i,
{
    if i < 0 || i >= s.len() {
        s.len() as int
    } else if !is_ws(s[i]) {
        i
    } else {
        scan_non_ws(s, i + 1)
    }
}

/// One past the last non-whitespace byte strictly before `i`, or zero.
pub open spec fn scan_non_ws_back(s: Seq<u8>, i: int) -> int
    decreases i,
{
    if i <= 0 || i > s.len() {
        0
    } else if !is_ws(s[i - 1]) {
        i
    } else {
        scan_non_ws_back(s, i - 1)
    }
}

/// The line with leading and trailing whitespace removed.
pub open spec fn trimmed(s: Seq<u8>) -> Seq<u8> {
    let lo = scan_non_ws(s, 0);
    let hi = scan_non_ws_back(s, s.len() as int);
    if lo < hi {
        s.subrange(lo, hi)
    } else {
        Seq::empty()
    }
}

/// Index of the first comma at or after `i`, or the length.
pub open spec fn scan_comma(s: Seq<u8>, i: int) -> int
    decreases s.len() - i,
{
    if i < 0 || i >= s.len() {
        s.len() as int
    } else if s[i] == 44 {
        i
    } else {
        scan_comma(s, i + 1)
    }
}

/// Every byte is a decimal digit.
pub open spec fn all_digits(s: Seq<u8>) -> bool {
    forall|i: int| 0 <= i < s.len() ==> is_digit(#[trigger] s[i])
}

/// Value of a digit string read in base ten.
pub open spec fn dec_val(s: Seq<u8>) -> int
    decreases s.len(),
{
    if s.len() == 0 {
        0
    } else {
        dec_val(s.drop_last()) * 10 + (s.last() - 48)
    }
}

/// What a numeric chart field parses to: an optional sign followed by
/// digits, accepted only inside `[lo, hi]`; everything else falls back
/// to the sentinel zero.
pub open spec fn int_field(s: Seq<u8>, lo: int, hi: int) -> i64 {
    let ds = if s.len() > 0 && (s[0] == 45 || s[0] == 43) {
        s.drop_first()
    } else {
        s
    };
    let v = if s.len() > 0 && s[0] == 45 {
        -dec_val(ds)
    } else {
        dec_val(ds)
    };
    if ds.len() > 0 && all_digits(ds) && lo <= v && v <= hi {
        v as i64
    } else {
        0
    }
}

/// A digit string is never negative.
pub proof fn lemma_dec_val_nonneg(s: Seq<u8>)
    requires
        all_digits(s),
    ensures
        dec_val(s) >= 0,
    decreases s.len(),
{
    if s.len() > 0 {
        assert forall|i: int| 0 <= i < s.drop_last().len() implies is_digit(
            #[trigger] s.drop_last()[i],
        ) by {
            assert(s.drop_last()[i] == s[i]);
        }
        lemma_dec_val_nonneg(s.drop_last());
    }
}

/// Reading more digits never shrinks the value.
pub proof fn lemma_dec_val_take_le(s: Seq<u8>, k: int)
    requires
        all_digits(s),
        0 <= k <= s.len(),
    ensures
        0 <= dec_val(s.take(k)) <= dec_val(s),
    decreases s.len() - k,
{
    if k == s.len() {
        assert(s.take(k) =~= s);
        lemma_dec_val_nonneg(s);
    } else {
        lemma_dec_val_take_le(s, k + 1);
        assert(s.take(k + 1).drop_last() =~= s.take(k));
        assert(s.take(k + 1).last() == s[k]);
        assert forall|i: int| 0 <= i < s.take(k).len() implies is_digit(
            #[trigger] s.take(k)[i],
        ) by {
            assert(s.take(k)[i] == s[i]);
        }
        lemma_dec_val_nonneg(s.take(k));
        assert(dec_val(s.take(k + 1)) == dec_val(s.take(k)) * 10 + (s[k] - 48));
    }
}

/// The trim bounds of a line: first and one-past-last non-whitespace
/// positions.
fn trim_bounds(line: &Vec<u8>) -> (r: (usize, usize))
    ensures
        r.0 == scan_non_ws(line@, 0),
        r.1 == scan_non_ws_back(line@, line@.len() as int),
        r.0 <= line@.len(),
        r.1 <= line@.len(),
{
    let n = line.len();
    let mut lo: usize = 0;
    loop
        invariant
            lo <= n,
            n == line@.len(),
            scan_non_ws(line@, 0) == scan_non_ws(line@, lo as int),
        ensures
            lo == scan_non_ws(line@, 0),
        decreases n - lo,
    {
        if !(lo < n) {
            break ;
        }
        let b = line[lo];
        if !(b == 32 || b == 9 || b == 13 || b == 10) {
            break ;
        }
        lo += 1;
    }
    let mut hi: usize = n;
    loop
        invariant
            hi <= n,
            n == line@.len(),
            scan_non_ws_back(line@, n as int) == scan_non_ws_back(line@, hi as int),
        ensures
            hi == scan_non_ws_back(line@, line@.len() as int),
        decreases hi,
    {
        if !(hi > 0) {
            break ;
        }
        let b = line[hi - 1];
        if !(b == 32 || b == 9 || b == 13 || b == 10) {
            break ;
        }
        hi -= 1;
    }
    (lo, hi)
}

/// The first comma of the line at or after `from`, or the length.
fn find_comma(line: &Vec<u8>, from: usize) -> (r: usize)
    ensures
        r == scan_comma(line@, from as int),
        r <= line@.len(),
        from <= r || r == line@.len(),
{
    let n = line.len();
    let mut j: usize = if from > n {
        n
    } else {
        from
    };
    loop
        invariant
            j <= n,
            n == line@.len(),
            from <= j || j == n,
            scan_comma(line@, from as int) == scan_comma(line@, j as int),
        ensures
            j == scan_comma(line@, from as int),
        decreases n - j,
    {
        if !(j < n) {
            break ;
        }
        if line[j] == 44 {
            break ;
        }
        j += 1;
    }
    j
}

/// Parses the field `line[a..b]` as a decimal integer inside
/// `[lo, hi]`, with the sentinel zero for everything malformed or out
/// of range.
fn parse_int_field(line: &Vec<u8>, a: usize, b: usize, lo: i64, hi: i64) -> (r: i64)
    requires
        a <= b <= line@.len(),
    ensures
        r == int_field(line@.subrange(a as int, b as int), lo as int, hi as int),
{
    let ghost fld = line@.subrange(a as int, b as int);
    if a == b {
        return 0;
    }
    let first = line[a];
    let neg = first == 45;
    let ds_start: usize = if first == 45 || first == 43 {
        a + 1
    } else {
        a
    };
    let ghost ds = line@.subrange(ds_start as int, b as int);
    proof {
        if ds_start > a {
            assert(ds =~= fld.drop_first());
        } else {
            assert(ds =~= fld);
        }
    }
    if ds_start == b {
        return 0;
    }
    let mut m: u128 = 0;
    let mut j: usize = ds_start;
    loop
        invariant
            a < b,
            ds_start == a || ds_start == a + 1,
            ds_start < b,
            b <= line@.len(),
            fld == line@.subrange(a as int, b as int),
            ds == line@.subrange(ds_start as int, b as int),
            neg == (fld[0] == 45),
            ds_start == a + 1 ==> (fld[0] == 45 || fld[0] == 43) && ds == fld.drop_first(),
            ds_start == a ==> !(fld[0] == 45 || fld[0] == 43) && ds == fld,
            ds_start <= j <= b,
            m == dec_val(ds.take(j - ds_start)),
            all_digits(ds.take(j - ds_start)),
            m <= 0x8000_0000_0000_0000u128,
        ensures
            j == b,
        decreases b - j,
    {
        if !(j < b) {
            break ;
        }
        let byte = line[j];
        if byte < 48 || byte > 57 {
            proof {
                assert(ds[j - ds_start] == line@[j as int]);
                assert(!all_digits(ds));
                assert(fld.len() > 0);
                assert(fld[0] == line@[a as int]);
                assert(int_field(fld, lo as int, hi as int) == 0);
            }
            return 0;
        }
        let ghost k = j - ds_start;
        m = m * 10 + ((byte - 48) as u128);
        j += 1;
        proof {
            assert(ds.take(k + 1).drop_last() =~= ds.take(k));
            assert(ds.take(k + 1).last() == ds[k]);
            assert(ds[k] == line@[(ds_start + k) as int]);
            assert forall|i: int| 0 <= i < ds.take(k + 1).len() implies is_digit(
                #[trigger] ds.take(k + 1)[i],
            ) by {
                assert(ds.take(k + 1)[i] == ds[i]);
            }
            assert(j - ds_start == k + 1);
            assert(m == dec_val(ds.take(k + 1)));
        }
        if m > 0x8000_0000_0000_0000u128 {
            proof {
                if all_digits(ds) {
                    lemma_dec_val_take_le(ds, k + 1);
                    assert(dec_val(ds) > 0x8000_0000_0000_0000);
                    assert(fld.len() > 0);
                    assert(fld[0] == line@[a as int]);
                    if fld[0] == 45 {
                        assert(ds == fld.drop_first());
                        assert(-dec_val(ds) < lo as int);
                    } else if fld[0] == 43 {
                        assert(ds == fld.drop_first());
                        assert(dec_val(ds) > hi as int);
                    } else {
                        assert(ds == fld);
                        assert(dec_val(ds) > hi as int);
                    }
                    assert(int_field(fld, lo as int, hi as int) == 0);
                } else {
                    assert(int_field(fld, lo as int, hi as int) == 0);
                }
            }
            return 0;
        }
    }
    proof {
        assert(ds.take(j - ds_start) =~= ds);
    }
    if neg {
        let v: i64 = if m == 0x8000_0000_0000_0000u128 {
            i64::MIN
        } else {
            -(m as i64)
        };
        if lo <= v && v <= hi {
            v
        } else {
            0
        }
    } else {
        if m > (i64::MAX as u128) {
            0
        } else {
            let v = m as i64;
            if lo <= v && v <= hi {
                v
            } else {
                0
            }
        }
    }
}

/// The section marker that opens the hit-object part of a chart.
pub open spec fn marker_bytes() -> Seq<u8> {
    seq![91u8, 72u8, 105u8, 116u8, 79u8, 98u8, 106u8, 101u8, 99u8, 116u8, 115u8, 93u8]
}

/// A line the scanner passes over: blank once trimmed, or a comment.
pub open spec fn line_is_blank_or_comment(s: Seq<u8>) -> bool {
    trimmed(s).len() == 0 || (trimmed(s).len() >= 2 && trimmed(s)[0] == 47 && trimmed(s)[1] == 47)
}

/// A line that opens the hit-object section.
pub open spec fn line_is_marker(s: Seq<u8>) -> bool {
    trimmed(s) == marker_bytes()
}

/// The four recognized lane positions of the first record field.
pub open spec fn lane_of_x(x: i64) -> Option<WkrType> {
    if x == 64 {
        Option::Some(WkrType::Wkr1)
    } else if x == 192 {
        Option::Some(WkrType::Wkr2)
    } else if x == 320 {
        Option::Some(WkrType::Wkr3)
    } else if x == 448 {
        Option::Some(WkrType::Wkr4)
    } else {
        Option::None
    }
}

/// A schedulable record type: bit zero (circle) or bit seven
/// (slider start) of the type bitmask.
pub open spec fn is_note_type(t: i64) -> bool {
    (t & 1) == 1 || (t & 128) == 128
}

/// What one hit-object line contributes: the lane and chart instant of
/// a record with at least four fields, a schedulable type and a
/// recognized lane position; everything else contributes nothing.
pub open spec fn rec_of(line: Seq<u8>) -> Option<(WkrType, i64)> {
    let c0 = scan_comma(line, 0);
    let c1 = scan_comma(line, c0 + 1);
    let c2 = scan_comma(line, c1 + 1);
    let c3 = scan_comma(line, c2 + 1);
    if c2 >= line.len() {
        Option::None
    } else {
        let ty = int_field(line.subrange(c2 + 1, c3), -0x8000_0000, 0x7fff_ffff);
        let x = int_field(line.subrange(0, c0), -0x8000_0000, 0x7fff_ffff);
        if !is_note_type(ty) {
            Option::None
        } else {
            match lane_of_x(x) {
                Option::None => Option::None,
                Option::Some(lane) => Option::Some(
                    (
                        lane,
                        int_field(line.subrange(c1 + 1, c2), i64::MIN as int, i64::MAX as int),
                    ),
                ),
            }
        }
    }
}

/// The byte the marker holds at one position.
fn marker_byte_at(i: usize) -> (b: u8)
    requires
        i < 12,
    ensures
        marker_bytes().len() == 12,
        b == marker_bytes()[i as int],
{
    if i == 0 {
        91
    } else if i == 1 {
        72
    } else if i == 2 {
        105
    } else if i == 3 {
        116
    } else if i == 4 {
        79
    } else if i == 5 {
        98
    } else if i == 6 {
        106
    } else if i == 7 {
        101
    } else if i == 8 {
        99
    } else if i == 9 {
        116
    } else if i == 10 {
        115
    } else {
        93
    }
}

/// Whether `line[lo..hi]` spells the section marker.
fn is_marker_range(line: &Vec<u8>, lo: usize, hi: usize) -> (r: bool)
    requires
        lo <= hi && hi <= line@.len(),
    ensures
        r == (line@.subrange(lo as int, hi as int) == marker_bytes()),
{
    let ghost sub = line@.subrange(lo as int, hi as int);
    proof {
        assert(marker_bytes().len() == 12);
    }
    if hi - lo != 12 {
        proof {
            assert(sub.len() == hi - lo);
        }
        return false;
    }
    let mut i: usize = 0;
    loop
        invariant
            lo <= hi <= line@.len(),
            hi - lo == 12,
            i <= 12,
            sub == line@.subrange(lo as int, hi as int),
            forall|t: int| 0 <= t < i ==> line@[lo + t] == marker_bytes()[t],
        ensures
            i == 12,
        decreases 12 - i,
    {
        if !(i < 12) {
            break ;
        }
        let expect = marker_byte_at(i);
        if line[lo + i] != expect {
            proof {
                assert(sub[i as int] == line@[(lo + i) as int]);
                assert(sub[i as int] != marker_bytes()[i as int]);
            }
            return false;
        }
        i += 1;
    }
    proof {
        assert(sub =~= marker_bytes());
    }
    true
}

/// How the section scanner treats one chart line.
#[derive(Debug, Clone, Copy, PartialEq, Eq, Structural)]
enum LineKind {
    Skip,
    Marker,
    Payload,
}

/// Sorts one line into skipped, section marker, or payload.
fn classify_line(line: &Vec<u8>) -> (k: LineKind)
    ensures
        (k is Skip) == line_is_blank_or_comment(line@),
        (k is Marker) == (!line_is_blank_or_comment(line@) && line_is_marker(line@)),
        (k is Payload) == (!line_is_blank_or_comment(line@) && !line_is_marker(line@)),
{
    let (lo, hi) = trim_bounds(line);
    if lo >= hi {
        proof {
            assert(trimmed(line@).len() == 0);
        }
        return LineKind::Skip;
    }
    let ghost tr = line@.subrange(lo as int, hi as int);
    proof {
        assert(trimmed(line@) == tr);
    }
    if hi - lo >= 2 && line[lo] == 47 && line[lo + 1] == 47 {
        proof {
            assert(tr[0] == line@[lo as int]);
            assert(tr[1] == line@[lo as int + 1]);
        }
        return LineKind::Skip;
    }
    proof {
        assert(tr[0] == line@[lo as int]);
        if tr.len() >= 2 {
            assert(tr[1] == line@[lo as int + 1]);
        }
        assert(!line_is_blank_or_comment(line@));
    }
    if is_marker_range(line, lo, hi) {
        LineKind::Marker
    } else {
        LineKind::Payload
    }
}

/// Parses one payload line of the hit-object section.
fn parse_record_line(line: &Vec<u8>) -> (r: Option<(WkrType, i64)>)
    ensures
        r == rec_of(line@),
{
    let n = line.len();
    let c0 = find_comma(line, 0);
    if c0 >= n {
        return Option::None;
    }
    let c1 = find_comma(line, c0 + 1);
    if c1 >= n {
        return Option::None;
    }
    let c2 = find_comma(line, c1 + 1);
    if c2 >= n {
        return Option::None;
    }
    let c3 = find_comma(line, c2 + 1);
    let ty = parse_int_field(line, c2 + 1, c3, -0x8000_0000i64, 0x7fff_ffffi64);
    if !((ty & 1) == 1 || (ty & 128) == 128) {
        return Option::None;
    }
    let x = parse_int_field(line, 0, c0, -0x8000_0000i64, 0x7fff_ffffi64);
    let lane = if x == 64 {
        WkrType::Wkr1
    } else if x == 192 {
        WkrType::Wkr2
    } else if x == 320 {
        WkrType::Wkr3
    } else if x == 448 {
        WkrType::Wkr4
    } else {
        return Option::None;
    };
    let t = parse_int_field(line, c1 + 1, c2, i64::MIN, i64::MAX);
    Option::Some((lane, t))
}

/// The records the hit-object section yields, scanning from line `i`
/// with the section flag `in_hit`.
pub open spec fn recs_from(lines: Seq<Seq<u8>>, i: int, in_hit: bool) -> Seq<(WkrType, i64)>
    decreases lines.len() - i,
{
    if i < 0 || i >= lines.len() {
        Seq::empty()
    } else if line_is_blank_or_comment(lines[i]) {
        recs_from(lines, i + 1, in_hit)
    } else if line_is_marker(lines[i]) {
        recs_from(lines, i + 1, true)
    } else if !in_hit {
        recs_from(lines, i + 1, false)
    } else {
        match rec_of(lines[i]) {
            Option::None => recs_from(lines, i + 1, true),
            Option::Some(r) => seq![r] + recs_from(lines, i + 1, true),
        }
    }
}

/// Every record a chart yields, in chart order.
pub open spec fn chart_recs(lines: Seq<Seq<u8>>) -> Seq<(WkrType, i64)> {
    recs_from(lines, 0, false)
}

/// The machine-limit condition on a chart: every instant derived from a
/// record fits an `i64` millisecond count.
pub open spec fn chart_times_fit(rs: Seq<(WkrType, i64)>, base: int, approach: int) -> bool {
    forall|k: int|
        #![trigger rs[k]]
        0 <= k < rs.len() ==> {
            &&& i64::MIN <= base + rs[k].1 <= i64::MAX
            &&& i64::MIN <= base + rs[k].1 - LOAD_CALIBRATION_MS <= i64::MAX
            &&& i64::MIN <= base + rs[k].1 - LOAD_CALIBRATION_MS - approach <= i64::MAX
        }
}

/// The target the `k`-th chart record yields: its ideal time is the
/// chart instant anchored at `base`, shifted by the load calibration.
pub open spec fn widget_of(k: int, rec: (WkrType, i64), base: int) -> Widget {
    Widget {
        id: k as usize,
        time_stamp: (base + rec.1 - LOAD_CALIBRATION_MS) as i64,
        wkr_ppty: rec.0,
    }
}

/// The display entry the `k`-th chart record yields: the approach
/// instant sits the approach span before the calibrated ideal time,
/// and the earliest relevant time is the smaller of those two.
pub open spec fn display_of(k: int, rec: (WkrType, i64), base: int, approach: int) -> WidgetForDisplay {
    let hit = base + rec.1;
    let widget_time = hit - LOAD_CALIBRATION_MS;
    let display_time = widget_time - approach;
    WidgetForDisplay {
        id: k as usize,
        time_stamp_general: (if widget_time < display_time {
            widget_time
        } else {
            display_time
        }) as i64,
        time_stamp_display: display_time as i64,
        time_hit: hit as i64,
        place: rec.0,
        deleted: false,
    }
}

/// Loads a chart from its text lines: one target and one display entry
/// per schedulable record of the hit-object section, ids assigned in
/// chart order. `base_time` anchors chart instants on the session
/// clock; `approach_time_ms` says how long before its ideal time an
/// entry starts to approach.
pub fn parse_osu_lines(lines: &Vec<Vec<u8>>, base_time: i64, approach_time_ms: i64) -> (r: (
    Vec<Widget>,
    Vec<WidgetForDisplay>,
))
    requires
        chart_times_fit(chart_recs(lines.deep_view()), base_time as int, approach_time_ms as int),
    ensures
        r.0@.len() == chart_recs(lines.deep_view()).len(),
        r.1@.len() == chart_recs(lines.deep_view()).len(),
        forall|k: int|
            #![trigger r.0@[k]]
            0 <= k < chart_recs(lines.deep_view()).len() ==> r.0@[k] == widget_of(
                k,
                chart_recs(lines.deep_view())[k],
                base_time as int,
            ),
        forall|k: int|
            #![trigger r.1@[k]]
            0 <= k < chart_recs(lines.deep_view()).len() ==> r.1@[k] == display_of(
                k,
                chart_recs(lines.deep_view())[k],
                base_time as int,
                approach_time_ms as int,
            ),
{
    let ghost lv = lines.deep_view();
    let mut widgets: Vec<Widget> = Vec::new();
    let mut displays: Vec<WidgetForDisplay> = Vec::new();
    let mut in_hit = false;
    let mut i: usize = 0;
    while i < lines.len()
        invariant
            i <= lines.len(),
            lv == lines.deep_view(),
            lv.len() == lines@.len(),
            widgets@.len() == displays@.len(),
            widgets@.len() <= chart_recs(lv).len(),
            chart_times_fit(chart_recs(lv), base_time as int, approach_time_ms as int),
            chart_recs(lv) == chart_recs(lv).take(widgets@.len() as int) + recs_from(
                lv,
                i as int,
                in_hit,
            ),
            forall|k: int|
                #![trigger widgets@[k]]
                0 <= k < widgets@.len() ==> widgets@[k] == widget_of(
                    k,
                    chart_recs(lv)[k],
                    base_time as int,
                ),
            forall|k: int|
                #![trigger displays@[k]]
                0 <= k < displays@.len() ==> displays@[k] == display_of(
                    k,
                    chart_recs(lv)[k],
                    base_time as int,
                    approach_time_ms as int,
                ),
        decreases lines@.len() - i,
    {
        let line = &lines[i];
        proof {
            assert(lv[i as int] =~= lines@[i as int]@);
        }
        let kind = classify_line(line);
        match kind {
            LineKind::Skip => {
                proof {
                    assert(recs_from(lv, i as int, in_hit) == recs_from(lv, i + 1, in_hit));
                }
            },
            LineKind::Marker => {
                proof {
                    assert(recs_from(lv, i as int, in_hit) == recs_from(lv, i + 1, true));
                }
                in_hit = true;
            },
            LineKind::Payload => {
                if in_hit {
                    match parse_record_line(line) {
                        Option::None => {
                            proof {
                                assert(recs_from(lv, i as int, true) == recs_from(lv, i + 1, true));
                            }
                        },
                        Option::Some((lane, t)) => {
                            let ghost n = widgets@.len() as int;
                            proof {
                                assert(recs_from(lv, i as int, true) == seq![(lane, t)]
                                    + recs_from(lv, i + 1, true));
                                assert(chart_recs(lv).take(n).len() == n);
                                assert(chart_recs(lv)[n] == (lane, t));
                            }
                            let idc = widgets.len();
                            let hit = base_time + t;
                            let widget_time = hit - LOAD_CALIBRATION_MS;
                            let display_time = widget_time - approach_time_ms;
                            let tsg = if widget_time < display_time {
                                widget_time
                            } else {
                                display_time
                            };
                            widgets.push(Widget { id: idc, time_stamp: widget_time, wkr_ppty: lane });
                            displays.push(
                                WidgetForDisplay {
                                    id: idc,
                                    time_stamp_general: tsg,
                                    time_stamp_display: display_time,
                                    time_hit: hit,
                                    place: lane,
                                    deleted: false,
                                },
                            );
                            proof {
                                assert(chart_recs(lv).take(n + 1) =~= chart_recs(lv).take(n)
                                    + seq![(lane, t)]);
                                assert(chart_recs(lv) =~= chart_recs(lv).take(n + 1) + recs_from(
                                    lv,
                                    i + 1,
                                    true,
                                ));
                            }
                        },
                    }
                } else {
                    proof {
                        assert(recs_from(lv, i as int, false) == recs_from(lv, i + 1, false));
                    }
                }
            },
        }
        i += 1;
    }
    proof {
        assert(recs_from(lv, i as int, in_hit) == Seq::<(WkrType, i64)>::empty());
        assert(chart_recs(lv) =~= chart_recs(lv).take(widgets@.len() as int));
        assert(chart_recs(lv).len() == widgets@.len());
    }
    (widgets, displays)
}

} // verus!
