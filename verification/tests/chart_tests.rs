use tdds_core::chart::{find_gaps, median_spacing, ChartColumns, Shape, DAY_MS, MAX_GAPS};

const NINE_THIRTY: i64 = 34_200_000;

#[test]
fn a_hole_in_an_intraday_file_is_reported() {
    let mut pts: Vec<i64> = (0..600).map(|s| NINE_THIRTY + s * 1_000).collect();
    let resume = NINE_THIRTY + 599_000 + 2 * 3_600_000;
    pts.extend((0..600).map(|s| resume + s * 1_000));

    let gaps = find_gaps(&pts, false);
    assert_eq!(gaps.len(), 1);
    assert_eq!(gaps[0].to_ms - gaps[0].from_ms, 2 * 3_600_000);
}

#[test]
fn a_complete_intraday_file_has_no_gaps() {
    let pts: Vec<i64> = (0..2_000).map(|s| NINE_THIRTY + s * 1_000).collect();
    assert!(find_gaps(&pts, false).is_empty());
}

#[test]
fn weekends_are_not_gaps_in_daily_data() {
    let day = |d: i64| d * DAY_MS;
    let pts = vec![day(0), day(1), day(4), day(5), day(9)];
    assert!(find_gaps(&pts, true).is_empty());
    let pts = vec![day(0), day(1), day(15), day(16)];
    assert_eq!(find_gaps(&pts, true).len(), 1);
}

/// The price rule of the chart series, which reads floating-point prices
/// and so stands in the program, not the library: this checks the shape
/// of that rule directly and exercises nothing of `tdds_core`.
#[test]
fn a_zero_price_is_no_trade_not_a_price() {
    let px = |v: f64| Some(v).filter(|v| *v > 0.0);
    assert_eq!(px(0.0), None);
    assert_eq!(px(109.43), Some(109.43));
}

#[test]
fn overnight_is_never_an_intraday_gap() {
    // Two sessions a day apart, each a minute of one-second rows.
    let mut pts: Vec<i64> = (0..60).map(|s| NINE_THIRTY + s * 1_000).collect();
    pts.extend((0..60).map(|s| DAY_MS + NINE_THIRTY + s * 1_000));
    assert!(find_gaps(&pts, false).is_empty());
}

#[test]
fn only_the_widest_gaps_are_reported_in_time_order() {
    // Regular one-second rows with twenty holes, the k-th of k+2 minutes.
    let mut pts: Vec<i64> = Vec::new();
    let mut t = NINE_THIRTY;
    for k in 0..20i64 {
        for _ in 0..100 {
            pts.push(t);
            t += 1_000;
        }
        t += (k + 2) * 60_000;
    }
    pts.push(t);
    let gaps = find_gaps(&pts, false);
    assert_eq!(gaps.len(), MAX_GAPS);
    // The widest twelve are the last twelve holes.
    for w in gaps.windows(2) {
        assert!(w[0].to_ms <= w[1].from_ms);
    }
    let widths: Vec<i64> = gaps.iter().map(|g| g.to_ms - g.from_ms).collect();
    for (i, w) in widths.iter().enumerate() {
        assert_eq!(*w, (i as i64 + 8 + 2) * 60_000 + 1_000);
    }
}

#[test]
fn ties_go_to_the_earlier_gap() {
    // Fourteen equal holes: the first twelve are kept.
    let mut pts: Vec<i64> = Vec::new();
    let mut t = 0i64;
    for _ in 0..14 {
        for _ in 0..50 {
            pts.push(t);
            t += 1_000;
        }
        t += 600_000;
    }
    pts.push(t);
    let gaps = find_gaps(&pts, false);
    assert_eq!(gaps.len(), 12);
    assert_eq!(gaps[0].from_ms, 49_000);
    assert!(gaps[11].to_ms < t - 600_000);
}

#[test]
fn too_few_rows_or_no_spacing_means_no_gaps() {
    assert!(find_gaps(&[0, 10_000_000], false).is_empty());
    assert!(find_gaps(&[5, 5, 5, 5], false).is_empty());
    assert!(find_gaps(&[], true).is_empty());
}

#[test]
fn the_median_spacing_is_the_middle_of_the_sorted_spacings() {
    assert_eq!(median_spacing(&[0, 10, 30, 60, 100]), Some(30));
    assert_eq!(median_spacing(&[0, 1, 2, 12]), Some(1));
    assert_eq!(median_spacing(&[7, 7, 7]), None);
    assert_eq!(median_spacing(&[]), None);
}

#[test]
fn the_columns_decide_the_shape() {
    let none = ChartColumns { open: false, high: false, low: false, close: false, price: false, bid: false, ask: false };
    assert_eq!(none.shape(), None);
    let ohlc = ChartColumns { open: true, high: true, low: true, close: true, ..none };
    assert_eq!(ohlc.shape(), Some(Shape::Candles));
    let price = ChartColumns { price: true, bid: true, ask: true, ..none };
    assert_eq!(price.shape(), Some(Shape::Line));
    let quotes = ChartColumns { bid: true, ask: true, ..none };
    assert_eq!(quotes.shape(), Some(Shape::Band));
    let half = ChartColumns { open: true, close: true, bid: true, ..none };
    assert_eq!(half.shape(), None);
}
