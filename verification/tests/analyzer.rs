use csfloat_monitor::steam_analyzer::{
    analyze_price_history, analyze_steam_sell_history, calculate_percentile, extract_sell_history,
    simple_moving_average, steam_date_str_to_datetime, AnalysisResult, PricePoint,
};

fn snapshot(percentiles: Vec<(u8, u64)>) -> AnalysisResult {
    AnalysisResult {
        rsd: Some(500_000),
        is_stable: Some(true),
        sold_per_week: Some(10),
        percentiles,
        percentiles_no_fee: vec![],
    }
}

#[test]
fn test_get_price_by_percentile_with_existing_percentile() {
    let analysis_result = snapshot(vec![(25, 10), (50, 20), (75, 30)]);
    let desired_percentile = 50;
    let expected_price = 20;
    assert_eq!(
        analysis_result.get_price_by_percentile(desired_percentile),
        Some(expected_price)
    );
}

#[test]
fn test_get_price_by_percentile_with_non_existing_percentile() {
    let analysis_result = snapshot(vec![(25, 10), (50, 20), (75, 30)]);
    let desired_percentile = 80;
    assert_eq!(analysis_result.get_price_by_percentile(desired_percentile), None);
}

#[test]
fn test_get_price_by_percentile_with_empty_percentiles() {
    let analysis_result = snapshot(vec![]);
    let desired_percentile = 50;
    assert_eq!(analysis_result.get_price_by_percentile(desired_percentile), None);
}

#[test]
fn test_calculate_percentile_with_existing_percentile() {
    // dollars 10..50, in millionths
    let data = vec![10_000_000, 20_000_000, 30_000_000, 40_000_000, 50_000_000];
    let percentile = 50;
    let expected_value = 30_000_000;
    assert_eq!(calculate_percentile(&data, percentile), Some(expected_value));
}

#[test]
fn test_calculate_percentile_with_non_existing_percentile() {
    let data = vec![10_000_000, 20_000_000, 30_000_000, 40_000_000, 50_000_000];
    let percentile = 80;
    assert_eq!(calculate_percentile(&data, percentile), Some(42_000_000));
}

#[test]
fn test_calculate_percentile_with_empty_data() {
    let data = vec![];
    let percentile = 50;
    assert_eq!(calculate_percentile(&data, percentile), None);
}

#[test]
fn test_calculate_percentile_with_single_value() {
    let data = vec![42_000_000];
    let percentile = 50;
    assert_eq!(calculate_percentile(&data, percentile), Some(42_000_000));
}

#[test]
fn test_calculate_percentile_with_fractional_index() {
    let data = vec![10_000_000, 20_000_000, 30_000_000, 40_000_000];
    let percentile = 60;
    // interpolated between 20 and 30 dollars: 28.0
    let expected_value = 28_000_000;
    assert_eq!(calculate_percentile(&data, percentile), Some(expected_value));
}

#[test]
fn test_simple_moving_average_window_sums() {
    let data = vec![100, 110, 90, 110];
    let sums = simple_moving_average(&data, 3);
    assert_eq!(sums, vec![300, 310]);
}

const HOUR: i64 = 3600;

fn point(now: i64, hours_ago: i64, price: u64, amount: u32) -> PricePoint {
    PricePoint { ts: now - hours_ago * HOUR, price, amount }
}

#[test]
fn test_analyze_too_few_points() {
    let now = 1_708_304_400;
    let points = vec![
        point(now, 1, 1_000_000, 5),
        point(now, 2, 1_000_000, 5),
        point(now, 3, 1_000_000, 5),
        point(now, 4, 1_000_000, 5),
    ];
    assert!(analyze_price_history(&points, now).is_none());
}

#[test]
fn test_analyze_unstable_series() {
    // a volatile 8-point series inside the band: 3-point moving-average
    // relative std-dev is about 0.033, above the 0.03 threshold
    let now = 1_708_304_400;
    let points = vec![
        point(now, 8, 900_000, 10),
        point(now, 7, 900_000, 10),
        point(now, 6, 1_100_000, 10),
        point(now, 5, 1_100_000, 10),
        point(now, 4, 900_000, 10),
        point(now, 3, 900_000, 10),
        point(now, 2, 1_100_000, 10),
        point(now, 1, 1_100_000, 10),
    ];
    let a = analyze_price_history(&points, now).unwrap();
    assert_eq!(a.is_stable, Some(false));
    assert_eq!(a.sold_per_week, Some(80));
    assert_eq!(a.percentiles.len(), 5);
    // every cached level is present
    assert!(a.get_price_by_percentile(60).is_some());
    assert!(a.get_price_by_percentile(80).is_some());
    assert!(a.get_price_by_percentile(61).is_none());
}

#[test]
fn test_analyze_steady_series_is_stable() {
    let now = 1_708_304_400;
    let points: Vec<PricePoint> =
        (1..=10).map(|h| point(now, h, 2_000_000, 3)).collect();
    let a = analyze_price_history(&points, now).unwrap();
    assert_eq!(a.is_stable, Some(true));
    assert_eq!(a.rsd, Some(0));
    assert_eq!(a.sold_per_week, Some(30));
    // a constant $2.00 series has every percentile at $2.00
    assert_eq!(a.get_price_by_percentile(60), Some(200));
}

#[test]
fn test_analyze_points_outside_window_dropped() {
    let now = 1_708_304_400;
    let mut points = vec![point(now, 10 * 24, 1_000_000, 100)];
    points.extend((1..=4).map(|h| point(now, h, 1_000_000, 5)));
    // only four points inside the seven-day window
    assert!(analyze_price_history(&points, now).is_none());
}

#[test]
fn test_steam_date_parsing() {
    assert_eq!(steam_date_str_to_datetime("Feb 19 2024 01: +0"), Some(1_708_304_400));
    assert_eq!(steam_date_str_to_datetime("Feb 12 2024 01: +0"), Some(1_707_699_600));
    assert_eq!(steam_date_str_to_datetime("not a date"), None);
    assert_eq!(steam_date_str_to_datetime("Feb 30 2024 01: +0"), None);
    assert_eq!(steam_date_str_to_datetime("Feb 19 2024 25: +0"), None);
}

#[test]
fn test_extract_sell_history_parses_points() {
    let page = "<html>\n\tvar line1=[[\"Feb 12 2024 01: +0\",1.5,\"100\"],[\"Feb 13 2024 01: +0\",2.25,\"50\"]];\n</html>";
    let points = extract_sell_history(page, 1_700_000_000);
    assert_eq!(points.len(), 2);
    assert_eq!(points[0].ts, 1_707_699_600);
    assert_eq!(points[0].price, 1_500_000);
    assert_eq!(points[0].amount, 100);
    assert_eq!(points[1].ts, 1_707_786_000);
    assert_eq!(points[1].price, 2_250_000);
    assert_eq!(points[1].amount, 50);
}

#[test]
fn test_extract_sell_history_cutoff_stops_at_old_point() {
    let page = "x var line1=[[\"Feb 12 2024 01: +0\",1.5,\"100\"],[\"Feb 13 2024 01: +0\",2.25,\"50\"]];";
    // the cutoff lies between the two points: only the newer one is kept
    let points = extract_sell_history(page, 1_707_700_000);
    assert_eq!(points.len(), 1);
    assert_eq!(points[0].price, 2_250_000);
}

#[test]
fn test_extract_sell_history_missing_marker() {
    assert_eq!(extract_sell_history("<html>nothing here</html>", 0).len(), 0);
}

#[test]
fn test_extract_sell_history_malformed_payload() {
    let page = "x var line1=[[\"Feb 12 2024 01: +0\",1.5,\"oops\"]];";
    assert_eq!(extract_sell_history(page, 0).len(), 0);
}

#[test]
fn test_analyze_steam_sell_history_end_to_end() {
    let now = 1_708_304_400; // Feb 19 2024 01:00
    let page = "<html>\n\tvar line1=[\
[\"Feb 14 2024 01: +0\",2.0,\"10\"],\
[\"Feb 15 2024 01: +0\",2.0,\"10\"],\
[\"Feb 16 2024 01: +0\",2.0,\"10\"],\
[\"Feb 17 2024 01: +0\",2.0,\"10\"],\
[\"Feb 18 2024 01: +0\",2.0,\"10\"]];\n</html>";
    let a = analyze_steam_sell_history(page, now).unwrap();
    assert_eq!(a.is_stable, Some(true));
    assert_eq!(a.sold_per_week, Some(50));
    assert_eq!(a.get_price_by_percentile(60), Some(200));
}
