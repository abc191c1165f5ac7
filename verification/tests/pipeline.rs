use stock_chart::chart::{make_label, nearest_row, render, StockData, StockVisualizer};
use stock_chart::errors::ChartError;
use stock_chart::rat::Rat;
use stock_chart::regress::{LinearRegressionCalculator, Point};
use stock_chart::scale::{build_scale_table, calc_max_value, normalize_and_round_height};
use stock_chart::series::{avg_by_step, Record, ReducedRecord};
use stock_chart::term::parse_tput_output;

fn record(date: &str, open: u64) -> Record {
    Record { date: String::from(date), open, high: 0, low: 0, close: 0 }
}

fn ten_records() -> Vec<Record> {
    let mut v: Vec<Record> = Vec::new();
    let mut i: u64 = 1;
    while i <= 10 {
        v.push(record(&format!("d{}", i), i));
        i += 1;
    }
    v
}

#[test]
fn reduce_ten_by_two_gives_exact_means() {
    // Opens 1..=10 with step 2 reduce to the means 1.5, 3.5, 5.5, 7.5, 9.5.
    let records = ten_records();
    let reduced = avg_by_step(&records, 2);
    assert_eq!(reduced.len(), 5);
    let expected_sums: [i128; 5] = [3, 7, 11, 15, 19];
    for (k, r) in reduced.iter().enumerate() {
        assert_eq!(r.open.num, expected_sums[k]);
        assert_eq!(r.open.den, 2);
    }
    // Each bucket is labeled with the date of its last record.
    assert_eq!(reduced[0].date, "d2");
    assert_eq!(reduced[4].date, "d10");
}

#[test]
fn reduce_drops_trailing_partial_bucket() {
    let records = ten_records();
    let reduced = avg_by_step(&records, 3);
    assert_eq!(reduced.len(), 3); // floor(10 / 3)
    assert_eq!(reduced[0].open.num, 6); // 1 + 2 + 3
    assert_eq!(reduced[0].open.den, 3);
    assert_eq!(reduced[2].open.num, 24); // 7 + 8 + 9; record 10 is dropped
}

#[test]
fn reduce_shorter_than_step_is_empty() {
    let records = ten_records();
    let reduced = avg_by_step(&records, 11);
    assert_eq!(reduced.len(), 0);
}

#[test]
fn max_of_empty_is_zero() {
    let data: Vec<ReducedRecord> = Vec::new();
    let m = calc_max_value(&data);
    assert_eq!((m.num, m.den), (0, 1));
}

#[test]
fn max_is_an_element_and_bounds_all() {
    let data = vec![
        ReducedRecord { date: String::from("a"), open: Rat { num: 3, den: 2 } },
        ReducedRecord { date: String::from("b"), open: Rat { num: 1, den: 1 } },
        ReducedRecord { date: String::from("c"), open: Rat { num: 5, den: 4 } },
    ];
    let m = calc_max_value(&data);
    assert_eq!((m.num, m.den), (3, 2));
    for r in &data {
        assert!(r.open.num * m.den <= m.num * r.open.den);
    }
}

#[test]
fn normalize_height_zero_is_division_error() {
    let data: Vec<ReducedRecord> = Vec::new();
    let max = Rat { num: 5, den: 1 };
    let r = normalize_and_round_height(&data, max, 0);
    assert_eq!(r.unwrap_err(), ChartError::Division);
}

#[test]
fn normalize_zero_max_is_division_error() {
    let data: Vec<ReducedRecord> = Vec::new();
    let max = Rat { num: 0, den: 1 };
    let r = normalize_and_round_height(&data, max, 10);
    assert_eq!(r.unwrap_err(), ChartError::Division);
}

#[test]
fn normalize_rounds_to_row_offsets() {
    // max = 10, height = 5 => delta = 2; opens 10, 5, 3 => rows 5, 3 (2.5
    // rounds up), 2 (1.5 rounds up).
    let data = vec![
        ReducedRecord { date: String::from("a"), open: Rat { num: 10, den: 1 } },
        ReducedRecord { date: String::from("b"), open: Rat { num: 5, den: 1 } },
        ReducedRecord { date: String::from("c"), open: Rat { num: 3, den: 1 } },
    ];
    let max = Rat { num: 10, den: 1 };
    let (normed, norm) = normalize_and_round_height(&data, max, 5).unwrap();
    assert_eq!((norm.num, norm.den), (10, 5));
    let rows: Vec<usize> = normed.iter().map(|r| r.row).collect();
    assert_eq!(rows, vec![5, 3, 2]);
    assert_eq!(normed[0].date, "a");
}

#[test]
fn scale_table_is_strictly_decreasing() {
    let max = Rat { num: 10, den: 1 };
    let norm = Rat { num: 2, den: 1 };
    let table = build_scale_table(max, norm, 3);
    assert_eq!(table.len(), 3);
    let nums: Vec<i128> = table.iter().map(|e| e.num).collect();
    assert_eq!(nums, vec![10, 8, 6]);
    for e in &table {
        assert_eq!(e.den, 1);
    }
    for w in table.windows(2) {
        // table[i] > table[i + 1] as rationals.
        assert!(w[1].num * w[0].den < w[0].num * w[1].den);
    }
}

#[test]
fn fit_recovers_line_two_x_plus_three() {
    let pts = vec![Point::new(0, 3), Point::new(1, 5), Point::new(2, 7)];
    let mut lrc = LinearRegressionCalculator::default();
    lrc.calculate(pts).unwrap();
    let (a, b) = lrc.describe();
    // a == 2 and b == 3 exactly, as rationals.
    assert_eq!(a.num, 2 * a.den);
    assert_eq!(b.num, 3 * b.den);
    assert!(a.den > 0 && b.den > 0);
}

#[test]
fn fit_identical_x_is_degenerate() {
    let pts = vec![Point::new(2, 1), Point::new(2, 5), Point::new(2, 9)];
    let mut lrc = LinearRegressionCalculator::default();
    let r = lrc.calculate(pts);
    assert_eq!(r.unwrap_err(), ChartError::DegenerateInput);
    // The coefficients are left untouched.
    let (a, b) = lrc.describe();
    assert_eq!((a.num, a.den), (0, 1));
    assert_eq!((b.num, b.den), (0, 1));
}

#[test]
fn fit_single_point_is_degenerate() {
    let pts = vec![Point::new(0, 4)];
    let mut lrc = LinearRegressionCalculator::default();
    assert_eq!(lrc.calculate(pts).unwrap_err(), ChartError::DegenerateInput);
}

#[test]
fn label_has_two_decimals() {
    let v = Rat { num: 123, den: 10 }; // 12.3
    assert_eq!(make_label(&v), b"12.30".to_vec());
}

#[test]
fn label_pads_to_five_bytes() {
    let v = Rat { num: 5, den: 1 };
    assert_eq!(make_label(&v), b"5.00 ".to_vec());
}

#[test]
fn label_rounds_hundredths() {
    let v = Rat { num: 1, den: 3 }; // 0.333... -> 0.33
    assert_eq!(make_label(&v), b"0.33 ".to_vec());
    let w = Rat { num: 2, den: 3 }; // 0.666... -> 0.67
    assert_eq!(make_label(&w), b"0.67 ".to_vec());
}

#[test]
fn nearest_row_clamps_to_grid() {
    let max = Rat { num: 10, den: 1 };
    // The maximum itself sits on the top row.
    assert_eq!(nearest_row(&max, &Rat { num: 10, den: 1 }, 5), 0);
    // A value of zero sits on the bottom row.
    assert_eq!(nearest_row(&max, &Rat { num: 0, den: 1 }, 5), 4);
    // delta = 2: value 7 is nearest to row 1 (price 8) and ties go to the
    // smaller row index: value 7 is equidistant from rows 1 and 2.
    assert_eq!(nearest_row(&max, &Rat { num: 7, den: 1 }, 5), 1);
    // Value 5 is nearest to row 2 (price 6) against row 3 (price 4)? Both
    // are one away; the tie goes to row 2.
    assert_eq!(nearest_row(&max, &Rat { num: 5, den: 1 }, 5), 2);
}

#[test]
fn nearest_row_matches_scan_of_scale_table() {
    // The inversion must pick the same row as a linear nearest-price scan
    // over the scale table, with ties going to the smaller row index.
    let max = Rat { num: 10, den: 1 };
    let height: usize = 5;
    let norm = Rat { num: 10, den: 5 };
    let table = build_scale_table(max, norm, height);
    let mut num: i128 = 0;
    while num <= 20 {
        let s = Rat { num, den: 2 }; // prices 0, 0.5, ..., 10
        let mut best: usize = 0;
        for (k, e) in table.iter().enumerate() {
            // |s - e| < |s - table[best]| by cross-multiplication.
            let d_k = (s.num * e.den - e.num * s.den).abs() * table[best].den;
            let d_b = (s.num * table[best].den - table[best].num * s.den).abs() * e.den;
            if d_k < d_b {
                best = k;
            }
        }
        assert_eq!(nearest_row(&max, &s, height), best, "at s = {}/2", num);
        num += 1;
    }
}

#[test]
fn render_composites_label_separator_and_cells() {
    // Two columns with rows 2 and 1, a flat trend line at the maximum
    // (marker on row 0), height 2, table prices 4 and 2.
    let series = vec![
        stock_chart::scale::NormalizedRecord { date: String::from("a"), row: 2 },
        stock_chart::scale::NormalizedRecord { date: String::from("b"), row: 1 },
    ];
    let model = LinearRegressionCalculator { a: Rat { num: 0, den: 1 }, b: Rat { num: 4, den: 1 } };
    let table = vec![Rat { num: 4, den: 1 }, Rat { num: 2, den: 1 }];
    let max = Rat { num: 4, den: 1 };
    let grid = render(&series, &model, &table, max, 2);
    assert_eq!(grid.len(), 2);
    // Row 0: label "4.00 ", separator, marker over both columns (the trend
    // line is constant at the maximum).
    assert_eq!(grid[0], b"4.00 |++".to_vec());
    // Row 1: label "2.00 ", first bar reaches (2 - 1 <= 2), second too.
    assert_eq!(grid[1], b"2.00 |##".to_vec());
}

#[test]
fn visualize_full_pipeline_and_is_deterministic() {
    let make = || StockVisualizer::new(
        11,
        4,
        StockData { name: String::from("ALL"), records: ten_records() },
    );
    let first = make().visualize().unwrap();
    let second = make().visualize().unwrap();
    assert_eq!(first, second);
    assert_eq!(first.len(), 4);
    // width 11 leaves 5 columns; step = 10 / 5 = 2 reduces to 5 columns.
    for row in &first {
        assert_eq!(row.iter().filter(|&&b| b == b'|').count(), 1);
        let bar = row.iter().position(|&b| b == b'|').unwrap();
        assert_eq!(row.len() - bar - 1, 5);
    }
}

#[test]
fn visualize_width_too_small_is_environment_error() {
    let sv = StockVisualizer::new(
        6,
        4,
        StockData { name: String::new(), records: ten_records() },
    );
    assert_eq!(sv.visualize().unwrap_err(), ChartError::Environment);
}

#[test]
fn visualize_zero_step_is_division_error() {
    // Three records on a wide terminal: step = 3 / (30 - 6) = 0.
    let records = vec![record("a", 1), record("b", 2), record("c", 3)];
    let sv = StockVisualizer::new(30, 4, StockData { name: String::new(), records });
    assert_eq!(sv.visualize().unwrap_err(), ChartError::Division);
}

#[test]
fn visualize_all_zero_prices_is_division_error() {
    let records = vec![record("a", 0), record("b", 0), record("c", 0), record("d", 0)];
    let sv = StockVisualizer::new(10, 4, StockData { name: String::new(), records });
    assert_eq!(sv.visualize().unwrap_err(), ChartError::Division);
}

#[test]
fn visualize_single_column_is_degenerate() {
    let records = vec![record("a", 1), record("b", 2)];
    let sv = StockVisualizer::new(7, 4, StockData { name: String::new(), records });
    assert_eq!(sv.visualize().unwrap_err(), ChartError::DegenerateInput);
}

#[test]
fn parse_tput_output_reads_decimal() {
    assert_eq!(parse_tput_output(&b"123".to_vec()), 123);
    assert_eq!(parse_tput_output(&b"0".to_vec()), 0);
    assert_eq!(parse_tput_output(&b"42".to_vec()), 42);
}
