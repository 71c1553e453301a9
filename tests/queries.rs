use phone_cells::decimal::Decimal;
use phone_cells::fields::{FieldFormatError, ReleaseStatus};
use phone_cells::load::{load_records, records_from_rows, LoadError, RowFailure};
use phone_cells::queries::{
    find_busiest_year, find_heaviest_oem, find_mono_feature, find_year_mismatch,
    weight_tallies, YearTally,
};
use phone_cells::record::{make_record, Record, RowError};

fn row(cells: [&str; 12]) -> Vec<String> {
    cells.iter().map(|c| c.to_string()).collect()
}

fn phone(maker: &str, model: &str, announced: &str, status: &str, weight: &str, sensors: &str) -> Record {
    make_record(&row([
        maker, model, announced, status, "-", weight, "Yes", "-", "-", "-", sensors, "-",
    ]))
    .unwrap()
}

#[test]
fn record_from_row() {
    let r = make_record(&row([
        "Acme",
        "X1",
        "2010, March",
        "Discontinued",
        "-",
        "150 g",
        "Mini-SIM",
        "TFT",
        "2.4 inches",
        "240 x 320 pixels",
        "Accelerometer",
        "Symbian 9.4, S60",
    ]))
    .unwrap();
    assert_eq!(r.manufacturer, "Acme");
    assert_eq!(r.model, "X1");
    assert_eq!(r.announced_year, Some(2010));
    assert_eq!(r.release_status, Some(ReleaseStatus::Discontinued));
    assert_eq!(r.body_dimensions, None);
    assert_eq!(r.body_weight_grams, Some(Decimal { micros: 150_000_000 }));
    assert_eq!(r.sim_type, Some(String::from("Mini-SIM")));
    assert_eq!(r.display_type, Some(String::from("TFT")));
    assert_eq!(r.display_size_inches, Some(Decimal { micros: 2_400_000 }));
    assert_eq!(r.display_resolution, Some(String::from("240 x 320 pixels")));
    assert_eq!(r.sensors, Some(String::from("Accelerometer")));
    assert_eq!(r.platform_os, Some(String::from("Symbian 9.4")));
}

#[test]
fn names_are_verbatim() {
    let r = phone("  Acme Co. ", " X-1, mini", "-", "-", "-", "-");
    assert_eq!(r.manufacturer, "  Acme Co. ");
    assert_eq!(r.model, " X-1, mini");
}

#[test]
fn short_row_is_shape_error() {
    let cells: Vec<String> = vec![String::from("Acme"), String::from("X1")];
    assert!(matches!(make_record(&cells), Err(RowError::Shape)));
}

#[test]
fn malformed_weight_is_field_error() {
    let r = make_record(&row([
        "Acme", "X1", "2010", "2010", "-", "heavy g", "-", "-", "-", "-", "-", "-",
    ]));
    assert!(matches!(r, Err(RowError::Field(FieldFormatError::Weight))));
}

#[test]
fn heaviest_average_manufacturer() {
    let records = vec![
        phone("Acme", "X1", "2010", "2010", "150 g", "-"),
        phone("Acme", "X2", "2012", "2012", "250 g", "-"),
    ];
    let best = find_heaviest_oem(&records).unwrap();
    assert_eq!(best.manufacturer, "Acme");
    assert_eq!(best.total_micros, 400_000_000);
    assert_eq!(best.count, 2);
    let mean = best.total_micros as f64 / best.count as f64 / 1_000_000.0;
    assert_eq!(mean, 200.0);
}

#[test]
fn heaviest_ignores_unweighed_and_breaks_ties_first() {
    let records = vec![
        phone("Beta", "B1", "-", "-", "-", "-"),
        phone("Acme", "A1", "-", "-", "100 g", "-"),
        phone("Beta", "B2", "-", "-", "100 g", "-"),
        phone("Acme", "A2", "-", "-", "100 g", "-"),
        phone("Gamma", "G1", "-", "-", "99.5 g", "-"),
    ];
    let best = find_heaviest_oem(&records).unwrap();
    assert_eq!(best.manufacturer, "Acme");
    assert_eq!(best.count, 2);
    let tallies = weight_tallies(&records);
    assert_eq!(tallies.len(), 3);
    assert_eq!(tallies[1].manufacturer, "Beta");
    assert_eq!(tallies[1].count, 1);
    assert_eq!(tallies[2].total_micros, 99_500_000);
}

#[test]
fn heaviest_picks_larger_mean() {
    let records = vec![
        phone("Acme", "A1", "-", "-", "100 g", "-"),
        phone("Beta", "B1", "-", "-", "100.000001 g", "-"),
    ];
    assert_eq!(find_heaviest_oem(&records).unwrap().manufacturer, "Beta");
    let records = vec![
        phone("Acme", "A1", "-", "-", "100 g", "-"),
        phone("Beta", "B1", "-", "-", "100.000001 g", "-"),
        phone("Acme", "A2", "-", "-", "100.5 g", "-"),
    ];
    assert_eq!(find_heaviest_oem(&records).unwrap().manufacturer, "Acme");
}

#[test]
fn heaviest_of_nothing() {
    assert!(find_heaviest_oem(&Vec::new()).is_none());
    let records = vec![phone("Acme", "A1", "-", "-", "0 g", "-")];
    assert!(find_heaviest_oem(&records).is_none());
}

#[test]
fn year_mismatch_reported() {
    let records = vec![
        phone("Acme", "X1", "2010", "2012", "-", "-"),
        phone("Acme", "X2", "2010", "Discontinued", "-", "-"),
        phone("Acme", "X3", "2011", "2011", "-", "-"),
        phone("Beta", "Y1", "-", "2013", "-", "-"),
        phone("Beta", "Y2", "2014", "Cancelled", "-", "-"),
    ];
    let found = find_year_mismatch(&records);
    assert_eq!(found.len(), 1);
    assert_eq!(found[0].manufacturer, "Acme");
    assert_eq!(found[0].model, "X1");
    assert_eq!((found[0].announced, found[0].released), (2010, 2012));
}

#[test]
fn mono_feature_counted() {
    let records = vec![
        phone("Acme", "X1", "-", "-", "-", "Accelerometer"),
        phone("Acme", "X2", "-", "-", "-", "Accelerometer, gyro"),
        phone("Acme", "X3", "-", "-", "-", "V1"),
        phone("Acme", "X4", "-", "-", "-", "12"),
    ];
    assert_eq!(find_mono_feature(&records), 2);
    assert_eq!(find_mono_feature(&Vec::new()), 0);
}

#[test]
fn busiest_year_first_maximum() {
    let records = vec![
        phone("A", "1", "-", "2012", "-", "-"),
        phone("A", "2", "-", "2013", "-", "-"),
        phone("A", "3", "-", "2013", "-", "-"),
        phone("A", "4", "-", "Discontinued", "-", "-"),
        phone("A", "5", "-", "2012", "-", "-"),
        phone("A", "6", "-", "2014", "-", "-"),
    ];
    assert_eq!(find_busiest_year(&records), Some(YearTally { year: 2012, count: 2 }));
    assert_eq!(find_busiest_year(&Vec::new()), None);
}

#[test]
fn load_from_csv_text() {
    let text = "oem,model,announced,status,dimensions,weight,sim,display_type,display_size,resolution,sensors,os\n\
Acme,X1,2010,2010,-,150 g,Yes,-,-,-,Accelerometer,\"Android 2.3, up to 4.0\"\n\
Acme,X2,2012,2012,-,bad g,Yes,-,-,-,-,-\n\
Acme,X3,2012,2012,-,250 g,Yes,-,-,-,-,-\n";
    let report = load_records(text.as_bytes()).unwrap();
    assert_eq!(report.records.len(), 2);
    assert_eq!(report.records[0].platform_os, Some(String::from("Android 2.3")));
    assert_eq!(report.records[1].model, "X3");
    assert_eq!(
        report.failures,
        vec![RowFailure { row: 1, error: RowError::Field(FieldFormatError::Weight) }]
    );
    let best = find_heaviest_oem(&report.records).unwrap();
    assert_eq!(best.total_micros / best.count as u128, 200_000_000);
}

#[test]
fn load_stops_at_short_row() {
    let text = "h1,h2\nAcme,X1,2010,2010,-,150 g,Yes,-,-,-,-,-\nAcme,X2\n";
    assert!(matches!(load_records(text.as_bytes()), Err(LoadError::RowShape(1))));
}

#[test]
fn load_rejects_invalid_text() {
    let bytes: Vec<u8> = vec![b'h', b'\n', 0xff, 0xfe, b'\n'];
    assert!(matches!(load_records(&bytes), Err(LoadError::Csv(_))));
}

#[test]
fn rows_to_records() {
    let rows = vec![row(["A", "1", "-", "-", "-", "-", "-", "-", "-", "-", "-", "-"])];
    let report = records_from_rows(&rows).unwrap();
    assert_eq!(report.records.len(), 1);
    assert!(report.failures.is_empty());
}
