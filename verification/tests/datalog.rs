use rustytune::datalog::{msl_header, msl_row, split_msl, CellFormat, Column};

fn cells_as_numbers(row: &[String], n: usize) -> Vec<Option<f64>> {
    (0..n)
        .map(|i| row.get(i).and_then(|c| c.trim().parse::<f64>().ok()))
        .collect()
}

#[test]
fn format_parse_and_render() {
    assert_eq!(CellFormat::parse("%d"), CellFormat::Int);
    assert_eq!(CellFormat::parse("%.3f"), CellFormat::Fixed(3));
    assert_eq!(CellFormat::parse("%.1f"), CellFormat::Fixed(1));
    assert_eq!(CellFormat::parse("junk"), CellFormat::Fixed(3));
}

#[test]
fn format_parse_edge_cases() {
    assert_eq!(CellFormat::parse("  %d "), CellFormat::Int);
    assert_eq!(CellFormat::parse("  %5d "), CellFormat::Fixed(3));
    assert_eq!(CellFormat::parse("bad"), CellFormat::Fixed(3));
    assert_eq!(CellFormat::parse("%.f"), CellFormat::Fixed(3));
    assert_eq!(CellFormat::parse("%.256f"), CellFormat::Fixed(3));
    assert_eq!(CellFormat::parse("%.+2f"), CellFormat::Fixed(2));
    assert_eq!(CellFormat::parse("%.0f"), CellFormat::Fixed(0));
    assert_eq!(CellFormat::parse(""), CellFormat::Fixed(3));
}

fn columns() -> Vec<Column> {
    vec![
        Column { channel: "time".into(), label: "Time".into(), units: "sec".into(), format: CellFormat::Fixed(3) },
        Column { channel: "rpm".into(), label: "RPM".into(), units: "RPM".into(), format: CellFormat::Int },
        Column { channel: "afr".into(), label: "AFR".into(), units: String::new(), format: CellFormat::Fixed(3) },
    ]
}

#[test]
fn msl_text_layout() {
    let mut text = msl_header("\"rustytune test log\"", &columns());
    text.push_str(&msl_row(&vec![Some("0.016".to_string()), Some("3450".to_string()), Some("14.700".to_string())]));
    text.push_str(&msl_row(&vec![Some("0.066".to_string()), Some("3455".to_string()), None]));
    assert_eq!(
        text,
        "\"rustytune test log\"\r\n\
         Time\tRPM\tAFR\r\n\
         sec\tRPM\t\r\n\
         0.016\t3450\t14.700\r\n\
         0.066\t3455\t\r\n"
    );

    // The reader round-trips what the writer produced.
    let data = split_msl(&text).unwrap();
    assert_eq!(data.title, "\"rustytune test log\"");
    assert_eq!(data.labels, ["Time", "RPM", "AFR"]);
    assert_eq!(data.units, ["sec", "RPM", ""]);
    assert_eq!(data.rows.len(), 2);
    assert_eq!(cells_as_numbers(&data.rows[0], 3), [Some(0.016), Some(3450.0), Some(14.7)]);
    assert_eq!(cells_as_numbers(&data.rows[1], 3), [Some(0.066), Some(3455.0), None]);
}

#[test]
fn read_msl_tolerates_marks_and_short_rows() {
    let text = "\"t\"\r\nTime\tRPM\r\nsec\tRPM\r\n\
                0.1\t900\r\nMARK 001 something\r\n0.2\r\n";
    let data = split_msl(text).unwrap();
    assert_eq!(data.rows.len(), 2);
    let rpm: Vec<Option<f64>> = data.rows.iter().map(|r| cells_as_numbers(r, 2)[1]).collect();
    assert_eq!(rpm, [Some(900.0), None]);

    assert!(split_msl("just some text\nno tabs\n").is_err());
}

#[test]
fn split_msl_errors_name_what_is_missing() {
    assert_eq!(split_msl("title only").err().unwrap(), "missing label line");
    assert_eq!(
        split_msl("t\nlabel\n").err().unwrap(),
        "not an MSL file (no tab-separated labels)"
    );
    assert_eq!(split_msl("t\na\tb").err().unwrap(), "missing units line");
    let ok = split_msl("t\na\tb\nx\ty").unwrap();
    assert_eq!(ok.units, ["x", "y"]);
    assert!(ok.rows.is_empty());
}
