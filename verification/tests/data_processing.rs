use gait_monitor::data_processing::CSVStreamer;
use gait_monitor::data_processing::ExportFormat;
use gait_monitor::time::Timestamp;

fn format(include_headers: bool, delimiter: &str) -> ExportFormat {
    ExportFormat {
        format: "csv".to_string(),
        include_headers,
        delimiter: delimiter.to_string(),
        precision: 2,
    }
}

#[test]
fn csv_header_lists_the_columns() {
    let streamer = CSVStreamer::new(format(true, ","));
    let header = streamer.generate_header();
    assert!(header.contains("device_id,timestamp"));
    assert_eq!(header, "device_id,timestamp,r1,r2,r3,x,y,z\n");
    assert_eq!(streamer.samples_processed(), 0);
}

#[test]
fn csv_header_uses_the_delimiter_given() {
    let streamer = CSVStreamer::new_at(format(true, " | "), Timestamp::from_millis(12));
    assert_eq!(
        streamer.generate_header(),
        "device_id | timestamp | r1 | r2 | r3 | x | y | z\n"
    );
    assert_eq!(streamer.start_time(), Timestamp::from_millis(12));
}

#[test]
fn csv_header_can_be_left_out() {
    let streamer = CSVStreamer::new(format(false, ","));
    assert_eq!(streamer.generate_header(), "");
}

#[test]
fn csv_streamer_counts_samples() {
    let mut streamer = CSVStreamer::new(format(true, ";"));
    streamer.record_samples(3);
    streamer.record_samples(0);
    streamer.record_samples(4);
    assert_eq!(streamer.samples_processed(), 7);
    assert_eq!(streamer.export_format().delimiter, ";");
    assert_eq!(streamer.export_format().precision, 2);
}
