//! Export of recorded samples as delimited text.

use crate::time::current_time;
use crate::time::Timestamp;
use vstd::prelude::*;

verus! {

/// How an export is laid out.
#[derive(Debug, Clone)]
pub struct ExportFormat {
    /// `csv`, `json` or `binary`.
    pub format: String,
    pub include_headers: bool,
    /// What separates the fields of a line.
    pub delimiter: String,
    /// Decimal places of the measured values.
    pub precision: u8,
}

/// Writes samples as delimited text, chunk by chunk.
pub struct CSVStreamer {
    format: ExportFormat,
    samples_processed: usize,
    start_time: Timestamp,
}

/// The header line for the delimiter `d`: the eight column names separated
/// by `d`, and a line feed.
pub open spec fn header_line(d: Seq<char>) -> Seq<char> {
    "device_id"@ + d + "timestamp"@ + d + "r1"@ + d + "r2"@ + d + "r3"@ + d + "x"@ + d + "y"@ + d
        + "z\n"@
}

impl CSVStreamer {
    pub closed spec fn format(&self) -> ExportFormat {
        self.format
    }

    pub closed spec fn spec_samples_processed(&self) -> usize {
        self.samples_processed
    }

    pub closed spec fn spec_start_time(&self) -> Timestamp {
        self.start_time
    }

    /// A streamer that has written nothing yet, started at `now`.
    pub fn new_at(format: ExportFormat, now: Timestamp) -> (streamer: Self)
        ensures
            streamer.format() == format,
            streamer.spec_samples_processed() == 0,
            streamer.spec_start_time() == now,
    {
        CSVStreamer { format, samples_processed: 0, start_time: now }
    }

    /// A streamer that has written nothing yet, started at the current
    /// reading of the clock.
    pub fn new(format: ExportFormat) -> (streamer: Self)
        ensures
            streamer.format() == format,
            streamer.spec_samples_processed() == 0,
    {
        CSVStreamer::new_at(format, current_time())
    }

    /// Number of samples written so far.
    #[verifier::when_used_as_spec(spec_samples_processed)]
    pub fn samples_processed(&self) -> (n: usize)
        ensures
            n == self.spec_samples_processed(),
    {
        self.samples_processed
    }

    /// When the streamer was started.
    #[verifier::when_used_as_spec(spec_start_time)]
    pub fn start_time(&self) -> (t: Timestamp)
        ensures
            t == self.spec_start_time(),
    {
        self.start_time
    }

    /// The layout that the streamer writes.
    pub fn export_format(&self) -> (format: &ExportFormat)
        ensures
            *format == self.format(),
    {
        &self.format
    }

    /// Counts `count` more samples as written.
    pub fn record_samples(&mut self, count: usize)
        requires
            old(self).spec_samples_processed() + count <= usize::MAX,
        ensures
            final(self).spec_samples_processed() == old(self).spec_samples_processed() + count,
            final(self).format() == old(self).format(),
            final(self).spec_start_time() == old(self).spec_start_time(),
    {
        self.samples_processed += count;
    }

    /// The header line, or nothing if the format asks for no header.
    pub fn generate_header(&self) -> (header: String)
        ensures
            header@ == if self.format().include_headers {
                header_line(self.format().delimiter@)
            } else {
                Seq::<char>::empty()
            },
    {
        if self.format.include_headers {
            let d = self.format.delimiter.as_str();
            let mut header = "device_id".to_owned();
            header.append(d);
            header.append("timestamp");
            header.append(d);
            header.append("r1");
            header.append(d);
            header.append("r2");
            header.append(d);
            header.append("r3");
            header.append(d);
            header.append("x");
            header.append(d);
            header.append("y");
            header.append(d);
            header.append("z\n");
            header
        } else {
            String::new()
        }
    }
}

} // verus!
