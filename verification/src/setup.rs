//! The poster's configuration: how the requests of its histograms are made,
//! and what is wrong with a request that cannot be worked on.

use crate::bucket::Timestamp;
use crate::histogram::{requests, Histogram, HistogramData, HistogramRequest};
use crate::text::{hex_pair, parse_hex_pair};
use vstd::prelude::*;
use vstd::string::StringSliceAdditionalSpecFns;
use vstd::utf8::encode_utf8;

verus! {

/// What is wrong with a configuration. It is found before any work is done.
#[derive(Clone, Copy, Debug, PartialEq, Eq, Structural)]
pub enum ConfigError {
    /// The time range does not start before it ends.
    MalformedTimeRange,
    /// The bucket count is zero.
    ZeroWidth,
    /// The colour is not written as six hexadecimal digits.
    UnreadableColor,
}

/// The start of the week that the histograms show: Monday, 14 January 2019,
/// 0:00 in Central European Time.
pub const WEEK_START: u64 = 1_547_420_400_000_000_000;

/// The last nanosecond of that week.
pub const WEEK_END: u64 = 1_548_025_199_999_999_999;

/// The bucket count of the poster's histograms.
pub const WEEK_WIDTH: usize = 6000;

/// The colour that text stands for: red, green and blue as two hexadecimal
/// digits each at the front of the text; what follows them is not read.
pub open spec fn spec_color(text: Seq<u8>) -> Option<(u8, u8, u8)> {
    if text.len() >= 6 && hex_pair(text[0], text[1]) is Some && hex_pair(text[2], text[3]) is Some
        && hex_pair(text[4], text[5]) is Some {
        Some(
            (
                hex_pair(text[0], text[1]).unwrap(),
                hex_pair(text[2], text[3]).unwrap(),
                hex_pair(text[4], text[5]).unwrap(),
            ),
        )
    } else {
        None
    }
}

/// Reads a colour of the form `rrggbb`.
pub fn parse_color(text: &str) -> (color: Option<(u8, u8, u8)>)
    ensures
        color == spec_color(text.spec_bytes()),
{
    let bytes = text.as_bytes();
    if bytes.len() < 6 {
        return None;
    }
    let red = parse_hex_pair(bytes[0], bytes[1]);
    let green = parse_hex_pair(bytes[2], bytes[3]);
    let blue = parse_hex_pair(bytes[4], bytes[5]);
    match (red, green, blue) {
        (Some(r), Some(g), Some(b)) => Some((r, g, b)),
        _ => None,
    }
}

/// The request that `mk_histogram_data` makes for a source, a filter and the
/// filter's description.
pub open spec fn week_request(
    data_file: Seq<char>,
    filter: Seq<char>,
    filter_description: Seq<char>,
) -> HistogramRequest {
    HistogramRequest {
        filter: Some(filter),
        filter_description: Some(filter_description),
        start_time: Timestamp { nanos: WEEK_START },
        end_time: Timestamp { nanos: WEEK_END },
        width: WEEK_WIDTH as nat,
        do_pps: false,
        data_file,
    }
}

/// The request for the bits that one source carried over the week, in 6000
/// buckets, for the packets that pass `filter`.
pub fn mk_histogram_data(data_file: String, filter: String, filter_description: String) -> (data:
    Box<HistogramData>)
    ensures
        data@ == week_request(data_file@, filter@, filter_description@),
{
    Box::new(
        HistogramData {
            filter: Some(filter),
            filter_description: Some(filter_description),
            start_time: Timestamp { nanos: WEEK_START },
            end_time: Timestamp { nanos: WEEK_END },
            width: WEEK_WIDTH,
            do_pps: false,
            data_file,
        },
    )
}

/// The scale factor of the poster's histograms in its text form.
pub open spec fn week_scale() -> Seq<char> {
    "100"@
}

/// What `mk_histogram` owes: a histogram on a logarithmic scale with the
/// factor 100 in the colour that `color_str` writes, with one request for
/// every source file, in the files' order; or the error for a colour that
/// cannot be read.
pub open spec fn is_week_histogram(
    made: Result<Histogram, ConfigError>,
    data_files: Seq<String>,
    filter: Seq<char>,
    filter_description: Seq<char>,
    color_str: Seq<char>,
) -> bool {
    match spec_color(encode_utf8(color_str)) {
        None => made matches Err(ConfigError::UnreadableColor),
        Some(color) => {
            &&& made matches Ok(h)
            &&& h.do_log
            &&& h.yscale@ == week_scale()
            &&& h.color == color
            &&& h.data@.len() == data_files.len()
            &&& forall|i: int|
                0 <= i < data_files.len() ==> (#[trigger] h.data@[i])@ == week_request(
                    data_files[i]@,
                    filter,
                    filter_description,
                )
        },
    }
}

/// The histogram of several sources under one filter.
pub fn mk_histogram(
    data_files: &Vec<String>,
    filter: String,
    filter_description: String,
    color_str: String,
) -> (made: Result<Histogram, ConfigError>)
    ensures
        is_week_histogram(made, data_files@, filter@, filter_description@, color_str@),
{
    let color = match parse_color(color_str.as_str()) {
        Some(color) => color,
        None => {
            return Err(ConfigError::UnreadableColor);
        },
    };
    let n: usize = data_files.len();
    let mut data: Vec<Box<HistogramData>> = Vec::new();
    let mut i: usize = 0;
    while i < n
        invariant
            n == data_files@.len(),
            i <= n,
            data@.len() == i,
            forall|j: int|
                0 <= j < i ==> (#[trigger] data@[j])@ == week_request(
                    data_files@[j]@,
                    filter@,
                    filter_description@,
                ),
        decreases n - i,
    {
        data.push(
            mk_histogram_data(data_files[i].clone(), filter.clone(), filter_description.clone()),
        );
        i = i + 1;
    }
    Ok(Histogram { do_log: true, yscale: String::from_str("100"), data, color })
}

/// What is wrong with a request, if anything is: the first of a bucket count
/// of zero and a time range that does not start before it ends.
pub open spec fn request_error(request: HistogramRequest) -> Option<ConfigError> {
    if request.width == 0 {
        Some(ConfigError::ZeroWidth)
    } else if request.start_time.nanos >= request.end_time.nanos {
        Some(ConfigError::MalformedTimeRange)
    } else {
        None
    }
}

/// Tests a request before any work is done for it.
pub fn check_request(request: &HistogramData) -> (found: Option<ConfigError>)
    ensures
        found == request_error(request@),
{
    if request.width == 0 {
        Some(ConfigError::ZeroWidth)
    } else if request.start_time.nanos >= request.end_time.nanos {
        Some(ConfigError::MalformedTimeRange)
    } else {
        None
    }
}

/// The first source of a histogram whose request is unsound, with what is
/// wrong with it.
pub open spec fn is_first_unsound(
    found: Option<(usize, ConfigError)>,
    data: Seq<HistogramRequest>,
) -> bool {
    match found {
        Some((i, e)) => {
            &&& i < data.len()
            &&& request_error(data[i as int]) == Some(e)
            &&& forall|j: int| 0 <= j < i ==> (#[trigger] request_error(data[j])) is None
        },
        None => forall|j: int| 0 <= j < data.len() ==> (#[trigger] request_error(data[j])) is None,
    }
}

/// Tests every source of a histogram before any work is done for it.
pub fn check_histogram(histogram: &Histogram) -> (found: Option<(usize, ConfigError)>)
    ensures
        is_first_unsound(found, histogram@.data),
{
    let n: usize = histogram.data.len();
    let mut i: usize = 0;
    while i < n
        invariant
            n == histogram.data@.len(),
            i <= n,
            forall|j: int| 0 <= j < i ==> (#[trigger] request_error(histogram@.data[j])) is None,
        decreases n - i,
    {
        assert(histogram@.data[i as int] == histogram.data@[i as int]@);
        match check_request(&histogram.data[i]) {
            Some(e) => {
                return Some((i, e));
            },
            None => {},
        }
        i = i + 1;
    }
    None
}

} // verus!
