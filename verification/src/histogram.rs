//! Traffic histograms: the request for one source's bucket array, and the
//! element that draws the sum of several sources.

use crate::bucket::{
    aggregate, bucket_total, is_aggregate, lemma_aggregation_is_linear, totals_fit, Aggregate,
    Record, Timestamp,
};
use crate::cachable::{lookup_buckets, plan, CachableData, CachablePNG, Resolution};
use crate::canvas::{encode, opaque, png_file, white, Canvas, RenderError};
use crate::fingerprint::{
    color_writes, digest, feed_color, feed_flag, feed_number, feed_optional_text, feed_text,
    flag_writes, lemma_color_is_told, lemma_flag_is_told, lemma_number_is_told,
    lemma_optional_text_is_told, lemma_regroup, lemma_text_is_told, number_writes,
    optional_text_writes, text_writes,
};
use crate::records::{
    all_rows_parse, csv_rows, first_bad_row, records_from_rows, spec_records, table_rows,
};
use crate::text::{decimal_text, push_decimal};
use std::collections::hash_map::DefaultHasher;
use std::hash::Hasher;
use vstd::prelude::*;

verus! {

/// The part of a histogram that decides which records are read and how they
/// are counted: when it changes, the source has to be read again.
#[derive(Clone, Debug)]
pub struct HistogramData {
    pub filter: Option<String>,
    pub filter_description: Option<String>,
    pub start_time: Timestamp,
    pub end_time: Timestamp,
    pub width: usize,
    pub do_pps: bool,
    pub data_file: String,
}

/// A request for a bucket array as a mathematical value.
pub struct HistogramRequest {
    pub filter: Option<Seq<char>>,
    pub filter_description: Option<Seq<char>>,
    pub start_time: Timestamp,
    pub end_time: Timestamp,
    pub width: nat,
    pub do_pps: bool,
    pub data_file: Seq<char>,
}

/// Why no bucket array could be computed from a table.
#[derive(Clone, Copy, Debug, PartialEq, Eq, Structural)]
pub enum DataError {
    /// The table as a whole cannot be read.
    UnreadableTable,
    /// The row with this index, counted from 0, stands for no record.
    MalformedRow(usize),
    /// The bucket count is zero.
    ZeroWidth,
    /// The time range does not start before it ends.
    MalformedTimeRange,
    /// Some bucket's total does not fit into 64 bits.
    Overflow,
}

/// The text of an optional string.
pub open spec fn optional_view(text: Option<String>) -> Option<Seq<char>> {
    match text {
        Some(text) => Some(text@),
        None => None,
    }
}

impl HistogramRequest {
    /// The label that tells the cache entries of one source apart by eye.
    pub open spec fn label(self) -> Seq<char> {
        match self.filter_description {
            Some(label) => label,
            None => "unnamed"@,
        }
    }

    /// What the request feeds into the hash state: all its fields in the
    /// order in which they are declared.
    pub open spec fn writes(self) -> Seq<Seq<u8>> {
        optional_text_writes(self.filter) + optional_text_writes(self.filter_description)
            + number_writes(self.start_time.nanos) + number_writes(self.end_time.nanos)
            + number_writes(self.width as u64) + flag_writes(self.do_pps) + text_writes(
            self.data_file,
        )
    }

    /// The fingerprint of the request.
    pub open spec fn fingerprint(self) -> u64 {
        digest(self.writes())
    }

    /// The place of the request's bucket array in the cache.
    pub open spec fn cache_path(self) -> Seq<char> {
        "./cache/"@ + decimal_text(self.fingerprint() as nat) + "-"@ + self.label() + ".vec"@
    }

    /// The filter expression, empty where the request has none.
    pub open spec fn filter_text(self) -> Seq<char> {
        match self.filter {
            Some(filter) => filter,
            None => Seq::<char>::empty(),
        }
    }

    /// The shell command that has the record source write the request's
    /// table: capture time and length of every packet of the source that
    /// passes the filter, with `|` between the two.
    pub open spec fn filter_command(self) -> Seq<char> {
        "tshark -T fields -E separator='|' -e frame.time_epoch -e frame.len -r '"@
            + self.data_file + "' '"@ + self.filter_text() + "' > "@ + self.scratch_path()
    }

    /// The place of the scratch table that the record source writes for the
    /// request.
    pub open spec fn scratch_path(self) -> Seq<char> {
        "./tmp/filter-"@ + self.label() + "-"@ + decimal_text(
            digest(text_writes(self.data_file)) as nat,
        ) + ".csv"@
    }
}

impl View for HistogramData {
    type V = HistogramRequest;

    open spec fn view(&self) -> HistogramRequest {
        HistogramRequest {
            filter: optional_view(self.filter),
            filter_description: optional_view(self.filter_description),
            start_time: self.start_time,
            end_time: self.end_time,
            width: self.width as nat,
            do_pps: self.do_pps,
            data_file: self.data_file@,
        }
    }
}

/// What `data_uncached` owes for a request and a table: the error of an
/// unsound request before the table is looked at; else the error of a table
/// that cannot be read, or of its first row that stands for no record; else
/// what the records of the table add up to.
pub open spec fn is_request_data(
    computed: Result<Aggregate, DataError>,
    request: &HistogramData,
    table: Seq<u8>,
) -> bool {
    if request.width == 0 {
        computed matches Err(DataError::ZeroWidth)
    } else if request.start_time.nanos >= request.end_time.nanos {
        computed matches Err(DataError::MalformedTimeRange)
    } else {
        match csv_rows(table) {
            None => computed matches Err(DataError::UnreadableTable),
            Some(rows) => if !all_rows_parse(rows) {
                computed matches Err(DataError::MalformedRow(i)) && first_bad_row(rows, i as int)
            } else {
                match computed {
                    Ok(a) => is_aggregate(
                        Ok(a),
                        spec_records(rows),
                        request.start_time,
                        request.end_time,
                        request.width,
                        request.do_pps,
                    ),
                    Err(DataError::Overflow) => !totals_fit(
                        spec_records(rows),
                        request.width as int,
                        request.start_time,
                        request.end_time,
                        request.do_pps,
                    ),
                    Err(_) => false,
                }
            },
        }
    }
}

impl HistogramData {
    /// Feeds the request's fields into a hash state.
    pub fn feed(&self, state: &mut DefaultHasher)
        ensures
            final(state)@ == old(state)@ + self@.writes(),
    {
        feed_optional_text(state, &self.filter);
        feed_optional_text(state, &self.filter_description);
        feed_number(state, self.start_time.nanos);
        feed_number(state, self.end_time.nanos);
        feed_number(state, self.width as u64);
        feed_flag(state, self.do_pps);
        feed_text(state, self.data_file.as_str());
        assert(state@ =~= old(state)@ + self@.writes());
    }

    /// The fingerprint of the request: the digest of all its fields.
    pub fn fingerprint(&self) -> (fp: u64)
        ensures
            fp == self@.fingerprint(),
    {
        let mut state = DefaultHasher::new();
        self.feed(&mut state);
        assert(state@ =~= self@.writes());
        state.finish()
    }

    /// The label for file names: the filter's description, or `unnamed`.
    pub fn label(&self) -> (label: String)
        ensures
            label@ == self@.label(),
    {
        match &self.filter_description {
            Some(label) => label.clone(),
            None => String::from_str("unnamed"),
        }
    }

    /// The place of the bucket array in the cache.
    pub fn cache_path(&self) -> (path: String)
        ensures
            path@ == self@.cache_path(),
    {
        let mut path = String::from_str("./cache/");
        push_decimal(&mut path, self.fingerprint());
        path.append("-");
        path.append(self.label().as_str());
        path.append(".vec");
        path
    }

    /// The place of the scratch table that the record source writes.
    pub fn scratch_path(&self) -> (path: String)
        ensures
            path@ == self@.scratch_path(),
    {
        let mut state = DefaultHasher::new();
        feed_text(&mut state, self.data_file.as_str());
        assert(state@ =~= text_writes(self.data_file@));
        let mut path = String::from_str("./tmp/filter-");
        path.append(self.label().as_str());
        path.append("-");
        push_decimal(&mut path, state.finish());
        path.append(".csv");
        path
    }

    /// The shell command that has the record source write the table.
    pub fn filter_command(&self) -> (command: String)
        ensures
            command@ == self@.filter_command(),
    {
        let mut command = String::from_str(
            "tshark -T fields -E separator='|' -e frame.time_epoch -e frame.len -r '",
        );
        command.append(self.data_file.as_str());
        command.append("' '");
        match &self.filter {
            Some(filter) => command.append(filter.as_str()),
            None => {},
        }
        command.append("' > ");
        command.append(self.scratch_path().as_str());
        assert(command@ =~= self@.filter_command());
        command
    }

    /// The scratch table is the record source's own and is removed after
    /// use, unless it is the unfiltered source itself.
    pub fn scratch_is_temporary(&self) -> (temporary: bool)
        ensures
            temporary == self.filter.is_some(),
    {
        self.filter.is_some()
    }
}

impl CachableData for HistogramData {
    open spec fn is_data(&self, computed: Result<Aggregate, DataError>, table: Seq<u8>) -> bool {
        is_request_data(computed, self, table)
    }

    /// Reads the bucket array out of what lies at the request's cache path.
    fn data_cached(&self, stored: Option<&[u8]>) -> (found: Option<Vec<u64>>) {
        match lookup_buckets(stored) {
            Ok(found) => found,
            Err(_) => None,
        }
    }

    /// Reads the table of one source row by row and sorts every record into
    /// the bucket of its capture time.
    fn data_uncached(&self, table: &[u8]) -> (computed: Result<Aggregate, DataError>) {
        if self.width == 0 {
            return Err(DataError::ZeroWidth);
        }
        if self.start_time.nanos >= self.end_time.nanos {
            return Err(DataError::MalformedTimeRange);
        }
        let rows = match table_rows(table) {
            Some(rows) => rows,
            None => {
                return Err(DataError::UnreadableTable);
            },
        };
        let records = match records_from_rows(&rows) {
            Ok(records) => records,
            Err(row) => {
                return Err(DataError::MalformedRow(row));
            },
        };
        match aggregate(&records, self.start_time, self.end_time, self.width, self.do_pps) {
            Ok(a) => Ok(a),
            Err(_) => Err(DataError::Overflow),
        }
    }
}

/// The tallest raster that a histogram may fill, in rows.
pub const MAX_HEIGHT: usize = 661;

/// The bucket count of a histogram that has no source.
pub const DEFAULT_WIDTH: usize = 100;

/// The mark of the drawing rules: it is part of every histogram's identity,
/// so that images drawn by other rules are not taken from the cache.
pub open spec fn rules_mark() -> Seq<char> {
    "20"@
}

/// A histogram over one or more sources.
#[derive(Debug)]
pub struct Histogram {
    pub do_log: bool,
    /// The vertical scale factor in its canonical text form.
    pub yscale: String,
    pub data: Vec<Box<HistogramData>>,
    pub color: (u8, u8, u8),
}

/// A histogram as a mathematical value.
pub struct HistogramElement {
    pub do_log: bool,
    pub yscale: Seq<char>,
    pub data: Seq<HistogramRequest>,
    pub color: (u8, u8, u8),
}

/// The requests of a histogram's sources.
pub open spec fn requests(data: Seq<Box<HistogramData>>) -> Seq<HistogramRequest> {
    Seq::new(data.len(), |i: int| data[i]@)
}

/// What the sources feed into the hash state, one after the other.
pub open spec fn sources_writes(data: Seq<HistogramRequest>) -> Seq<Seq<u8>>
    decreases data.len(),
{
    if data.len() == 0 {
        Seq::<Seq<u8>>::empty()
    } else {
        sources_writes(data.drop_last()) + data.last().writes()
    }
}

impl HistogramElement {
    /// What the element feeds into the hash state: the scale's kind, the
    /// scale factor as text, the number of sources and every source, the
    /// colour, and the mark of the drawing rules.
    pub open spec fn writes(self) -> Seq<Seq<u8>> {
        flag_writes(self.do_log) + text_writes(self.yscale) + number_writes(self.data.len() as u64)
            + sources_writes(self.data) + color_writes(self.color) + text_writes(rules_mark())
    }

    /// The fingerprint of the element.
    pub open spec fn fingerprint(self) -> u64 {
        digest(self.writes())
    }

    /// The place of the element's image in the cache.
    pub open spec fn cache_path(self) -> Seq<char> {
        "./cache/"@ + decimal_text(self.fingerprint() as nat) + ".png"@
    }

    /// The bucket count: that of the first source, or the default without
    /// one.
    pub open spec fn width(self) -> nat {
        if self.data.len() == 0 {
            DEFAULT_WIDTH as nat
        } else {
            self.data[0].width
        }
    }
}

impl View for Histogram {
    type V = HistogramElement;

    open spec fn view(&self) -> HistogramElement {
        HistogramElement {
            do_log: self.do_log,
            yscale: self.yscale@,
            data: requests(self.data@),
            color: self.color,
        }
    }
}

/// The sum of bucket `i` over `arrays`.
pub open spec fn column_sum(arrays: Seq<Seq<u64>>, i: int) -> int
    decreases arrays.len(),
{
    if arrays.len() == 0 {
        0
    } else {
        column_sum(arrays.drop_last(), i) + arrays.last()[i]
    }
}

/// Every array has `width` buckets.
pub open spec fn all_of_width(arrays: Seq<Seq<u64>>, width: int) -> bool {
    forall|k: int| 0 <= k < arrays.len() ==> (#[trigger] arrays[k]).len() == width
}

/// Every bucket's sum over `arrays` fits into 64 bits.
pub open spec fn sums_fit(arrays: Seq<Seq<u64>>, width: int) -> bool {
    forall|i: int| 0 <= i < width ==> #[trigger] column_sum(arrays, i) <= u64::MAX
}

/// The arrays of a vector of vectors.
pub open spec fn arrays_view(arrays: &Vec<Vec<u64>>) -> Seq<Seq<u64>> {
    arrays.deep_view()
}

/// The rows that a bucket's column fills: nothing for an empty bucket, which
/// has no logarithm, and nothing for a height below zero; else the scaled
/// height.
pub open spec fn column_height(value: u64, scaled: i64) -> int {
    if value == 0 || scaled < 0 {
        0
    } else {
        scaled as int
    }
}

/// The height of the tallest of the first `n` columns.
pub open spec fn tallest(values: Seq<u64>, scaled: Seq<i64>, n: int) -> int
    decreases n,
{
    if n <= 0 {
        0
    } else {
        let rest = tallest(values, scaled, n - 1);
        let here = column_height(values[n - 1], scaled[n - 1]);
        if here > rest {
            here
        } else {
            rest
        }
    }
}

/// The rows of a histogram's raster: one more than its tallest column.
pub open spec fn natural_height(values: Seq<u64>, scaled: Seq<i64>) -> int {
    tallest(values, scaled, values.len() as int) + 1
}

/// Whether the pixel that is `j` places behind the top left one belongs to
/// a column: columns stand on the bottom row.
pub open spec fn in_column(values: Seq<u64>, scaled: Seq<i64>, j: int) -> bool {
    let width = values.len() as int;
    let height = natural_height(values, scaled);
    height - 1 - j / width < column_height(values[j % width], scaled[j % width])
}

/// The bytes of a histogram's raster.
pub open spec fn histogram_raster(values: Seq<u64>, scaled: Seq<i64>, color: (u8, u8, u8)) -> Seq<
    u8,
> {
    Seq::new(
        (4 * (values.len() * natural_height(values, scaled))) as nat,
        |k: int|
            if in_column(values, scaled, k / 4) {
                if k % 4 == 0 {
                    color.0
                } else if k % 4 == 1 {
                    color.1
                } else if k % 4 == 2 {
                    color.2
                } else {
                    255u8
                }
            } else {
                255u8
            },
    )
}

/// Why a combined bucket array with its scaled heights cannot be drawn, if
/// it cannot: the first of unequal lengths, no bucket at all, columns above
/// the tallest raster allowed, and a raster beyond what the machine counts.
pub open spec fn rendering_error(values: Seq<u64>, scaled: Seq<i64>) -> Option<RenderError> {
    if scaled.len() != values.len() {
        Some(RenderError::Mismatch)
    } else if values.len() == 0 {
        Some(RenderError::Empty)
    } else if natural_height(values, scaled) > MAX_HEIGHT {
        Some(RenderError::TooTall)
    } else if values.len() > u32::MAX || 4 * (values.len() * natural_height(values, scaled))
        > usize::MAX {
        Some(RenderError::TooLarge)
    } else {
        None
    }
}

/// What `render` owes for a combined bucket array, the scaled heights of its
/// buckets and a colour.
pub open spec fn is_rendering(
    canvas: Result<Canvas, RenderError>,
    values: Seq<u64>,
    scaled: Seq<i64>,
    color: (u8, u8, u8),
) -> bool {
    match rendering_error(values, scaled) {
        Some(e) => canvas matches Err(f) && f == e,
        None => {
            &&& canvas matches Ok(canvas)
            &&& canvas.wf()
            &&& canvas.width == values.len()
            &&& canvas.height == natural_height(values, scaled)
            &&& canvas.pixels@ == histogram_raster(values, scaled, color)
        },
    }
}

/// What `png_uncached` owes for a histogram: the error that keeps the
/// columns from being drawn, or else the file of the drawn raster.
pub open spec fn is_histogram_file(
    file: Result<Vec<u8>, RenderError>,
    values: Seq<u64>,
    scaled: Seq<i64>,
    color: (u8, u8, u8),
) -> bool {
    match rendering_error(values, scaled) {
        Some(e) => file matches Err(f) && f == e,
        None => file matches Ok(file) && file@ == png_file(
            values.len() as u32,
            natural_height(values, scaled) as u32,
            histogram_raster(values, scaled, color),
        ),
    }
}

/// What the collaborators hand over for a histogram's image: the combined
/// bucket array and, for every bucket, the height in rows that the scale
/// gives its value.
#[derive(Debug)]
pub struct Columns {
    pub values: Vec<u64>,
    pub scaled: Vec<i64>,
}

/// The largest bucket, and the smallest that is not empty.
pub fn value_range(values: &Vec<u64>) -> (range: (u64, Option<u64>))
    ensures
        forall|i: int| 0 <= i < values@.len() ==> values@[i] <= range.0,
        values@.len() == 0 ==> range.0 == 0,
        values@.len() > 0 ==> exists|i: int| 0 <= i < values@.len() && values@[i] == range.0,
        match range.1 {
            Some(least) => {
                &&& least > 0
                &&& exists|i: int| 0 <= i < values@.len() && values@[i] == least
                &&& forall|i: int| 0 <= i < values@.len() && values@[i] > 0 ==> least <= values@[i]
            },
            None => forall|i: int| 0 <= i < values@.len() ==> values@[i] == 0,
        },
{
    let n: usize = values.len();
    let mut most: u64 = 0;
    let mut least: Option<u64> = None;
    let mut k: usize = 0;
    while k < n
        invariant
            n == values@.len(),
            k <= n,
            forall|i: int| 0 <= i < k ==> values@[i] <= most,
            k == 0 ==> most == 0,
            k > 0 ==> exists|i: int| 0 <= i < k && values@[i] == most,
            match least {
                Some(least) => {
                    &&& least > 0
                    &&& exists|i: int| 0 <= i < k && values@[i] == least
                    &&& forall|i: int| 0 <= i < k && values@[i] > 0 ==> least <= values@[i]
                },
                None => forall|i: int| 0 <= i < k ==> values@[i] == 0,
            },
        decreases n - k,
    {
        let v: u64 = values[k];
        if v > most || k == 0 {
            most = v;
        }
        if v > 0 {
            least = match least {
                Some(l) => if v < l {
                    Some(v)
                } else {
                    Some(l)
                },
                None => Some(v),
            };
        }
        k = k + 1;
    }
    (most, least)
}

/// What `values_uncached` owes for the arrays of a histogram's sources: the
/// sum of the arrays, bucket by bucket, where there is one array of the
/// histogram's width for every source and every sum fits.
pub open spec fn is_combination(
    combined: Result<Vec<u64>, RenderError>,
    width: int,
    sources: int,
    arrays: Seq<Seq<u64>>,
) -> bool {
    if arrays.len() != sources || !all_of_width(arrays, width) {
        combined matches Err(RenderError::Mismatch)
    } else if !sums_fit(arrays, width) {
        combined matches Err(RenderError::Overflow)
    } else {
        &&& combined matches Ok(combined)
        &&& combined@.len() == width
        &&& forall|i: int| 0 <= i < width ==> #[trigger] combined@[i] == column_sum(arrays, i)
    }
}

/// A bucket's sum never shrinks as arrays are added.
pub proof fn lemma_sum_grows(arrays: Seq<Seq<u64>>, k: int, i: int)
    requires
        0 <= k <= arrays.len(),
    ensures
        0 <= column_sum(arrays.take(k), i) <= column_sum(arrays, i),
    decreases arrays.len(),
{
    if arrays.len() == 0 {
        assert(arrays.take(k) =~= arrays);
    } else if k == arrays.len() {
        assert(arrays.take(k) =~= arrays);
        lemma_sum_grows(arrays.drop_last(), k - 1, i);
    } else {
        assert(arrays.drop_last().take(k) =~= arrays.take(k));
        lemma_sum_grows(arrays.drop_last(), k, i);
    }
}

/// The rows that a bucket's column fills.
pub fn column_rows(value: u64, scaled: i64) -> (rows: i64)
    ensures
        rows == column_height(value, scaled),
{
    if value == 0 || scaled < 0 {
        0
    } else {
        scaled
    }
}

/// Whether a pixel is painted once the columns before `x` stand and column
/// `x` has grown to `k` rows.
pub open spec fn painted_so_far(
    values: Seq<u64>,
    scaled: Seq<i64>,
    height: int,
    x: int,
    k: int,
    j: int,
) -> bool {
    let width = values.len() as int;
    let column = j % width;
    let level = height - 1 - j / width;
    (column < x && level < column_height(values[column], scaled[column])) || (column == x && level
        < k)
}

impl Histogram {
    /// Feeds the element's identity into a hash state.
    pub fn feed(&self, state: &mut DefaultHasher)
        ensures
            final(state)@ == old(state)@ + self@.writes(),
    {
        feed_flag(state, self.do_log);
        feed_text(state, self.yscale.as_str());
        feed_number(state, self.data.len() as u64);
        let ghost head = state@;
        let n: usize = self.data.len();
        let mut i: usize = 0;
        assert(requests(self.data@).take(0) =~= Seq::<HistogramRequest>::empty());
        while i < n
            invariant
                n == self.data@.len(),
                i <= n,
                state@ == head + sources_writes(requests(self.data@).take(i as int)),
            decreases n - i,
        {
            self.data[i].feed(state);
            proof {
                let all = requests(self.data@);
                assert(all.take(i + 1).drop_last() =~= all.take(i as int));
                assert(all.take(i + 1).last() == self.data@[i as int]@);
                assert(state@ =~= head + sources_writes(all.take(i + 1)));
            }
            i = i + 1;
        }
        assert(requests(self.data@).take(n as int) =~= requests(self.data@));
        feed_color(state, self.color);
        proof {
            reveal_strlit("20");
        }
        feed_text(state, "20");
        assert(state@ =~= old(state)@ + self@.writes());
    }

    /// The fingerprint of the element: the digest of its identity.
    pub fn fingerprint(&self) -> (fp: u64)
        ensures
            fp == self@.fingerprint(),
    {
        let mut state = DefaultHasher::new();
        self.feed(&mut state);
        assert(state@ =~= self@.writes());
        state.finish()
    }

    /// The place of the element's image in the cache.
    pub fn cache_path(&self) -> (path: String)
        ensures
            path@ == self@.cache_path(),
    {
        let mut path = String::from_str("./cache/");
        push_decimal(&mut path, self.fingerprint());
        path.append(".png");
        path
    }

    /// The bucket count of the element.
    pub fn width(&self) -> (width: usize)
        ensures
            width == self@.width(),
    {
        if self.data.len() == 0 {
            DEFAULT_WIDTH
        } else {
            self.data[0].width
        }
    }

    /// Adds up the bucket arrays of the sources, bucket by bucket.
    /// `per_source` holds one array for every source, in the sources' order.
    pub fn values_uncached(&self, per_source: &Vec<Vec<u64>>) -> (combined: Result<
        Vec<u64>,
        RenderError,
    >)
        ensures
            is_combination(
                combined,
                self@.width() as int,
                self.data@.len() as int,
                arrays_view(per_source),
            ),
    {
        let width: usize = self.width();
        let n: usize = per_source.len();
        let ghost arrays = arrays_view(per_source);
        if n != self.data.len() {
            return Err(RenderError::Mismatch);
        }
        let mut k: usize = 0;
        while k < n
            invariant
                n == per_source@.len(),
                n == self.data@.len(),
                width == self@.width(),
                k <= n,
                arrays == arrays_view(per_source),
                forall|m: int| 0 <= m < k ==> (#[trigger] arrays[m]).len() == width,
            decreases n - k,
        {
            assert(arrays[k as int] =~= per_source@[k as int]@);
            if per_source[k].len() != width {
                assert(arrays[k as int].len() != width);
                return Err(RenderError::Mismatch);
            }
            k = k + 1;
        }
        let mut combined: Vec<u64> = vec![0u64; width];
        k = 0;
        assert(arrays.take(0) =~= Seq::<Seq<u64>>::empty());
        while k < n
            invariant
                n == per_source@.len(),
                n == self.data@.len(),
                width == self@.width(),
                k <= n,
                arrays == arrays_view(per_source),
                all_of_width(arrays, width as int),
                combined@.len() == width,
                forall|i: int|
                    0 <= i < width ==> #[trigger] combined@[i] == column_sum(
                        arrays.take(k as int),
                        i,
                    ),
            decreases n - k,
        {
            let array: &Vec<u64> = &per_source[k];
            let ghost before = arrays.take(k as int);
            let ghost after = arrays.take(k + 1);
            proof {
                assert(arrays[k as int] =~= array@);
                assert(after.drop_last() =~= before);
                assert(after.last() == arrays[k as int]);
            }
            let mut i: usize = 0;
            while i < width
                invariant
                    i <= width,
                    arrays == arrays_view(per_source),
                    arrays.len() == self.data@.len(),
                    width == self@.width(),
                    all_of_width(arrays, width as int),
                    array@.len() == width,
                    combined@.len() == width,
                    after.len() > 0,
                    after.drop_last() == before,
                    after.last() == array@,
                    after == arrays.take(k + 1),
                    0 <= k < arrays.len(),
                    forall|m: int|
                        0 <= m < i ==> #[trigger] combined@[m] == column_sum(after, m),
                    forall|m: int|
                        i <= m < width ==> #[trigger] combined@[m] == column_sum(before, m),
                decreases width - i,
            {
                match combined[i].checked_add(array[i]) {
                    Some(sum) => {
                        combined.set(i, sum);
                    },
                    None => {
                        proof {
                            assert(column_sum(before, i as int) == combined@[i as int]);
                            assert(column_sum(after, i as int) > u64::MAX);
                            lemma_sum_grows(arrays, k + 1, i as int);
                            assert(column_sum(arrays, i as int) > u64::MAX);
                        }
                        return Err(RenderError::Overflow);
                    },
                }
                i = i + 1;
            }
            k = k + 1;
        }
        assert(arrays.take(n as int) =~= arrays);
        assert forall|i: int| 0 <= i < width implies #[trigger] column_sum(arrays, i)
            <= u64::MAX by {
            assert(combined@[i] == column_sum(arrays, i));
        }
        Ok(combined)
    }

    /// Draws the combined bucket array: one column for every bucket, in the
    /// element's colour on white, standing on the bottom row. `scaled` holds
    /// for every bucket the height that the scale gives its value; the
    /// raster is one row taller than the tallest column.
    pub fn render(&self, values: &Vec<u64>, scaled: &Vec<i64>) -> (canvas: Result<
        Canvas,
        RenderError,
    >)
        ensures
            is_rendering(canvas, values@, scaled@, self.color),
    {
        let width: usize = values.len();
        if scaled.len() != width {
            return Err(RenderError::Mismatch);
        }
        if width == 0 {
            return Err(RenderError::Empty);
        }
        let mut top: i64 = 0;
        let mut x: usize = 0;
        while x < width
            invariant
                width == values@.len(),
                width == scaled@.len(),
                x <= width,
                top == tallest(values@, scaled@, x as int),
                top >= 0,
            decreases width - x,
        {
            let rows: i64 = column_rows(values[x], scaled[x]);
            if rows > top {
                top = rows;
            }
            x = x + 1;
        }
        if top >= MAX_HEIGHT as i64 {
            return Err(RenderError::TooTall);
        }
        let height: usize = top as usize + 1;
        if width > u32::MAX as usize {
            return Err(RenderError::TooLarge);
        }
        let ghost w = width as int;
        let ghost h = height as int;
        assert((width as u32) * (height as u32) == w * h);
        let mut canvas = match Canvas::blank(width as u32, height as u32) {
            Ok(canvas) => canvas,
            Err(_) => {
                return Err(RenderError::TooLarge);
            },
        };
        let color = self.color;
        proof {
            assert(canvas.pixels@.len() == canvas.pixels.len());
            assert forall|j: int| 0 <= j < w * h implies #[trigger] canvas.cell(j) == (
            if painted_so_far(values@, scaled@, h, 0, 0, j) {
                opaque(color)
            } else {
                white()
            }) by {
                lemma_place(w, h, j);
            }
        }
        x = 0;
        while x < width
            invariant
                width == values@.len(),
                width == scaled@.len(),
                0 < width,
                x <= width,
                w == width,
                h == height,
                h == natural_height(values@, scaled@),
                h <= MAX_HEIGHT,
                w * h == canvas.cells(),
                4 * (w * h) <= usize::MAX,
                canvas.wf(),
                canvas.width == width,
                canvas.height == height,
                forall|j: int|
                    0 <= j < w * h ==> #[trigger] canvas.cell(j) == (if painted_so_far(
                        values@,
                        scaled@,
                        h,
                        x as int,
                        0,
                        j,
                    ) {
                        opaque(color)
                    } else {
                        white()
                    }),
            decreases width - x,
        {
            proof {
                lemma_tallest_bounds(values@, scaled@, w, x as int);
            }
            let rows: usize = column_rows(values[x], scaled[x]) as usize;
            let mut k: usize = 0;
            while k < rows
                invariant
                    width == values@.len(),
                    width == scaled@.len(),
                    0 < width,
                    x < width,
                    w == width,
                    h == height,
                    k <= rows,
                    rows == column_height(values@[x as int], scaled@[x as int]),
                    rows < h,
                    w * h == canvas.cells(),
                    4 * (w * h) <= usize::MAX,
                    canvas.wf(),
                    canvas.width == width,
                    canvas.height == height,
                    forall|j: int|
                        0 <= j < w * h ==> #[trigger] canvas.cell(j) == (if painted_so_far(
                            values@,
                            scaled@,
                            h,
                            x as int,
                            k as int,
                            j,
                        ) {
                            opaque(color)
                        } else {
                            white()
                        }),
                decreases rows - k,
            {
                let level: usize = height - 1 - k;
                proof {
                    lemma_cell_in_raster(w, h, x as int, level as int);
                }
                let i: usize = level * width + x;
                let ghost earlier = canvas;
                canvas.paint(i, color);
                proof {
                    vstd::arithmetic::div_mod::lemma_fundamental_div_mod_converse(
                        i as int,
                        w,
                        level as int,
                        x as int,
                    );
                    assert forall|j: int| 0 <= j < w * h implies #[trigger] canvas.cell(j) == (
                    if painted_so_far(values@, scaled@, h, x as int, k + 1, j) {
                        opaque(color)
                    } else {
                        white()
                    }) by {
                        lemma_place(w, h, j);
                        if j != i {
                            assert(canvas.cell(j) == earlier.cell(j));
                        } else {
                            assert(earlier.cell(j).3 == 255u8);
                        }
                    }
                }
                k = k + 1;
            }
            proof {
                assert forall|j: int| 0 <= j < w * h implies #[trigger] canvas.cell(j) == (
                if painted_so_far(values@, scaled@, h, x + 1, 0, j) {
                    opaque(color)
                } else {
                    white()
                }) by {
                    lemma_place(w, h, j);
                }
            }
            x = x + 1;
        }
        proof {
            let raster = histogram_raster(values@, scaled@, color);
            assert(canvas.pixels@.len() == raster.len());
            assert forall|p: int| 0 <= p < raster.len() implies canvas.pixels@[p] == raster[p] by {
                let j = p / 4;
                assert(0 <= j < w * h);
                lemma_place(w, h, j);
                assert(canvas.cell(j) == (if painted_so_far(values@, scaled@, h, w, 0, j) {
                    opaque(color)
                } else {
                    white()
                }));
                assert(painted_so_far(values@, scaled@, h, w, 0, j) == in_column(
                    values@,
                    scaled@,
                    j,
                ));
            }
            assert(canvas.pixels@ =~= raster);
        }
        Ok(canvas)
    }
}

/// No column is taller than the tallest.
pub proof fn lemma_tallest_bounds(values: Seq<u64>, scaled: Seq<i64>, n: int, x: int)
    requires
        0 <= x < n,
    ensures
        0 <= column_height(values[x], scaled[x]) <= tallest(values, scaled, n),
    decreases n,
{
    if x < n - 1 {
        lemma_tallest_bounds(values, scaled, n - 1, x);
    }
}

/// A pixel of a raster lies in one of its columns and one of its rows.
pub proof fn lemma_place(width: int, height: int, j: int)
    requires
        0 < width,
        0 <= j < width * height,
    ensures
        0 <= j % width < width,
        0 <= j / width < height,
        j == (j / width) * width + j % width,
{
    vstd::arithmetic::div_mod::lemma_fundamental_div_mod(j, width);
    vstd::arithmetic::div_mod::lemma_mod_bound(j, width);
    vstd::arithmetic::div_mod::lemma_div_pos_is_pos(j, width);
    vstd::arithmetic::div_mod::lemma_multiply_divide_lt(j, width, height);
    assert(width * (j / width) == (j / width) * width) by (nonlinear_arith);
}

/// A column and a row of a raster name one of its pixels.
pub proof fn lemma_cell_in_raster(width: int, height: int, x: int, y: int)
    requires
        0 <= x < width,
        0 <= y < height,
    ensures
        0 <= y * width + x < width * height,
        0 <= y * width,
{
    assert(y * width + x < width * height) by (nonlinear_arith)
        requires
            0 <= x < width,
            0 <= y < height,
    ;
    assert(0 <= y * width) by (nonlinear_arith)
        requires
            0 <= width,
            0 <= y,
    ;
}

impl CachablePNG for Histogram {
    type Material = Columns;

    open spec fn spec_cache_path(&self) -> Seq<char> {
        self@.cache_path()
    }

    open spec fn is_file(&self, file: Result<Vec<u8>, RenderError>, material: &Columns) -> bool {
        is_histogram_file(file, material.values@, material.scaled@, self.color)
    }

    /// Resolves the histogram to the place of its image.
    fn png_cached(&self, present: bool) -> (resolution: Resolution) {
        Resolution { path: self.cache_path(), step: plan(present, false) }
    }

    /// Draws the columns and encodes the raster.
    fn png_uncached(&self, material: &Columns) -> (file: Result<Vec<u8>, RenderError>) {
        match self.render(&material.values, &material.scaled) {
            Ok(canvas) => encode(&canvas),
            Err(e) => Err(e),
        }
    }
}

/// Aggregation linearity: the sum of two sources' bucket arrays is the
/// bucket array of the two sources' records taken together, so what is drawn
/// from the sum is what would be drawn from the joint record set.
pub proof fn lemma_sum_of_sources_is_joint_aggregate(
    a: Seq<Record>,
    b: Seq<Record>,
    of_a: Seq<u64>,
    of_b: Seq<u64>,
    start: Timestamp,
    end: Timestamp,
    width: int,
    do_pps: bool,
    i: int,
)
    requires
        of_a[i] == bucket_total(a, width, start, end, do_pps, i),
        of_b[i] == bucket_total(b, width, start, end, do_pps, i),
    ensures
        column_sum(seq![of_a, of_b], i) == bucket_total(a + b, width, start, end, do_pps, i),
{
    let both = seq![of_a, of_b];
    assert(both.drop_last() =~= seq![of_a]);
    assert(both.drop_last().drop_last() =~= Seq::<Seq<u64>>::empty());
    assert(column_sum(both.drop_last(), i) == of_a[i]) by {
        reveal_with_fuel(column_sum, 2);
    }
    lemma_aggregation_is_linear(a, b, width, start, end, do_pps, i);
}

/// An array of empty buckets has no column, whatever heights come with it:
/// its raster is one row of background.
pub proof fn lemma_empty_buckets_draw_nothing(
    values: Seq<u64>,
    scaled: Seq<i64>,
    color: (u8, u8, u8),
)
    requires
        forall|i: int| 0 <= i < values.len() ==> values[i] == 0,
    ensures
        natural_height(values, scaled) == 1,
        forall|p: int|
            0 <= p < histogram_raster(values, scaled, color).len() ==> histogram_raster(
                values,
                scaled,
                color,
            )[p] == 255u8,
        rendering_error(values, scaled) != Some(RenderError::TooTall),
{
    lemma_tallest_of_empty(values, scaled, values.len() as int);
    let width = values.len() as int;
    assert forall|p: int|
        0 <= p < histogram_raster(values, scaled, color).len() implies histogram_raster(
        values,
        scaled,
        color,
    )[p] == 255u8 by {
        let j = p / 4;
        assert(values.len() * 1 == values.len());
        lemma_place(width, 1, j);
    }
}

/// Empty buckets have no height.
pub proof fn lemma_tallest_of_empty(values: Seq<u64>, scaled: Seq<i64>, n: int)
    requires
        0 <= n <= values.len(),
        forall|i: int| 0 <= i < values.len() ==> values[i] == 0,
    ensures
        tallest(values, scaled, n) == 0,
    decreases n,
{
    if n > 0 {
        lemma_tallest_of_empty(values, scaled, n - 1);
    }
}

/// Determinism for requests: two requests with the same fields have the
/// same fingerprint, and with it the same place in the cache.
pub proof fn lemma_same_request_same_fingerprint(a: HistogramData, b: HistogramData)
    requires
        a@ == b@,
    ensures
        a@.fingerprint() == b@.fingerprint(),
        a@.cache_path() == b@.cache_path(),
{
}

/// Determinism for histograms: two histograms with the same scale, the same
/// sources and the same colour have the same fingerprint, and with it the
/// same place in the cache.
pub proof fn lemma_same_histogram_same_fingerprint(a: Histogram, b: Histogram)
    requires
        a@ == b@,
    ensures
        a@.fingerprint() == b@.fingerprint(),
        a@.cache_path() == b@.cache_path(),
{
}

/// The bytes that a request feeds tell the request, whatever is fed behind
/// them: two requests that feed the same bytes have the same fields. Two
/// different requests can thus share a fingerprint only where the digest
/// itself runs them together.
pub proof fn lemma_request_is_told(
    a: HistogramRequest,
    b: HistogramRequest,
    rest_a: Seq<Seq<u8>>,
    rest_b: Seq<Seq<u8>>,
)
    requires
        a.width <= u64::MAX,
        b.width <= u64::MAX,
        a.writes() + rest_a == b.writes() + rest_b,
    ensures
        a == b,
        rest_a == rest_b,
{
    let a7 = text_writes(a.data_file) + rest_a;
    let a6 = flag_writes(a.do_pps) + a7;
    let a5 = number_writes(a.width as u64) + a6;
    let a4 = number_writes(a.end_time.nanos) + a5;
    let a3 = number_writes(a.start_time.nanos) + a4;
    let a2 = optional_text_writes(a.filter_description) + a3;
    let b7 = text_writes(b.data_file) + rest_b;
    let b6 = flag_writes(b.do_pps) + b7;
    let b5 = number_writes(b.width as u64) + b6;
    let b4 = number_writes(b.end_time.nanos) + b5;
    let b3 = number_writes(b.start_time.nanos) + b4;
    let b2 = optional_text_writes(b.filter_description) + b3;
    lemma_request_regrouped(a, rest_a);
    lemma_request_regrouped(b, rest_b);
    lemma_optional_text_is_told(a.filter, b.filter, a2, b2);
    lemma_optional_text_is_told(a.filter_description, b.filter_description, a3, b3);
    lemma_number_is_told(a.start_time.nanos, b.start_time.nanos, a4, b4);
    lemma_number_is_told(a.end_time.nanos, b.end_time.nanos, a5, b5);
    lemma_number_is_told(a.width as u64, b.width as u64, a6, b6);
    lemma_flag_is_told(a.do_pps, b.do_pps, a7, b7);
    lemma_text_is_told(a.data_file, b.data_file, rest_a, rest_b);
    assert(a.start_time == b.start_time);
    assert(a.end_time == b.end_time);
}

/// What a request feeds, with what is fed behind it, field by field from
/// the front.
pub proof fn lemma_request_regrouped(a: HistogramRequest, rest: Seq<Seq<u8>>)
    ensures
        a.writes() + rest == optional_text_writes(a.filter) + (optional_text_writes(
            a.filter_description,
        ) + (number_writes(a.start_time.nanos) + (number_writes(a.end_time.nanos) + (number_writes(
            a.width as u64,
        ) + (flag_writes(a.do_pps) + (text_writes(a.data_file) + rest)))))),
{
    let f1 = optional_text_writes(a.filter);
    let f2 = optional_text_writes(a.filter_description);
    let f3 = number_writes(a.start_time.nanos);
    let f4 = number_writes(a.end_time.nanos);
    let f5 = number_writes(a.width as u64);
    let f6 = flag_writes(a.do_pps);
    let f7 = text_writes(a.data_file);
    let t7 = f7 + rest;
    let t6 = f6 + t7;
    let t5 = f5 + t6;
    let t4 = f4 + t5;
    let t3 = f3 + t4;
    let t2 = f2 + t3;
    lemma_regroup(f1 + f2 + f3 + f4 + f5 + f6, f7, rest);
    lemma_regroup(f1 + f2 + f3 + f4 + f5, f6, t7);
    lemma_regroup(f1 + f2 + f3 + f4, f5, t6);
    lemma_regroup(f1 + f2 + f3, f4, t5);
    lemma_regroup(f1 + f2, f3, t4);
    lemma_regroup(f1, f2, t3);
}

/// The sources feed the first source and then the others.
pub proof fn lemma_sources_from_the_front(data: Seq<HistogramRequest>)
    requires
        data.len() > 0,
    ensures
        sources_writes(data) == data.first().writes() + sources_writes(data.drop_first()),
    decreases data.len(),
{
    if data.len() == 1 {
        assert(data.drop_last() =~= Seq::<HistogramRequest>::empty());
        assert(data.drop_first() =~= Seq::<HistogramRequest>::empty());
        assert(sources_writes(data) =~= data.first().writes() + sources_writes(
            data.drop_first(),
        ));
    } else {
        let front = data.drop_last();
        lemma_sources_from_the_front(front);
        assert(front.drop_first() =~= data.drop_first().drop_last());
        assert(front.first() == data.first());
        assert(data.drop_first().last() == data.last());
        assert(sources_writes(data) =~= data.first().writes() + sources_writes(
            data.drop_first(),
        ));
    }
}

/// The bytes that equally many sources feed tell the sources, whatever is
/// fed behind them.
pub proof fn lemma_sources_are_told(
    a: Seq<HistogramRequest>,
    b: Seq<HistogramRequest>,
    rest_a: Seq<Seq<u8>>,
    rest_b: Seq<Seq<u8>>,
)
    requires
        a.len() == b.len(),
        forall|i: int| 0 <= i < a.len() ==> (#[trigger] a[i]).width <= u64::MAX,
        forall|i: int| 0 <= i < b.len() ==> (#[trigger] b[i]).width <= u64::MAX,
        sources_writes(a) + rest_a == sources_writes(b) + rest_b,
    ensures
        a == b,
        rest_a == rest_b,
    decreases a.len(),
{
    if a.len() == 0 {
        assert(sources_writes(a) + rest_a =~= rest_a);
        assert(sources_writes(b) + rest_b =~= rest_b);
        assert(a =~= b);
    } else {
        lemma_sources_from_the_front(a);
        lemma_sources_from_the_front(b);
        let tail_a = sources_writes(a.drop_first()) + rest_a;
        let tail_b = sources_writes(b.drop_first()) + rest_b;
        assert(sources_writes(a) + rest_a =~= a.first().writes() + tail_a);
        assert(sources_writes(b) + rest_b =~= b.first().writes() + tail_b);
        assert(a.first().width <= u64::MAX);
        assert(b.first().width <= u64::MAX);
        lemma_request_is_told(a.first(), b.first(), tail_a, tail_b);
        assert forall|i: int| 0 <= i < a.drop_first().len() implies (#[trigger] a.drop_first()[
            i
        ]).width <= u64::MAX by {
            assert(a.drop_first()[i] == a[i + 1]);
        }
        assert forall|i: int| 0 <= i < b.drop_first().len() implies (#[trigger] b.drop_first()[
            i
        ]).width <= u64::MAX by {
            assert(b.drop_first()[i] == b[i + 1]);
        }
        lemma_sources_are_told(a.drop_first(), b.drop_first(), rest_a, rest_b);
        assert forall|i: int| 0 <= i < a.len() implies a[i] == b[i] by {
            if i > 0 {
                assert(a.drop_first()[i - 1] == a[i]);
                assert(b.drop_first()[i - 1] == b[i]);
            }
        }
        assert(a =~= b);
    }
}

/// The bytes that a histogram feeds tell the histogram: two histograms that
/// feed the same bytes have the same scale, the same sources and the same
/// colour.
pub proof fn lemma_histogram_is_told(a: HistogramElement, b: HistogramElement)
    requires
        a.data.len() <= u64::MAX,
        b.data.len() <= u64::MAX,
        forall|i: int| 0 <= i < a.data.len() ==> (#[trigger] a.data[i]).width <= u64::MAX,
        forall|i: int| 0 <= i < b.data.len() ==> (#[trigger] b.data[i]).width <= u64::MAX,
        a.writes() == b.writes(),
    ensures
        a == b,
{
    let a5 = color_writes(a.color) + text_writes(rules_mark());
    let a4 = sources_writes(a.data) + a5;
    let a3 = number_writes(a.data.len() as u64) + a4;
    let a2 = text_writes(a.yscale) + a3;
    let b5 = color_writes(b.color) + text_writes(rules_mark());
    let b4 = sources_writes(b.data) + b5;
    let b3 = number_writes(b.data.len() as u64) + b4;
    let b2 = text_writes(b.yscale) + b3;
    assert(a.writes() =~= flag_writes(a.do_log) + a2);
    assert(b.writes() =~= flag_writes(b.do_log) + b2);
    lemma_flag_is_told(a.do_log, b.do_log, a2, b2);
    lemma_text_is_told(a.yscale, b.yscale, a3, b3);
    lemma_number_is_told(a.data.len() as u64, b.data.len() as u64, a4, b4);
    lemma_sources_are_told(a.data, b.data, a5, b5);
    lemma_color_is_told(a.color, b.color, text_writes(rules_mark()), text_writes(rules_mark()));
}

} // verus!
