//! The bit grid: one packet drawn bit by bit, 256 bits to the row.

use crate::cachable::{plan, CachablePNG, Resolution};
use crate::canvas::{encode, png_file, white, Canvas, RenderError};
use crate::capture::{capture_is_safe, is_safe};
use crate::fingerprint::{
    digest, feed_number, feed_text, lemma_number_is_told, lemma_text_is_told, number_writes,
    text_writes,
};
use crate::text::{decimal_text, push_decimal};
use std::collections::hash_map::DefaultHasher;
use std::hash::Hasher;
use vstd::prelude::*;

verus! {

/// The error of the `pcarp` crate. It is carried through unread.
#[verifier::external_type_specification]
#[verifier::external_body]
pub struct ExPcarpError(pcarp::Error);

/// The pixels in a row of the grid: 32 bytes of eight bits.
pub const GRID_WIDTH: u32 = 256;

/// A packet drawn as a grid of bits.
#[derive(Clone, Debug)]
pub struct Datagram {
    pub packet_path: String,
    pub gray_value: u8,
}

/// A bit grid as a mathematical value.
pub struct DatagramElement {
    pub packet_path: Seq<char>,
    pub gray_value: u8,
}

impl DatagramElement {
    /// What the element feeds into the hash state: the path of its capture,
    /// then its intensity.
    pub open spec fn writes(self) -> Seq<Seq<u8>> {
        text_writes(self.packet_path) + number_writes(self.gray_value as u64)
    }

    /// The fingerprint of the element.
    pub open spec fn fingerprint(self) -> u64 {
        digest(self.writes())
    }

    /// The place of the element's image in the cache.
    pub open spec fn cache_path(self) -> Seq<char> {
        "./cache/"@ + decimal_text(self.fingerprint() as nat) + ".png"@
    }
}

impl View for Datagram {
    type V = DatagramElement;

    open spec fn view(&self) -> DatagramElement {
        DatagramElement { packet_path: self.packet_path@, gray_value: self.gray_value }
    }
}

/// The first packet of a capture as the `pcarp` crate reads it: `None`
/// where it fails on the capture, `Some(None)` where the capture holds no
/// packet.
pub uninterp spec fn capture_first_packet(capture: Seq<u8>) -> Option<Option<Seq<u8>>>;

/// Reads the first packet of a capture in memory with `pcarp::Capture::new`
/// and one call of the capture's `next`. The contract gives what comes back a
/// name and claims nothing of it but that it depends on the capture's bytes
/// alone. It leaves out the captures on which the reader panics: it reads 16
/// bytes of a section header's body after a test for 12, it counts the
/// sections in 32 bits, and it adds the first packet's time stamp to the
/// epoch of the system's clock, which on this kind of system counts seconds
/// in 64 bits with a sign. `capture::is_safe` holds of no such capture.
#[verifier::external_body]
fn read_first_packet(capture: &[u8]) -> (packet: Result<Option<Vec<u8>>, pcarp::Error>)
    requires
        is_safe(capture@),
    ensures
        match packet {
            Ok(Some(data)) => capture_first_packet(capture@) == Some(Some(data@)),
            Ok(None) => capture_first_packet(capture@) == Some(None::<Seq<u8>>),
            Err(_) => capture_first_packet(capture@) is None,
        },
{
    pcarp::Capture::new(capture).next().transpose().map(|found| found.map(|p| p.data.to_vec()))
}

/// What `first_packet` owes for a capture: the packet that the reader
/// finds, `NoPacket` where it finds none, and `UnreadableCapture` where it
/// fails or the capture cannot be handed to it.
pub open spec fn is_first_packet(data: Result<Vec<u8>, RenderError>, capture: Seq<u8>) -> bool {
    if !is_safe(capture) {
        data matches Err(RenderError::UnreadableCapture)
    } else {
        match capture_first_packet(capture) {
            None => data matches Err(RenderError::UnreadableCapture),
            Some(None) => data matches Err(RenderError::NoPacket),
            Some(Some(bytes)) => data matches Ok(found) && found@ == bytes,
        }
    }
}

/// The bytes of the first packet of a capture. Only the first packet is ever
/// drawn.
pub fn first_packet(capture: &[u8]) -> (data: Result<Vec<u8>, RenderError>)
    ensures
        is_first_packet(data, capture@),
{
    if !capture_is_safe(capture) {
        return Err(RenderError::UnreadableCapture);
    }
    match read_first_packet(capture) {
        Ok(Some(data)) => Ok(data),
        Ok(None) => Err(RenderError::NoPacket),
        Err(_) => Err(RenderError::UnreadableCapture),
    }
}

/// The rows of the grid for a packet of `len` bytes: those that the bytes
/// fill or begin, and one more.
pub open spec fn grid_rows(len: int) -> int {
    (len + 31) / 32 + 1
}

/// Whether bit `j` of a byte is set, bit 0 being the highest.
pub open spec fn bit_is_set(byte: u8, j: u8) -> bool {
    byte & (128u8 >> j) != 0
}

/// Whether the pixel that is `j` places behind the top left one stands for a
/// set bit of the packet.
pub open spec fn is_set_bit(data: Seq<u8>, j: int) -> bool {
    j < 8 * data.len() && bit_is_set(data[j / 8], (j % 8) as u8)
}

/// The bytes of a packet's grid: a set bit has the intensity in its three
/// colour channels, everything else is opaque white.
pub open spec fn grid_raster(data: Seq<u8>, gray: u8) -> Seq<u8> {
    Seq::new(
        (4 * (GRID_WIDTH * grid_rows(data.len() as int))) as nat,
        |k: int|
            if is_set_bit(data, k / 4) && k % 4 < 3 {
                gray
            } else {
                255u8
            },
    )
}

/// Why a packet cannot be drawn, if it cannot: its grid is beyond what the
/// machine counts.
pub open spec fn grid_error(len: int) -> Option<RenderError> {
    if grid_rows(len) > u32::MAX || 4 * (GRID_WIDTH * grid_rows(len)) > usize::MAX {
        Some(RenderError::TooLarge)
    } else {
        None
    }
}

/// What `bit_grid` owes for a packet and an intensity.
pub open spec fn is_grid(canvas: Result<Canvas, RenderError>, data: Seq<u8>, gray: u8) -> bool {
    match grid_error(data.len() as int) {
        Some(e) => canvas matches Err(f) && f == e,
        None => {
            &&& canvas matches Ok(canvas)
            &&& canvas.wf()
            &&& canvas.width == GRID_WIDTH
            &&& canvas.height == grid_rows(data.len() as int)
            &&& canvas.pixels@ == grid_raster(data, gray)
        },
    }
}

/// What is owed for the file of a packet's grid.
pub open spec fn is_grid_file(file: Result<Vec<u8>, RenderError>, data: Seq<u8>, gray: u8) -> bool {
    match grid_error(data.len() as int) {
        Some(e) => file matches Err(f) && f == e,
        None => file matches Ok(file) && file@ == png_file(
            GRID_WIDTH,
            grid_rows(data.len() as int) as u32,
            grid_raster(data, gray),
        ),
    }
}

/// What `png_uncached` owes for a capture.
pub open spec fn is_datagram_file(
    file: Result<Vec<u8>, RenderError>,
    capture: Seq<u8>,
    gray: u8,
) -> bool {
    if !is_safe(capture) {
        file matches Err(RenderError::UnreadableCapture)
    } else {
        match capture_first_packet(capture) {
            None => file matches Err(RenderError::UnreadableCapture),
            Some(None) => file matches Err(RenderError::NoPacket),
            Some(Some(data)) => is_grid_file(file, data, gray),
        }
    }
}

/// The pixel of a set bit.
pub open spec fn gray_pixel(gray: u8) -> (u8, u8, u8, u8) {
    (gray, gray, gray, 255u8)
}

impl Datagram {
    /// Feeds the element's identity into a hash state.
    pub fn feed(&self, state: &mut DefaultHasher)
        ensures
            final(state)@ == old(state)@ + self@.writes(),
    {
        feed_text(state, self.packet_path.as_str());
        feed_number(state, self.gray_value as u64);
        assert(state@ =~= old(state)@ + self@.writes());
    }

    /// The fingerprint of the element: the digest of its identity.
    pub fn fingerprint(&self) -> (fp: u64)
        ensures
            fp == self@.fingerprint(),
    {
        let mut state = DefaultHasher::new();
        self.feed(&mut state);
        assert(state@ =~= self@.writes());
        state.finish()
    }

    /// The place of the element's image in the cache.
    pub fn cache_path(&self) -> (path: String)
        ensures
            path@ == self@.cache_path(),
    {
        let mut path = String::from_str("./cache/");
        push_decimal(&mut path, self.fingerprint());
        path.append(".png");
        path
    }

    /// Draws a packet: every bit of every byte in turn, the highest bit of a
    /// byte first, 256 bits to the row.
    pub fn bit_grid(&self, data: &[u8]) -> (canvas: Result<Canvas, RenderError>)
        ensures
            is_grid(canvas, data@, self.gray_value),
    {
        let len: usize = data.len();
        let filled: usize = len / 32 + if len % 32 != 0 {
            1
        } else {
            0
        };
        let rows: usize = filled + 1;
        assert(rows == grid_rows(len as int));
        if rows > u32::MAX as usize {
            return Err(RenderError::TooLarge);
        }
        let mut canvas = match Canvas::blank(GRID_WIDTH, rows as u32) {
            Ok(canvas) => canvas,
            Err(_) => {
                return Err(RenderError::TooLarge);
            },
        };
        let gray: u8 = self.gray_value;
        let color = (gray, gray, gray);
        let ghost cells = 256 * (rows as int);
        assert(canvas.pixels@.len() == canvas.pixels.len());
        let mut b: usize = 0;
        while b < len
            invariant
                len == data@.len(),
                rows == grid_rows(len as int),
                cells == 256 * rows,
                cells == canvas.cells(),
                4 * cells <= usize::MAX,
                b <= len,
                color == (gray, gray, gray),
                canvas.wf(),
                canvas.width == GRID_WIDTH,
                canvas.height == rows,
                forall|i: int|
                    0 <= i < cells ==> #[trigger] canvas.cell(i) == (if i < 8 * b && is_set_bit(
                        data@,
                        i,
                    ) {
                        gray_pixel(gray)
                    } else {
                        white()
                    }),
            decreases len - b,
        {
            let byte: u8 = data[b];
            let mut j: u8 = 0;
            while j < 8
                invariant
                    len == data@.len(),
                    rows == grid_rows(len as int),
                    cells == 256 * rows,
                    cells == canvas.cells(),
                    4 * cells <= usize::MAX,
                    b < len,
                    j <= 8,
                    byte == data@[b as int],
                    color == (gray, gray, gray),
                    canvas.wf(),
                    canvas.width == GRID_WIDTH,
                    canvas.height == rows,
                    forall|i: int|
                        0 <= i < cells ==> #[trigger] canvas.cell(i) == (if i < 8 * b + j
                            && is_set_bit(data@, i) {
                            gray_pixel(gray)
                        } else {
                            white()
                        }),
                decreases 8 - j,
            {
                if byte & (128u8 >> j) != 0 {
                    let i: usize = 8 * b + j as usize;
                    canvas.paint(i, color);
                }
                j = j + 1;
            }
            b = b + 1;
        }
        proof {
            let raster = grid_raster(data@, gray);
            assert(canvas.pixels@.len() == raster.len());
            assert forall|p: int| 0 <= p < raster.len() implies canvas.pixels@[p] == raster[p] by {
                let i = p / 4;
                assert(0 <= i < cells);
                assert(canvas.cell(i) == (if i < 8 * len && is_set_bit(data@, i) {
                    gray_pixel(gray)
                } else {
                    white()
                }));
            }
            assert(canvas.pixels@ =~= raster);
        }
        Ok(canvas)
    }
}

impl CachablePNG for Datagram {
    type Material = Vec<u8>;

    open spec fn spec_cache_path(&self) -> Seq<char> {
        self@.cache_path()
    }

    open spec fn is_file(&self, file: Result<Vec<u8>, RenderError>, material: &Vec<u8>) -> bool {
        is_datagram_file(file, material@, self.gray_value)
    }

    /// Resolves the bit grid to the place of its image.
    fn png_cached(&self, present: bool) -> (resolution: Resolution) {
        Resolution { path: self.cache_path(), step: plan(present, false) }
    }

    /// Draws the first packet of a capture and encodes the raster.
    fn png_uncached(&self, material: &Vec<u8>) -> (file: Result<Vec<u8>, RenderError>) {
        let data = match first_packet(material.as_slice()) {
            Ok(data) => data,
            Err(e) => {
                return Err(e);
            },
        };
        match self.bit_grid(data.as_slice()) {
            Ok(canvas) => encode(&canvas),
            Err(e) => Err(e),
        }
    }
}

/// Determinism for bit grids: two bit grids of the same capture with the
/// same intensity have the same fingerprint, and with it the same place in
/// the cache.
pub proof fn lemma_same_datagram_same_fingerprint(a: Datagram, b: Datagram)
    requires
        a@ == b@,
    ensures
        a@.fingerprint() == b@.fingerprint(),
        a@.cache_path() == b@.cache_path(),
{
}

/// The bytes that a bit grid feeds tell the bit grid: two bit grids that
/// feed the same bytes are of the same capture and have the same intensity.
pub proof fn lemma_datagram_is_told(a: DatagramElement, b: DatagramElement)
    requires
        a.writes() == b.writes(),
    ensures
        a == b,
{
    let empty = Seq::<Seq<u8>>::empty();
    let tail_a = number_writes(a.gray_value as u64) + empty;
    let tail_b = number_writes(b.gray_value as u64) + empty;
    assert(a.writes() =~= text_writes(a.packet_path) + tail_a);
    assert(b.writes() =~= text_writes(b.packet_path) + tail_b);
    lemma_text_is_told(a.packet_path, b.packet_path, tail_a, tail_b);
    lemma_number_is_told(a.gray_value as u64, b.gray_value as u64, empty, empty);
}

} // verus!
