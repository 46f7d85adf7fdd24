//! Rendering of packet captures into raster images, with every expensive
//! result kept in a cache that is addressed by a fingerprint of the request.
//!
//! The library decides and computes; it never touches a file. Whoever uses
//! it reads the captures, runs the record source, looks into the cache
//! directory and writes what the library hands back.
//!
//! - [`fingerprint`] feeds the fields of a request into a hash state.
//! - [`cachable`] holds the cached-or-compute contract of all elements.
//! - [`codec`] is the stored form of a bucket array.
//! - [`records`] reads the record source's table.
//! - [`bucket`] sorts records into time slices and adds them up.
//! - [`histogram`] is the request for one source's bucket array and the
//!   element that draws the sum of several sources.
//! - [`datagram`] is the element that draws one packet bit by bit.
//! - [`canvas`] is the raster that both elements paint on.
//! - [`capture`] tests a capture before the reader sees it.
//! - [`plakat`] is the poster with its elements by id.
//! - [`template`] picks the references of the template that are to change.
//! - [`setup`] makes the poster's requests and tests them.
//! - [`text`] reads and writes numbers.

pub mod bucket;
pub mod cachable;
pub mod canvas;
pub mod capture;
pub mod codec;
pub mod datagram;
pub mod fingerprint;
pub mod histogram;
pub mod plakat;
pub mod records;
pub mod setup;
pub mod template;
pub mod text;
