//! Places on the map, and the stored road points they are drawn from.
//!
//! Coordinates are degrees held as IEEE-754 double bit patterns: the library
//! stores and compares them, while the arithmetic on them is done by callers.

use vstd::prelude::*;

verus! {

pub type PanoId = String;

/// Latitude and longitude, each the bit pattern of an `f64` in degrees.
#[derive(Debug, Clone, Copy, PartialEq, Eq, Structural)]
pub struct Coordinates {
    pub lat: u64,
    pub lng: u64,
}

/// A street-view panorama and where it stands.
pub struct Location {
    pub coordinates: Coordinates,
    pub pano_id: PanoId,
}

impl Clone for Location {
    fn clone(&self) -> (r: Self)
        ensures
            r == *self,
    {
        Location { coordinates: self.coordinates, pano_id: self.pano_id.clone() }
    }
}

/// Bytes per stored road point: latitude then longitude, each a little-endian `f32`.
pub const POINT_SIZE: usize = 8;

/// The little-endian 32-bit number at `off`.
pub open spec fn le_u32(s: Seq<u8>, off: int) -> int {
    s[off] + 256 * s[off + 1] + 65536 * s[off + 2] + 16777216 * s[off + 3]
}

/// How many whole points `byte_len` bytes hold.
pub fn point_count(byte_len: usize) -> (n: usize)
    ensures
        n == byte_len / 8,
{
    byte_len / POINT_SIZE
}

/// The bit patterns of the `f32` latitude and longitude of the point at `index`.
pub fn point_bits(data: &[u8], index: usize) -> (r: (u32, u32))
    requires
        index < data@.len() / 8,
    ensures
        r.0 == le_u32(data@, index * 8),
        r.1 == le_u32(data@, index * 8 + 4),
{
    let len = data.len();
    proof {
        assert(index * 8 + 8 <= data@.len()) by (nonlinear_arith)
            requires
                index < data@.len() / 8,
        ;
    }
    let off = index * POINT_SIZE;
    let lat = data[off] as u32 + data[off + 1] as u32 * 256 + data[off + 2] as u32 * 65536
        + data[off + 3] as u32 * 16777216;
    let lng = data[off + 4] as u32 + data[off + 5] as u32 * 256 + data[off + 6] as u32 * 65536
        + data[off + 7] as u32 * 16777216;
    (lat, lng)
}

} // verus!
