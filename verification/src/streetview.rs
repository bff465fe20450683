//! Reading the answer of the street-view metadata service: the panorama's
//! position and identifier, or the first piece that is missing.
//!
//! The answer's bytes are read as JSON by `serde_json`; what that reading
//! gives is named here as a function of the bytes alone, and the decisions
//! on it are made in verified code.

use vstd::prelude::*;

use crate::geo::{Coordinates, Location};

verus! {

/// `serde_json` reads `body` as a JSON value.
pub uninterp spec fn json_parses(body: Seq<u8>) -> bool;

/// `body` read as JSON is an object with a field `key`.
pub uninterp spec fn json_has_field(body: Seq<u8>, key: Seq<char>) -> bool;

/// The field `key` of the object in field `outer` of `body` read as JSON, as
/// the bit pattern of the `f64` that `serde_json::Value::as_f64` gives, if
/// there is such a field and it is a number.
pub uninterp spec fn json_nested_number_bits(body: Seq<u8>, outer: Seq<char>, key: Seq<char>) -> Option<u64>;

/// The text of the field `key` of `body` read as JSON, if there is such a
/// field and it is a string.
pub uninterp spec fn json_field_text(body: Seq<u8>, key: Seq<char>) -> Option<Seq<char>>;

/// Whether `serde_json::from_slice` reads `body` as a `serde_json::Value`.
#[verifier::external_body]
fn parses(body: &[u8]) -> (r: bool)
    ensures
        r == json_parses(body@),
{
    serde_json::from_slice::<serde_json::Value>(body).is_ok()
}

/// Whether `body`, read by `serde_json::from_slice` as a `serde_json::Value`,
/// has a field `key` (`Value::get`, which gives nothing on a value that is
/// not an object); `false` if `body` is not JSON.
#[verifier::external_body]
fn has_field(body: &[u8], key: &str) -> (r: bool)
    ensures
        r == (json_parses(body@) && json_has_field(body@, key@)),
{
    match serde_json::from_slice::<serde_json::Value>(body) {
        Ok(v) => v.get(key).is_some(),
        Err(_) => false,
    }
}

/// The number at `outer`.`key` of `body` read by `serde_json::from_slice`
/// (`Value::get` twice, then `Value::as_f64`), as its bit pattern; `None` if
/// `body` is not JSON.
#[verifier::external_body]
fn nested_number_bits(body: &[u8], outer: &str, key: &str) -> (r: Option<u64>)
    ensures
        r == (if json_parses(body@) {
            json_nested_number_bits(body@, outer@, key@)
        } else {
            None
        }),
{
    match serde_json::from_slice::<serde_json::Value>(body) {
        Ok(v) => v.get(outer).and_then(|o| o.get(key)).and_then(|x| x.as_f64()).map(|x| x.to_bits()),
        Err(_) => None,
    }
}

/// The text at `key` of `body` read by `serde_json::from_slice`
/// (`Value::get`, then `Value::as_str`); `None` if `body` is not JSON.
#[verifier::external_body]
fn field_text(body: &[u8], key: &str) -> (r: Option<String>)
    ensures
        match r {
            Some(t) => json_parses(body@) && json_field_text(body@, key@) == Some(t@),
            None => !json_parses(body@) || json_field_text(body@, key@) is None,
        },
{
    match serde_json::from_slice::<serde_json::Value>(body) {
        Ok(v) => v.get(key).and_then(|x| x.as_str()).map(|t| t.to_string()),
        Err(_) => None,
    }
}

/// Why a metadata answer names no panorama.
#[derive(Debug, Clone, Copy, PartialEq, Eq, Structural)]
pub enum MetadataError {
    /// The answer is not JSON.
    NotJson,
    /// It has no `location` field.
    NoLocation,
    /// The location has no numeric `lat`.
    NoLatitude,
    /// The location has no numeric `lng`.
    NoLongitude,
    /// It has no `pano_id` field.
    NoPanoId,
    /// Its `pano_id` is not a string.
    PanoIdNotText,
}

/// The first piece an answer lacks, in the order they are looked for:
/// `location`, its `lat`, its `lng`, `pano_id`, and `pano_id` being text.
pub open spec fn metadata_error(body: Seq<u8>) -> Option<MetadataError> {
    if !json_parses(body) {
        Some(MetadataError::NotJson)
    } else if !json_has_field(body, "location"@) {
        Some(MetadataError::NoLocation)
    } else if json_nested_number_bits(body, "location"@, "lat"@) is None {
        Some(MetadataError::NoLatitude)
    } else if json_nested_number_bits(body, "location"@, "lng"@) is None {
        Some(MetadataError::NoLongitude)
    } else if !json_has_field(body, "pano_id"@) {
        Some(MetadataError::NoPanoId)
    } else if json_field_text(body, "pano_id"@) is None {
        Some(MetadataError::PanoIdNotText)
    } else {
        None
    }
}

/// The text an error is reported with.
pub open spec fn metadata_error_message(e: MetadataError) -> Seq<char> {
    match e {
        MetadataError::NotJson => "expected a JSON response"@,
        MetadataError::NoLocation => "expected location field in response"@,
        MetadataError::NoLatitude => "expected latitude in location response as float 64"@,
        MetadataError::NoLongitude => "expected longitude in location response as float 64"@,
        MetadataError::NoPanoId => "expected pano id"@,
        MetadataError::PanoIdNotText => "expected pano id to be a string"@,
    }
}

impl MetadataError {
    pub fn message(&self) -> (m: &'static str)
        ensures
            m@ == metadata_error_message(*self),
    {
        match self {
            MetadataError::NotJson => "expected a JSON response",
            MetadataError::NoLocation => "expected location field in response",
            MetadataError::NoLatitude => "expected latitude in location response as float 64",
            MetadataError::NoLongitude => "expected longitude in location response as float 64",
            MetadataError::NoPanoId => "expected pano id",
            MetadataError::PanoIdNotText => "expected pano id to be a string",
        }
    }
}

/// The panorama a metadata answer names: its position (`location.lat`,
/// `location.lng`) and identifier (`pano_id`); otherwise the first piece
/// the answer lacks.
pub fn panorama_from_metadata(body: &[u8]) -> (r: Result<Location, MetadataError>)
    ensures
        match r {
            Ok(l) => metadata_error(body@) is None
                && json_nested_number_bits(body@, "location"@, "lat"@) == Some(l.coordinates.lat)
                && json_nested_number_bits(body@, "location"@, "lng"@) == Some(l.coordinates.lng)
                && json_field_text(body@, "pano_id"@) == Some(l.pano_id@),
            Err(e) => metadata_error(body@) == Some(e),
        },
{
    if !parses(body) {
        return Err(MetadataError::NotJson);
    }
    if !has_field(body, "location") {
        return Err(MetadataError::NoLocation);
    }
    let lat = match nested_number_bits(body, "location", "lat") {
        Some(v) => v,
        None => return Err(MetadataError::NoLatitude),
    };
    let lng = match nested_number_bits(body, "location", "lng") {
        Some(v) => v,
        None => return Err(MetadataError::NoLongitude),
    };
    if !has_field(body, "pano_id") {
        return Err(MetadataError::NoPanoId);
    }
    let pano_id = match field_text(body, "pano_id") {
        Some(t) => t,
        None => return Err(MetadataError::PanoIdNotText),
    };
    Ok(Location { coordinates: Coordinates { lat, lng }, pano_id })
}

} // verus!
