//! The descriptor that stands beside a waveform: a JSON object that names
//! the waveform and lists the markers of its executions.

use vstd::prelude::*;

verus! {

/// A JSON value, as far as a descriptor is read: a number holds its value
/// where that is an unsigned integer of 64 bits, and nothing else of it.
pub enum Json {
    Null,
    Bool(bool),
    Number(Option<u64>),
    Text(String),
    Array(Vec<Json>),
    Object(Vec<(String, Json)>),
}

/// `serde_json::Value`, carried from the parser to the reading of its
/// content; nothing is known of it but through [`json_content`].
#[verifier::external_type_specification]
#[verifier::external_body]
pub struct ExJsonValue(serde_json::Value);

/// What `serde_json` reads from a text: the value, or nothing where the
/// text is not JSON.
pub uninterp spec fn json_parse(text: Seq<u8>) -> Option<Json>;

/// What a value of `serde_json` holds.
pub uninterp spec fn json_content(value: serde_json::Value) -> Json;

/// What a gzip stream unpacks to, or nothing where the bytes are no such
/// stream.
pub uninterp spec fn gunzipped(bytes: Seq<u8>) -> Option<Seq<u8>>;

/// `serde_json::from_slice` at the type `serde_json::Value`: the value that
/// the text stands for, or nothing where the text is not JSON.
#[verifier::external_body]
fn json_from_slice(text: &[u8]) -> (r: Option<serde_json::Value>)
    ensures
        match r {
            Some(value) => json_parse(text@) == Some(json_content(value)),
            None => json_parse(text@) is None,
        },
{
    serde_json::from_slice::<serde_json::Value>(text).ok()
}

/// The content of a `serde_json::Value`, variant by variant; of a number,
/// what `serde_json::Number::as_u64` gives; of an object, the members in the
/// order in which its map hands them out.
#[verifier::external_body]
fn json_from_value(value: &serde_json::Value) -> (json: Json)
    ensures
        json == json_content(*value),
{
    match value {
        serde_json::Value::Null => Json::Null,
        serde_json::Value::Bool(b) => Json::Bool(*b),
        serde_json::Value::Number(n) => Json::Number(n.as_u64()),
        serde_json::Value::String(s) => Json::Text(s.clone()),
        serde_json::Value::Array(items) => Json::Array(items.iter().map(json_from_value).collect()),
        serde_json::Value::Object(members) => Json::Object(
            members.iter().map(|(k, v)| (k.clone(), json_from_value(v))).collect(),
        ),
    }
}

/// `flate2::read::GzDecoder` read to its end: the bytes that the gzip stream
/// unpacks to, or nothing where reading fails.
#[verifier::external_body]
fn gunzip(bytes: &[u8]) -> (r: Option<Vec<u8>>)
    ensures
        match r {
            Some(unpacked) => gunzipped(bytes@) == Some(unpacked@),
            None => gunzipped(bytes@) is None,
        },
{
    let mut unpacked = Vec::new();
    match std::io::Read::read_to_end(&mut flate2::read::GzDecoder::new(bytes), &mut unpacked) {
        Ok(_) => Some(unpacked),
        Err(_) => None,
    }
}

/// The first member of `members` under `key`.
pub open spec fn first_member(members: Seq<(String, Json)>, key: Seq<char>) -> Option<Json>
    decreases members.len(),
{
    if members.len() == 0 {
        None
    } else if members[0].0@ == key {
        Some(members[0].1)
    } else {
        first_member(members.skip(1), key)
    }
}

/// The member of an object under `key`; nothing where there is none or the
/// value is no object.
pub open spec fn member(json: Json, key: Seq<char>) -> Option<Json> {
    match json {
        Json::Object(members) => first_member(members@, key),
        _ => None,
    }
}

/// The marker that a JSON value stands for: an array of a start time, an
/// end time and a label, all unsigned integers, the label of 16 bits.
pub open spec fn marker_of(json: Json) -> Option<(u64, u64, u16)> {
    match json {
        Json::Array(items) => if items@.len() == 3 {
            match (items@[0], items@[1], items@[2]) {
                (
                    Json::Number(Some(start)),
                    Json::Number(Some(end)),
                    Json::Number(Some(label)),
                ) => if label <= u16::MAX {
                    Some((start, end, label as u16))
                } else {
                    None
                },
                _ => None,
            }
        } else {
            None
        },
        _ => None,
    }
}

/// Whether every item stands for a marker.
pub open spec fn all_markers(items: Seq<Json>) -> bool {
    forall|i: int| 0 <= i < items.len() ==> marker_of(#[trigger] items[i]) is Some
}

/// The markers that the items stand for.
pub open spec fn markers_of(items: Seq<Json>) -> Seq<(u64, u64, u16)> {
    Seq::new(items.len(), |i: int| marker_of(items[i]).unwrap())
}

/// A descriptor: the name of the waveform file, relative to the directory of
/// the descriptor; the clock period, where samples are to be taken at its
/// multiples only; and the markers, where the descriptor lists them.
pub struct Descriptor {
    pub trace_filename: String,
    pub clock_period: Option<u64>,
    pub markers: Option<Vec<(u64, u64, u16)>>,
}

/// Mathematical model of a [`Descriptor`].
pub struct DescriptorModel {
    pub trace_filename: Seq<char>,
    pub clock_period: Option<u64>,
    pub markers: Option<Seq<(u64, u64, u16)>>,
}

impl View for Descriptor {
    type V = DescriptorModel;

    open spec fn view(&self) -> DescriptorModel {
        DescriptorModel {
            trace_filename: self.trace_filename@,
            clock_period: self.clock_period,
            markers: match self.markers {
                Some(markers) => Some(markers@),
                None => None,
            },
        }
    }
}

/// Why a descriptor cannot be had.
#[derive(Debug, PartialEq, Eq)]
pub enum DescriptorError {
    /// The bytes are said to be compressed and are no gzip stream.
    Unreadable,
    /// The text is not JSON.
    Unparsable,
    /// The value has no member `trace_filename` that is a string.
    MissingTraceFilename,
    /// The member `markers` is no array of markers.
    MalformedMarkers,
}

/// The clock period that a JSON value names: its member `clock_period`
/// where that is an unsigned integer.
pub open spec fn clock_period_of(json: Json) -> Option<u64> {
    match member(json, "clock_period"@) {
        Some(Json::Number(period)) => period,
        _ => None,
    }
}

/// The descriptor that a JSON value stands for.
pub open spec fn descriptor_of(json: Json) -> Result<DescriptorModel, DescriptorError> {
    match member(json, "trace_filename"@) {
        Some(Json::Text(name)) => match member(json, "markers"@) {
            None => Ok(
                DescriptorModel {
                    trace_filename: name@,
                    clock_period: clock_period_of(json),
                    markers: None,
                },
            ),
            Some(Json::Array(items)) => if all_markers(items@) {
                Ok(
                    DescriptorModel {
                        trace_filename: name@,
                        clock_period: clock_period_of(json),
                        markers: Some(markers_of(items@)),
                    },
                )
            } else {
                Err(DescriptorError::MalformedMarkers)
            },
            Some(_) => Err(DescriptorError::MalformedMarkers),
        },
        _ => Err(DescriptorError::MissingTraceFilename),
    }
}

/// Whether a result holds the descriptor, or the error, of a model.
pub open spec fn describes(
    r: Result<Descriptor, DescriptorError>,
    model: Result<DescriptorModel, DescriptorError>,
) -> bool {
    match (r, model) {
        (Ok(d), Ok(m)) => d@ == m,
        (Err(e), Err(f)) => e == f,
        _ => false,
    }
}

/// Finds the member of an object under `key`.
pub fn find_member<'a>(json: &'a Json, key: &str) -> (r: Option<&'a Json>)
    ensures
        match r {
            Some(found) => member(*json, key@) == Some(*found),
            None => member(*json, key@) is None,
        },
{
    match json {
        Json::Object(members) => {
            let wanted: String = key.to_owned();
            let mut i: usize = 0;
            proof {
                assert(members@.skip(0) =~= members@);
            }
            while i < members.len()
                invariant
                    i <= members@.len(),
                    wanted@ == key@,
                    member(*json, key@) == first_member(members@, key@),
                    first_member(members@, key@) == first_member(members@.skip(i as int), key@),
                decreases members@.len() - i,
            {
                proof {
                    assert(members@.skip(i as int).skip(1) =~= members@.skip(i + 1));
                    assert(members@.skip(i as int)[0] == members@[i as int]);
                }
                if members[i].0 == wanted {
                    return Some(&members[i].1);
                }
                i = i + 1;
            }
            None
        },
        _ => None,
    }
}

/// Reads a marker from a JSON value.
pub fn read_marker(json: &Json) -> (r: Option<(u64, u64, u16)>)
    ensures
        r == marker_of(*json),
{
    match json {
        Json::Array(items) => {
            if items.len() != 3 {
                return None;
            }
            match (&items[0], &items[1], &items[2]) {
                (
                    Json::Number(Some(start)),
                    Json::Number(Some(end)),
                    Json::Number(Some(label)),
                ) => {
                    if *label <= 0xffff {
                        Some((*start, *end, *label as u16))
                    } else {
                        None
                    }
                },
                _ => None,
            }
        },
        _ => None,
    }
}

/// Reads the markers from the items of a JSON array.
pub fn read_markers(items: &Vec<Json>) -> (r: Option<Vec<(u64, u64, u16)>>)
    ensures
        match r {
            Some(markers) => all_markers(items@) && markers@ == markers_of(items@),
            None => !all_markers(items@),
        },
{
    let mut markers: Vec<(u64, u64, u16)> = Vec::new();
    let mut i: usize = 0;
    while i < items.len()
        invariant
            i <= items@.len(),
            markers@.len() == i,
            forall|k: int| 0 <= k < i ==> marker_of(#[trigger] items@[k]) == Some(markers@[k]),
        decreases items@.len() - i,
    {
        match read_marker(&items[i]) {
            Some(marker) => {
                markers.push(marker);
            },
            None => {
                assert(!(marker_of(#[trigger] items@[i as int]) is Some));
                return None;
            },
        }
        i = i + 1;
    }
    proof {
        assert(markers@ =~= markers_of(items@));
    }
    Some(markers)
}

/// Reads a descriptor from a JSON value.
///
/// The member `trace_filename` must be a string.  The member `clock_period`
/// counts where it is an unsigned integer.  The member `markers`, where
/// there is one, must be an array of markers.
pub fn descriptor_from_json(json: &Json) -> (r: Result<Descriptor, DescriptorError>)
    ensures
        describes(r, descriptor_of(*json)),
{
    let name: String = match find_member(json, "trace_filename") {
        Some(Json::Text(name)) => name.clone(),
        _ => {
            return Err(DescriptorError::MissingTraceFilename);
        },
    };
    let clock_period: Option<u64> = match find_member(json, "clock_period") {
        Some(Json::Number(period)) => *period,
        _ => None,
    };
    let markers: Option<Vec<(u64, u64, u16)>> = match find_member(json, "markers") {
        None => None,
        Some(Json::Array(items)) => match read_markers(items) {
            Some(markers) => Some(markers),
            None => {
                return Err(DescriptorError::MalformedMarkers);
            },
        },
        Some(_) => {
            return Err(DescriptorError::MalformedMarkers);
        },
    };
    Ok(Descriptor { trace_filename: name, clock_period, markers })
}

/// The descriptor that the bytes of a descriptor file stand for.
pub open spec fn descriptor_in(bytes: Seq<u8>, is_compressed: bool) -> Result<
    DescriptorModel,
    DescriptorError,
> {
    let text = if is_compressed {
        gunzipped(bytes)
    } else {
        Some(bytes)
    };
    match text {
        None => Err(DescriptorError::Unreadable),
        Some(text) => match json_parse(text) {
            None => Err(DescriptorError::Unparsable),
            Some(json) => descriptor_of(json),
        },
    }
}

/// Reads a descriptor from the bytes of a descriptor file, which are a gzip
/// stream where `is_compressed` is set, and JSON text else.
pub fn read_descriptor(bytes: &[u8], is_compressed: bool) -> (r: Result<Descriptor, DescriptorError>)
    ensures
        describes(r, descriptor_in(bytes@, is_compressed)),
{
    if is_compressed {
        match gunzip(bytes) {
            None => Err(DescriptorError::Unreadable),
            Some(text) => parse_descriptor(text.as_slice()),
        }
    } else {
        parse_descriptor(bytes)
    }
}

/// Reads a descriptor from JSON text.
pub fn parse_descriptor(text: &[u8]) -> (r: Result<Descriptor, DescriptorError>)
    ensures
        describes(r, descriptor_in(text@, false)),
{
    match json_from_slice(text) {
        None => Err(DescriptorError::Unparsable),
        Some(value) => {
            let json: Json = json_from_value(&value);
            descriptor_from_json(&json)
        },
    }
}

} // verus!
