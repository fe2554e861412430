//! The shapes of the two metadata documents: the manifest, one JSON object,
//! and the tarsplit, one JSON object per line.
//!
//! Each shape is stated as a spec function from a JSON document to the value
//! it denotes, and decoded by a function that walks a `serde_json::Value`.

use crate::codec::{base64_decode, base64_decoded};
use crate::json::{json_model, value_member, Json};
use crate::reference::ContentReferenceView;
use core::ops::Range;
use vstd::prelude::*;

verus! {

/// One record of the tarsplit.
#[derive(Debug)]
pub struct TarSplitEntry {
    pub name: Option<String>,
    pub size: Option<u64>,
    pub payload: Option<Vec<u8>>,
}

/// A `TarSplitEntry` as a mathematical value.
pub struct TarSplitEntryView {
    pub name: Option<Seq<char>>,
    pub size: Option<u64>,
    pub payload: Option<Seq<u8>>,
}

/// The manifest: a version tag and one entry per member of the archive.
#[derive(Debug)]
pub struct Manifest {
    pub version: u32,
    pub entries: Vec<ManifestEntry>,
}

/// A `Manifest` as a mathematical value.
pub struct ManifestView {
    pub version: u32,
    pub entries: Seq<ManifestEntryView>,
}

/// One entry of the manifest.
#[derive(Debug)]
pub struct ManifestEntry {
    pub name: String,
    pub size: Option<u64>,
    pub digest: Option<String>,
    pub offset: Option<u64>,
    pub end_offset: Option<u64>,
}

/// A `ManifestEntry` as a mathematical value.
pub struct ManifestEntryView {
    pub name: Seq<char>,
    pub size: Option<u64>,
    pub digest: Option<Seq<char>>,
    pub offset: Option<u64>,
    pub end_offset: Option<u64>,
}

/// The characters of an optional string.
pub open spec fn text_of(text: Option<String>) -> Option<Seq<char>> {
    match text {
        Some(s) => Some(s@),
        None => None,
    }
}

/// The bytes of an optional buffer.
pub open spec fn bytes_of(bytes: Option<Vec<u8>>) -> Option<Seq<u8>> {
    match bytes {
        Some(b) => Some(b@),
        None => None,
    }
}

impl View for TarSplitEntry {
    type V = TarSplitEntryView;

    open spec fn view(&self) -> TarSplitEntryView {
        TarSplitEntryView {
            name: text_of(self.name),
            size: self.size,
            payload: bytes_of(self.payload),
        }
    }
}

impl View for ManifestEntry {
    type V = ManifestEntryView;

    open spec fn view(&self) -> ManifestEntryView {
        ManifestEntryView {
            name: self.name@,
            size: self.size,
            digest: text_of(self.digest),
            offset: self.offset,
            end_offset: self.end_offset,
        }
    }
}

impl View for Manifest {
    type V = ManifestView;

    open spec fn view(&self) -> ManifestView {
        ManifestView {
            version: self.version,
            entries: self.entries@.map_values(|entry: ManifestEntry| entry@),
        }
    }
}

impl ManifestEntryView {
    /// The content that the entry stands for: present only where the entry
    /// carries all of size, digest, offset and end offset.
    pub open spec fn reference(self) -> Option<ContentReferenceView> {
        match (self.size, self.digest, self.offset, self.end_offset) {
            (Some(size), Some(digest), Some(offset), Some(end_offset)) => Some(
                ContentReferenceView { range: Range { start: offset, end: end_offset }, digest, size },
            ),
            _ => None,
        }
    }
}

/// An optional member that holds an unsigned integer. Absent and `null` are
/// both no value; a member of any other kind does not fit (the outer `None`).
pub open spec fn optional_u64(document: Json, key: Seq<char>) -> Option<Option<u64>> {
    match document.member(key) {
        None => Some(None),
        Some(Json::Null) => Some(None),
        Some(Json::Unsigned(n)) => Some(Some(n)),
        Some(_) => None,
    }
}

/// An optional member that holds a string. Absent and `null` are both no
/// value; a member of any other kind does not fit (the outer `None`).
pub open spec fn optional_string(document: Json, key: Seq<char>) -> Option<Option<Seq<char>>> {
    match document.member(key) {
        None => Some(None),
        Some(Json::Null) => Some(None),
        Some(Json::String(s)) => Some(Some(s)),
        Some(_) => None,
    }
}

/// The payload of a tarsplit record: an optional string member in base64.
pub open spec fn payload_of(document: Json) -> Option<Option<Seq<u8>>> {
    match optional_string(document, "payload"@) {
        None => None,
        Some(None) => Some(None),
        Some(Some(text)) => match base64_decoded(text) {
            Some(bytes) => Some(Some(bytes)),
            None => None,
        },
    }
}

/// The tarsplit record that a JSON document denotes: an object whose
/// members `name`, `size` and `payload`, where present, are a string, an
/// unsigned integer and a base64 string. Other members are ignored.
pub open spec fn tarsplit_entry_of(document: Json) -> Option<TarSplitEntryView> {
    match (
        document,
        optional_string(document, "name"@),
        optional_u64(document, "size"@),
        payload_of(document),
    ) {
        (Json::Object(_), Some(name), Some(size), Some(payload)) => Some(
            TarSplitEntryView { name, size, payload },
        ),
        _ => None,
    }
}

/// The manifest entry that a JSON document denotes: an object with a string
/// member `name` and optional members `size`, `digest`, `offset` and
/// `endOffset`. Other members are ignored.
pub open spec fn manifest_entry_of(document: Json) -> Option<ManifestEntryView> {
    match (
        document.member("name"@),
        optional_u64(document, "size"@),
        optional_string(document, "digest"@),
        optional_u64(document, "offset"@),
        optional_u64(document, "endOffset"@),
    ) {
        (Some(Json::String(name)), Some(size), Some(digest), Some(offset), Some(end_offset)) => Some(
            ManifestEntryView { name, size, digest, offset, end_offset },
        ),
        _ => None,
    }
}

/// The manifest that a JSON document denotes: an object with a member
/// `version` that fits 32 bits and a member `entries`, an array of manifest
/// entries.
pub open spec fn manifest_of(document: Json) -> Option<ManifestView> {
    match (document.member("version"@), document.member("entries"@)) {
        (Some(Json::Unsigned(version)), Some(Json::Array(items))) => {
            if version <= u32::MAX && forall|i: int|
                0 <= i < items.len() ==> (#[trigger] manifest_entry_of(items[i])) is Some {
                Some(
                    ManifestView {
                        version: version as u32,
                        entries: items.map_values(|item: Json| manifest_entry_of(item).unwrap()),
                    },
                )
            } else {
                None
            }
        },
        _ => None,
    }
}

/// Reads an optional unsigned member.
fn read_optional_u64(value: &serde_json::Value, key: &str) -> (r: Option<Option<u64>>)
    ensures
        r == optional_u64(json_model(*value), key@),
{
    match value_member(value, key) {
        None => Some(None),
        Some(member) => {
            if member.is_null() {
                Some(None)
            } else {
                match member.as_u64() {
                    Some(n) => Some(Some(n)),
                    None => None,
                }
            }
        },
    }
}

/// Reads an optional string member.
fn read_optional_string<'a>(value: &'a serde_json::Value, key: &str) -> (r: Option<Option<&'a str>>)
    ensures
        match r {
            Some(Some(text)) => optional_string(json_model(*value), key@) == Some(Some(text@)),
            Some(None) => optional_string(json_model(*value), key@) == Some(None::<Seq<char>>),
            None => optional_string(json_model(*value), key@) is None,
        },
{
    match value_member(value, key) {
        None => Some(None),
        Some(member) => {
            if member.is_null() {
                Some(None)
            } else {
                match member.as_str() {
                    Some(text) => Some(Some(text)),
                    None => None,
                }
            }
        },
    }
}

/// An owned copy of an optional string slice.
fn owned(text: Option<&str>) -> (r: Option<String>)
    ensures
        text_of(r) == match text {
            Some(s) => Some(s@),
            None => None,
        },
{
    match text {
        Some(s) => Some(s.to_owned()),
        None => None,
    }
}

impl TarSplitEntry {
    /// Decodes one tarsplit record from its JSON document.
    pub fn from_value(value: &serde_json::Value) -> (r: Option<TarSplitEntry>)
        ensures
            match r {
                Some(entry) => tarsplit_entry_of(json_model(*value)) == Some(entry@),
                None => tarsplit_entry_of(json_model(*value)) is None,
            },
    {
        if !value.is_object() {
            return None;
        }
        let name = match read_optional_string(value, "name") {
            Some(name) => owned(name),
            None => { return None; },
        };
        let size = match read_optional_u64(value, "size") {
            Some(size) => size,
            None => { return None; },
        };
        let payload = match read_optional_string(value, "payload") {
            Some(Some(text)) => match base64_decode(text) {
                Ok(bytes) => Some(bytes),
                Err(_) => { return None; },
            },
            Some(None) => None,
            None => { return None; },
        };
        Some(TarSplitEntry { name, size, payload })
    }
}

impl ManifestEntry {
    /// Decodes one manifest entry from its JSON document.
    pub fn from_value(value: &serde_json::Value) -> (r: Option<ManifestEntry>)
        ensures
            match r {
                Some(entry) => manifest_entry_of(json_model(*value)) == Some(entry@),
                None => manifest_entry_of(json_model(*value)) is None,
            },
    {
        let name = match value_member(value, "name") {
            Some(member) => match member.as_str() {
                Some(text) => text.to_owned(),
                None => { return None; },
            },
            None => { return None; },
        };
        let size = match read_optional_u64(value, "size") {
            Some(size) => size,
            None => { return None; },
        };
        let digest = match read_optional_string(value, "digest") {
            Some(digest) => owned(digest),
            None => { return None; },
        };
        let offset = match read_optional_u64(value, "offset") {
            Some(offset) => offset,
            None => { return None; },
        };
        let end_offset = match read_optional_u64(value, "endOffset") {
            Some(end_offset) => end_offset,
            None => { return None; },
        };
        Some(ManifestEntry { name, size, digest, offset, end_offset })
    }
}

impl Manifest {
    /// Decodes the manifest from its JSON document.
    pub fn from_value(value: &serde_json::Value) -> (r: Option<Manifest>)
        ensures
            match r {
                Some(manifest) => manifest_of(json_model(*value)) == Some(manifest@),
                None => manifest_of(json_model(*value)) is None,
            },
    {
        let version = match value_member(value, "version") {
            Some(member) => match member.as_u64() {
                Some(version) => version,
                None => { return None; },
            },
            None => { return None; },
        };
        if version > 0xffff_ffff {
            return None;
        }
        let items = match value_member(value, "entries") {
            Some(member) => match member.as_array() {
                Some(items) => items,
                None => { return None; },
            },
            None => { return None; },
        };
        let ghost documents = items@.map_values(|item: serde_json::Value| json_model(item));
        let mut entries: Vec<ManifestEntry> = Vec::new();
        let mut i: usize = 0;
        while i < items.len()
            invariant
                i <= items.len(),
                documents == items@.map_values(|item: serde_json::Value| json_model(item)),
                json_model(*value).member("entries"@) == Some(Json::Array(documents)),
                entries@.len() == i,
                forall|j: int|
                    0 <= j < i ==> manifest_entry_of(#[trigger] documents[j]) == Some(entries@[j]@),
            decreases items.len() - i,
        {
            match ManifestEntry::from_value(&items[i]) {
                Some(entry) => entries.push(entry),
                None => {
                    assert(manifest_entry_of(documents[i as int]) is None);
                    return None;
                },
            }
            i += 1;
        }
        let manifest = Manifest { version: version as u32, entries };
        proof {
            let decoded = documents.map_values(|item: Json| manifest_entry_of(item).unwrap());
            assert(manifest@.entries =~= decoded);
        }
        Some(manifest)
    }
}

} // verus!
