//! The marker file `balik.meta` that says a directory is a database.

use vstd::prelude::*;
use vstd::string::*;
use vstd::utf8::*;

use crate::bytes::starts_with;
use crate::checksum::{
    law_verify_accepts_wrapped, lemma_starts_with_prefix, verified, verify, wrapped, PREFIX,
};
use crate::checksum_laws::{altered, law_altered_bytes_are_refused};
use crate::error::{Error, ErrorV};
use crate::text::{decimal, from_utf8, join2, join3, same, u64_text};

verus! {

pub const METADATA_FILE: &'static str = "balik.meta";

pub const MAGIC: &'static str = "balik-db";

/// On-disk metadata schema version. Bump when the layout changes in a way that
/// older binaries can't read.
pub const FORMAT_VERSION: u32 = 1;

/// The contents of `balik.meta`.
#[derive(Debug)]
pub struct Metadata {
    pub magic: String,
    pub format_version: u32,
    pub created: String,
}

/// What stands where `balik.meta` should: nothing, a file that could not be
/// read as metadata, or the metadata.
#[derive(Debug)]
pub enum MetadataImage {
    Missing,
    Unreadable,
    Loaded(Metadata),
}

/// Outcome of inspecting a candidate database directory.
#[derive(Debug)]
pub enum Status {
    /// Directory has no `balik.meta` file.
    Missing,
    /// `balik.meta` exists but could not be parsed.
    Unreadable,
    /// Parsed successfully but the magic marker does not match.
    WrongMagic,
    /// Valid metadata, but the format version is newer than this binary supports.
    TooNew { found: u32, supported: u32 },
    /// Valid, readable, compatible database.
    Ready { format_version: u32, created: String },
}

/// The view of a [`Status`].
pub enum StatusV {
    Missing,
    Unreadable,
    WrongMagic,
    TooNew { found: u32, supported: u32 },
    Ready { format_version: u32, created: Seq<char> },
}

impl View for Status {
    type V = StatusV;

    open spec fn view(&self) -> StatusV {
        match self {
            Status::Missing => StatusV::Missing,
            Status::Unreadable => StatusV::Unreadable,
            Status::WrongMagic => StatusV::WrongMagic,
            Status::TooNew { found, supported } => StatusV::TooNew {
                found: *found,
                supported: *supported,
            },
            Status::Ready { format_version, created } => StatusV::Ready {
                format_version: *format_version,
                created: created@,
            },
        }
    }
}

/// The text of a marker file: what is behind its checksum line, which has to
/// hold, or the whole file where it has no such line. Nothing where the checksum
/// does not hold or the text is not UTF-8.
pub open spec fn marker_text_of(bytes: Seq<u8>) -> Option<Seq<char>> {
    let body = if encode_utf8(PREFIX@).is_prefix_of(bytes) {
        verified(bytes)
    } else {
        Ok(bytes)
    };
    match body {
        Err(_) => None,
        Ok(body) => if valid_utf8(body) {
            Some(decode_utf8(body))
        } else {
            None
        },
    }
}

/// The text of a marker file, as far as it can be read.
pub fn marker_text(bytes: &[u8]) -> (r: Option<String>)
    ensures
        match r {
            Some(text) => marker_text_of(bytes@) == Some(text@),
            None => marker_text_of(bytes@) is None,
        },
{
    if !starts_with(bytes, PREFIX.as_bytes()) {
        return from_utf8(bytes);
    }
    match verify(bytes) {
        Err(_) => None,
        Ok(body) => from_utf8(body),
    }
}

/// A marker file that was written with its checksum reads back as its text, and
/// does not read at all once something was changed within four consecutive bytes
/// behind the checksum line.
pub proof fn law_marker_is_checked(text: Seq<char>, other: Seq<u8>, at: int)
    ensures
        marker_text_of(wrapped(encode_utf8(text))) == Some(text),
        altered(encode_utf8(text), other) && (forall|i: int|
            0 <= i < other.len() && !(at <= i < at + 4) ==> #[trigger] other[i] == wrapped(
                encode_utf8(text),
            )[i]) ==> marker_text_of(other) is None,
{
    let body = encode_utf8(text);
    let file = wrapped(body);
    lemma_starts_with_prefix(body);
    law_verify_accepts_wrapped(body);
    encode_utf8_valid_utf8(text);
    encode_utf8_decode_utf8(text);
    if altered(body, other) && (forall|i: int|
        0 <= i < other.len() && !(at <= i < at + 4) ==> #[trigger] other[i] == file[i]) {
        law_altered_bytes_are_refused(body, other, at);
        let n = encode_utf8(PREFIX@).len() as int;
        assert(other.subrange(0, n) =~= file.subrange(0, n));
    }
}

/// What the marker file says of its directory.
pub open spec fn status_of(image: MetadataImage) -> StatusV {
    match image {
        MetadataImage::Missing => StatusV::Missing,
        MetadataImage::Unreadable => StatusV::Unreadable,
        MetadataImage::Loaded(meta) => if meta.magic@ != MAGIC@ {
            StatusV::WrongMagic
        } else if meta.format_version > FORMAT_VERSION {
            StatusV::TooNew { found: meta.format_version, supported: FORMAT_VERSION }
        } else {
            StatusV::Ready { format_version: meta.format_version, created: meta.created@ }
        },
    }
}

/// What the marker file says of its directory.
pub fn status(image: &MetadataImage) -> (r: Status)
    ensures
        r@ == status_of(*image),
{
    match image {
        MetadataImage::Missing => Status::Missing,
        MetadataImage::Unreadable => Status::Unreadable,
        MetadataImage::Loaded(meta) => {
            if !same(meta.magic.as_str(), MAGIC) {
                Status::WrongMagic
            } else if meta.format_version > FORMAT_VERSION {
                Status::TooNew { found: meta.format_version, supported: FORMAT_VERSION }
            } else {
                Status::Ready {
                    format_version: meta.format_version,
                    created: meta.created.clone(),
                }
            }
        },
    }
}

/// Whether the directory has a marker file at all.
pub fn is_initialized(image: &MetadataImage) -> (r: bool)
    ensures
        r == !(image is Missing),
{
    match image {
        MetadataImage::Missing => false,
        _ => true,
    }
}

/// Why a database cannot be created at `path`, if so: nothing may be there yet.
pub open spec fn initialize_error(path: Seq<char>, exists: bool, status: StatusV) -> Option<
    ErrorV,
> {
    if !exists {
        None
    } else {
        match status {
            StatusV::Ready { .. } | StatusV::TooNew { .. } => Some(
                ErrorV::Other(
                    "directory '"@ + path + "' is already an initialized balik database"@,
                ),
            ),
            _ => Some(
                ErrorV::Other(
                    "path '"@ + path
                        + "' already exists and is not a balik database — refusing to overwrite"@,
                ),
            ),
        }
    }
}

/// Decide whether a database can be created at `path`, and give the metadata
/// that it starts with. `exists` says whether anything is at `path` already,
/// `found` what its marker file says, and `seconds` is the time of creation.
pub fn initialize(path: &str, exists: bool, found: &Status, seconds: u64) -> (r: Result<
    Metadata,
    Error,
>)
    ensures
        match r {
            Err(e) => initialize_error(path@, exists, found@) == Some(e@),
            Ok(meta) => {
                &&& initialize_error(path@, exists, found@) is None
                &&& meta.magic@ == MAGIC@
                &&& meta.format_version == FORMAT_VERSION
                &&& meta.created@ == "unix:"@ + decimal(seconds as int)
            },
        },
{
    if exists {
        match found {
            Status::Ready { .. } | Status::TooNew { .. } => {
                let message = join3(
                    "directory '",
                    path,
                    "' is already an initialized balik database",
                );
                return Err(Error::other(message.as_str()));
            },
            _ => {
                let message = join3(
                    "path '",
                    path,
                    "' already exists and is not a balik database — refusing to overwrite",
                );
                return Err(Error::other(message.as_str()));
            },
        }
    }
    Ok(
        Metadata {
            magic: String::from_str(MAGIC),
            format_version: FORMAT_VERSION,
            created: timestamp(seconds),
        },
    )
}

/// A point in time, as seconds since the Unix epoch.
pub fn timestamp(seconds: u64) -> (s: String)
    ensures
        s@ == "unix:"@ + decimal(seconds as int),
{
    let shown = u64_text(seconds);
    join2("unix:", shown.as_str())
}

/// Where something is already, no database is created, and the message says
/// whether it is a database; so a second attempt on the same path always fails.
pub proof fn law_initialize_refuses_what_is_there(path: Seq<char>, status: StatusV)
    ensures
        initialize_error(path, true, status) matches Some(ErrorV::Other(m)) && m == if (
        status is Ready || status is TooNew) {
            "directory '"@ + path + "' is already an initialized balik database"@
        } else {
            "path '"@ + path
                + "' already exists and is not a balik database — refusing to overwrite"@
        },
        initialize_error(path, false, status) is None,
{
}

/// A database that was just created has the status of a readable one.
pub proof fn law_initialized_is_ok(meta: Metadata)
    requires
        meta.magic@ == MAGIC@,
        meta.format_version == FORMAT_VERSION,
    ensures
        status_of(MetadataImage::Loaded(meta)) == (StatusV::Ready {
            format_version: FORMAT_VERSION,
            created: meta.created@,
        }),
{
}

} // verus!
