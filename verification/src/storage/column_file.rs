//! Byte format of column data files (`.col`).
//!
//! Each `.col` file holds the values of one column for one row group: a fixed
//! 56-byte header followed by the data area. The whole file is rewritten on
//! every change, so the header counts always match the data.
//!
//! Byte layout (all multi-byte integers little-endian):
//!
//! ```text
//! offset  size  field              notes
//! ------  ----  -----              -----
//! 0       8     magic              ASCII "BALIKCOL"
//! 8       4     format_version     u32 = 1
//! 12      1     logical_type       0=INT, 1=TEXT
//! 13      1     physical_encoding  0=raw, 1=dictionary (TEXT only)
//! 14      1     flags              bit 0 = has_nulls; bits 1-7 reserved
//! 15      1     reserved
//! 16      4     row_count          u32, rows in this file, NULLs among them
//! 20      4     null_count         u32, number of NULL rows
//! 24      16    min                INT: i64 in the first 8 bytes, the rest
//!                                  zero; TEXT: zero
//! 40      16    max                likewise
//! 56      ...   data area          presence bitmap (if any) + encoded values
//! ```
//!
//! INT `min`/`max` are computed over live values only: neither NULL nor marked
//! deleted in the row group's bitmap. A column with no live value stores the
//! pair `min = i64::MAX, max = i64::MIN`.
//!
//! When some row is NULL the data area begins with a presence bitmap of
//! `ceil(row_count / 8)` bytes (bit i: 1 = present, 0 = NULL). The values
//! follow:
//!
//! - raw INT: `row_count` 64-bit integers; NULL rows store 0.
//! - raw TEXT: `row_count` 32-bit end offsets, then the concatenated UTF-8
//!   blob. Value `i` is `blob[end[i-1]..end[i]]`; NULL rows are empty.
//! - dictionary TEXT: a 32-bit count of distinct values, their 32-bit end
//!   offsets, their blob in first-seen order, then one 32-bit code per row;
//!   NULL rows store code 0.
//!
//! TEXT columns take whichever of raw and dictionary is smaller; a tie keeps
//! raw.

use vstd::hash_map::*;
use vstd::prelude::*;
use vstd::string::*;
use vstd::utf8::*;

use crate::bytes::{
    bit_set, bytes_for_bits, get_bit, i64_at, le32, le64, push_all, push_i64, push_u32, read_i64,
    read_u32, set_bit, slice_of, starts_with, u32_at, with_bit, zero_bytes, zeros,
};
use crate::catalog::schema::{type_text, ColumnType};
use crate::error::{Error, ErrorV};
use crate::steps::{collect, collect_from, lemma_collected};
use crate::storage::delete_bitmap::{file_view, is_deleted};
use crate::storage::{values_view, Value, ValueV};
use crate::text::{decimal, from_utf8, join3, join5, texts, u32_text, usize_text};

verus! {

pub const HEADER_SIZE: usize = 56;

pub const FORMAT_VERSION: u32 = 1;

pub const FLAG_HAS_NULLS: u8 = 1;

pub const LOGICAL_INT: u8 = 0;

pub const LOGICAL_TEXT: u8 = 1;

pub const PHYSICAL_RAW: u8 = 0;

pub const PHYSICAL_DICT: u8 = 1;

/// The bytes of "BALIKCOL".
pub open spec fn magic() -> Seq<u8> {
    seq![66u8, 65, 76, 73, 75, 67, 79, 76]
}

/// Parsed view of a `.col` header.
#[derive(Debug, PartialEq, Eq)]
pub struct Header {
    pub format_version: u32,
    pub logical_type: ColumnType,
    pub physical_encoding: u8,
    pub flags: u8,
    pub row_count: u32,
    pub null_count: u32,
    pub min: [u8; 16],
    pub max: [u8; 16],
}

/// The view of a [`Header`].
pub struct HeaderV {
    pub format_version: int,
    pub logical_type: ColumnType,
    pub physical_encoding: u8,
    pub flags: u8,
    pub row_count: int,
    pub null_count: int,
    pub min: Seq<u8>,
    pub max: Seq<u8>,
}

impl View for Header {
    type V = HeaderV;

    open spec fn view(&self) -> HeaderV {
        HeaderV {
            format_version: self.format_version as int,
            logical_type: self.logical_type,
            physical_encoding: self.physical_encoding,
            flags: self.flags,
            row_count: self.row_count as int,
            null_count: self.null_count as int,
            min: self.min@,
            max: self.max@,
        }
    }
}

impl HeaderV {
    /// Whether the data area begins with a presence bitmap.
    pub open spec fn has_nulls(self) -> bool {
        self.flags & FLAG_HAS_NULLS != 0
    }

    /// The range of the live values, for an INT column that has any.
    pub open spec fn int_range(self) -> Option<(int, int)> {
        let min = i64_at(self.min, 0);
        let max = i64_at(self.max, 0);
        if self.logical_type != ColumnType::Int || min > max {
            None
        } else {
            Some((min, max))
        }
    }
}

impl Header {
    /// True when the data area carries a presence bitmap (some row is NULL).
    pub fn has_nulls(&self) -> (r: bool)
        ensures
            r == self@.has_nulls(),
    {
        self.flags & FLAG_HAS_NULLS != 0
    }

    /// Smallest live value in an INT column, or `None` when the column has no
    /// live value or isn't INT-typed.
    pub fn int_min(&self) -> (r: Option<i64>)
        ensures
            match r {
                Some(n) => self@.int_range() matches Some(range) && range.0 == n,
                None => self@.int_range() is None,
            },
    {
        match self.int_range() {
            Some((min, _)) => Some(min),
            None => None,
        }
    }

    /// Largest live value in an INT column, see [`Header::int_min`].
    pub fn int_max(&self) -> (r: Option<i64>)
        ensures
            match r {
                Some(n) => self@.int_range() matches Some(range) && range.1 == n,
                None => self@.int_range() is None,
            },
    {
        match self.int_range() {
            Some((_, max)) => Some(max),
            None => None,
        }
    }

    /// The live range of an INT column. The pair `min > max` encodes that there
    /// is none.
    pub fn int_range(&self) -> (r: Option<(i64, i64)>)
        ensures
            match r {
                Some((min, max)) => self@.int_range() == Some((min as int, max as int)),
                None => self@.int_range() is None,
            },
    {
        if self.logical_type != ColumnType::Int {
            return None;
        }
        let min: i64 = read_i64(&self.min, 0);
        let max: i64 = read_i64(&self.max, 0);
        if min > max {
            None
        } else {
            Some((min, max))
        }
    }
}

/// The tag byte of a logical type.
pub open spec fn type_byte(ty: ColumnType) -> u8 {
    match ty {
        ColumnType::Int => LOGICAL_INT,
        ColumnType::Text => LOGICAL_TEXT,
    }
}

/// The logical type of a tag byte.
pub open spec fn type_of_byte(b: u8) -> Result<ColumnType, ErrorV> {
    if b == LOGICAL_INT {
        Ok(ColumnType::Int)
    } else if b == LOGICAL_TEXT {
        Ok(ColumnType::Text)
    } else {
        Err(ErrorV::Corrupt("unknown logical type tag "@ + decimal(b as int)))
    }
}

pub fn logical_type_byte(ty: ColumnType) -> (b: u8)
    ensures
        b == type_byte(ty),
{
    match ty {
        ColumnType::Int => LOGICAL_INT,
        ColumnType::Text => LOGICAL_TEXT,
    }
}

pub fn parse_logical_type(b: u8) -> (r: Result<ColumnType, Error>)
    ensures
        match r {
            Ok(ty) => type_of_byte(b) == Ok::<_, ErrorV>(ty),
            Err(e) => type_of_byte(b) == Err::<ColumnType, ErrorV>(e@),
        },
{
    if b == LOGICAL_INT {
        Ok(ColumnType::Int)
    } else if b == LOGICAL_TEXT {
        Ok(ColumnType::Text)
    } else {
        let tag = u32_text(b as u32);
        let message = crate::text::join2("unknown logical type tag ", tag.as_str());
        Err(Error::corrupt(message.as_str()))
    }
}

/// The 16-byte statistics slot that holds an INT bound.
pub open spec fn int_slot(n: int) -> Seq<u8> {
    le64(n) + zero_bytes(8)
}

/// The two statistics slots of a column: the live range of an INT column, and
/// zeros for TEXT.
pub open spec fn stats_slots(ty: ColumnType, range: (int, int)) -> Seq<u8> {
    match ty {
        ColumnType::Int => int_slot(range.0) + int_slot(range.1),
        ColumnType::Text => zero_bytes(32),
    }
}

/// The range stored when no value is live.
pub open spec fn no_range() -> (int, int) {
    (i64::MAX as int, i64::MIN as int)
}

/// The 56 bytes of a header.
pub open spec fn header_image(
    ty: ColumnType,
    encoding: u8,
    flags: u8,
    rows: int,
    nulls: int,
    range: (int, int),
) -> Seq<u8> {
    magic() + le32(FORMAT_VERSION as int) + seq![type_byte(ty), encoding, flags, 0u8] + le32(rows)
        + le32(nulls) + stats_slots(ty, range)
}

/// Build a 56-byte header.
fn make_header(
    ty: ColumnType,
    encoding: u8,
    flags: u8,
    rows: u32,
    nulls: u32,
    min: i64,
    max: i64,
) -> (buf: Vec<u8>)
    ensures
        buf@ == header_image(
            ty,
            encoding,
            flags,
            rows as int,
            nulls as int,
            (min as int, max as int),
        ),
{
    let mut buf: Vec<u8> = vec![66u8, 65u8, 76u8, 73u8, 75u8, 67u8, 79u8, 76u8];
    assert(buf@ =~= magic());
    push_u32(&mut buf, FORMAT_VERSION);
    let tags: Vec<u8> = vec![logical_type_byte(ty), encoding, flags, 0u8];
    assert(tags@ =~= seq![type_byte(ty), encoding, flags, 0u8]);
    push_all(&mut buf, tags.as_slice());
    push_u32(&mut buf, rows);
    push_u32(&mut buf, nulls);
    write_int_stats(&mut buf, ty, min, max);
    buf
}

/// Append the statistics slots: the INT `(min, max)` pair, each in the first 8
/// bytes of its 16-byte slot, or zeros for TEXT.
pub fn write_int_stats(buf: &mut Vec<u8>, ty: ColumnType, min: i64, max: i64)
    ensures
        final(buf)@ == old(buf)@ + stats_slots(ty, (min as int, max as int)),
{
    let ghost before = buf@;
    match ty {
        ColumnType::Int => {
            let pad = zeros(8);
            push_i64(buf, min);
            push_all(buf, pad.as_slice());
            push_i64(buf, max);
            push_all(buf, pad.as_slice());
            assert(buf@ =~= before + (int_slot(min as int) + int_slot(max as int)));
        },
        ColumnType::Text => {
            let pad = zeros(32);
            push_all(buf, pad.as_slice());
        },
    }
}

/// Build a 56-byte empty header for a new `.col` file of the given type. INT
/// columns get the pair `min = i64::MAX`, `max = i64::MIN`, so an empty file
/// reads back as having no live range; TEXT columns record no statistics.
pub fn empty_header(ty: ColumnType) -> (buf: Vec<u8>)
    ensures
        buf@ == header_image(ty, PHYSICAL_RAW, 0, 0, 0, no_range()),
{
    make_header(ty, PHYSICAL_RAW, 0, 0, 0, i64::MAX, i64::MIN)
}

/// `message` about the column file at `path`.
pub open spec fn corrupt_at(path: Seq<char>, message: Seq<char>) -> ErrorV {
    ErrorV::Corrupt("column file '"@ + path + message)
}

/// The error that says `message` about the column file at `path`.
fn corrupt_error(path: &str, message: &str) -> (e: Error)
    ensures
        e@ == corrupt_at(path@, message@),
{
    Error::corrupt(join3("column file '", path, message).as_str())
}

/// What the header of a column file says, or why it cannot be read.
pub open spec fn header_of(bytes: Seq<u8>, path: Seq<char>) -> Result<HeaderV, ErrorV> {
    if bytes.len() < HEADER_SIZE {
        Err(corrupt_at(path, "' shorter than 56-byte header"@))
    } else if !magic().is_prefix_of(bytes) {
        Err(corrupt_at(path, "' has bad magic"@))
    } else if u32_at(bytes, 8) > FORMAT_VERSION {
        Err(
            ErrorV::Corrupt(
                "column file '"@ + path + "' uses format_version "@ + decimal(u32_at(bytes, 8))
                    + ", this binary supports 1"@,
            ),
        )
    } else {
        match type_of_byte(bytes[12]) {
            Err(e) => Err(e),
            Ok(ty) => Ok(
                HeaderV {
                    format_version: u32_at(bytes, 8),
                    logical_type: ty,
                    physical_encoding: bytes[13],
                    flags: bytes[14],
                    row_count: u32_at(bytes, 16),
                    null_count: u32_at(bytes, 20),
                    min: bytes.subrange(24, 40),
                    max: bytes.subrange(40, 56),
                },
            ),
        }
    }
}

/// Sixteen bytes of `bytes` from offset `at` on.
fn slot_at(bytes: &[u8], at: usize) -> (slot: [u8; 16])
    requires
        at + 16 <= bytes@.len(),
    ensures
        slot@ == bytes@.subrange(at as int, at + 16),
{
    let mut slot: [u8; 16] = [0u8; 16];
    let mut i: usize = 0;
    while i < 16
        invariant
            i <= 16,
            at + 16 <= bytes@.len(),
            forall|j: int| 0 <= j < i ==> slot@[j] == bytes@[at + j],
        decreases 16 - i,
    {
        assert(bytes.len() <= usize::MAX);
        slot[i] = bytes[at + i];
        i = i + 1;
    }
    assert(slot@ =~= bytes@.subrange(at as int, at + 16));
    slot
}

/// Parse a `.col` header from the leading bytes of a file image, validating
/// magic and format version.
pub fn parse_header(bytes: &[u8], path: &str) -> (r: Result<Header, Error>)
    ensures
        match r {
            Ok(h) => header_of(bytes@, path@) == Ok::<HeaderV, ErrorV>(h@),
            Err(e) => header_of(bytes@, path@) == Err::<HeaderV, ErrorV>(e@),
        },
{
    if bytes.len() < HEADER_SIZE {
        return Err(corrupt_error(path, "' shorter than 56-byte header"));
    }
    let expected: Vec<u8> = vec![66u8, 65u8, 76u8, 73u8, 75u8, 67u8, 79u8, 76u8];
    assert(expected@ =~= magic());
    if !starts_with(bytes, expected.as_slice()) {
        return Err(corrupt_error(path, "' has bad magic"));
    }
    let format_version: u32 = read_u32(bytes, 8);
    if format_version > FORMAT_VERSION {
        let version = u32_text(format_version);
        return Err(
            Error::corrupt(
                join5(
                    "column file '",
                    path,
                    "' uses format_version ",
                    version.as_str(),
                    ", this binary supports 1",
                ).as_str(),
            ),
        );
    }
    match parse_logical_type(bytes[12]) {
        Err(e) => Err(e),
        Ok(logical_type) => Ok(
            Header {
                format_version,
                logical_type,
                physical_encoding: bytes[13],
                flags: bytes[14],
                row_count: read_u32(bytes, 16),
                null_count: read_u32(bytes, 20),
                min: slot_at(bytes, 24),
                max: slot_at(bytes, 40),
            },
        ),
    }
}

// ---- statistics ----

/// Whether the value at `i` counts for the INT statistics.
pub open spec fn live_int(values: Seq<ValueV>, deleted: Seq<u8>, i: int) -> bool {
    values[i] is Int && !bit_set(deleted, i)
}

/// The range of the live INT values among the first `n`.
pub open spec fn live_range(values: Seq<ValueV>, deleted: Seq<u8>, n: int) -> (int, int)
    decreases n,
{
    if n <= 0 {
        no_range()
    } else {
        let (min, max) = live_range(values, deleted, n - 1);
        if live_int(values, deleted, n - 1) {
            let v = values[n - 1]->Int_0 as int;
            (
                if v < min {
                    v
                } else {
                    min
                },
                if v > max {
                    v
                } else {
                    max
                },
            )
        } else {
            (min, max)
        }
    }
}

/// Compute the (min, max) range of an INT column over live values only:
/// skips NULLs and offsets flagged in `deleted`. Gives the pair
/// `(i64::MAX, i64::MIN)` when no live value remains.
pub fn compute_int_range(values: &[Value], deleted: &[u8]) -> (r: (i64, i64))
    ensures
        (r.0 as int, r.1 as int) == live_range(
            values_view(values@),
            deleted@,
            values@.len() as int,
        ),
{
    let mut min: i64 = i64::MAX;
    let mut max: i64 = i64::MIN;
    let mut i: usize = 0;
    while i < values.len()
        invariant
            i <= values@.len(),
            (min as int, max as int) == live_range(values_view(values@), deleted@, i as int),
        decreases values.len() - i,
    {
        assert(values_view(values@)[i as int] == values@[i as int]@);
        if let Value::Int(n) = &values[i] {
            if !is_deleted(deleted, i) {
                if *n < min {
                    min = *n;
                }
                if *n > max {
                    max = *n;
                }
            }
        }
        i = i + 1;
    }
    (min, max)
}

// ---- data-area encoders ----

/// The number of NULLs.
pub open spec fn nulls_in(values: Seq<ValueV>) -> int
    decreases values.len(),
{
    if values.len() == 0 {
        0
    } else {
        nulls_in(values.drop_last()) + if values.last() is Null {
            1int
        } else {
            0
        }
    }
}

/// The presence bitmap of `values`, with only the first `n` rows entered.
pub open spec fn present_bits(values: Seq<ValueV>, n: int) -> Seq<u8>
    decreases n,
{
    if n <= 0 {
        zero_bytes(bytes_for_bits(values.len() as int))
    } else {
        let before = present_bits(values, n - 1);
        if values[n - 1] is Null {
            before
        } else {
            with_bit(before, n - 1)
        }
    }
}

/// A value as an integer of a raw INT column: NULL stands as zero.
pub open spec fn int_or_zero(v: ValueV) -> int {
    match v {
        ValueV::Int(n) => n as int,
        _ => 0,
    }
}

/// The integers of a raw INT column.
pub open spec fn int_data(values: Seq<ValueV>) -> Seq<u8>
    decreases values.len(),
{
    if values.len() == 0 {
        Seq::empty()
    } else {
        int_data(values.drop_last()) + le64(int_or_zero(values.last()))
    }
}

/// The bytes of a TEXT value; NULL has none.
pub open spec fn text_bytes(v: ValueV) -> Seq<u8> {
    match v {
        ValueV::Text(s) => encode_utf8(s),
        _ => Seq::empty(),
    }
}

/// The concatenated bytes of TEXT values.
pub open spec fn blob(values: Seq<ValueV>) -> Seq<u8>
    decreases values.len(),
{
    if values.len() == 0 {
        Seq::empty()
    } else {
        blob(values.drop_last()) + text_bytes(values.last())
    }
}

/// The end offset of each TEXT value in the blob.
pub open spec fn end_offsets(values: Seq<ValueV>) -> Seq<u8>
    decreases values.len(),
{
    if values.len() == 0 {
        Seq::empty()
    } else {
        end_offsets(values.drop_last()) + le32(blob(values).len() as int)
    }
}

/// The distinct TEXT values, in the order in which they first occur.
pub open spec fn distinct(values: Seq<ValueV>) -> Seq<ValueV>
    decreases values.len(),
{
    if values.len() == 0 {
        Seq::empty()
    } else {
        let before = distinct(values.drop_last());
        if values.last() is Text && !before.contains(values.last()) {
            before.push(values.last())
        } else {
            before
        }
    }
}

/// The dictionary code of a value: its place in the dictionary, or zero for
/// NULL.
pub open spec fn code_of(dict: Seq<ValueV>, v: ValueV) -> int {
    if v is Text {
        dict.index_of(v)
    } else {
        0
    }
}

/// The dictionary code of each value.
pub open spec fn codes(dict: Seq<ValueV>, values: Seq<ValueV>) -> Seq<u8>
    decreases values.len(),
{
    if values.len() == 0 {
        Seq::empty()
    } else {
        codes(dict, values.drop_last()) + le32(code_of(dict, values.last()))
    }
}

/// The raw layout of TEXT values.
pub open spec fn raw_text(values: Seq<ValueV>) -> Seq<u8> {
    end_offsets(values) + blob(values)
}

/// The dictionary layout of TEXT values.
pub open spec fn dict_text(values: Seq<ValueV>) -> Seq<u8> {
    let dict = distinct(values);
    le32(dict.len() as int) + end_offsets(dict) + blob(dict) + codes(dict, values)
}

/// Size of the raw layout.
pub open spec fn raw_size(values: Seq<ValueV>) -> nat {
    values.len() * 4 + blob(values).len()
}

/// Size of the dictionary layout.
pub open spec fn dict_size(values: Seq<ValueV>) -> nat {
    4 + distinct(values).len() * 4 + blob(distinct(values)).len() + values.len() * 4
}

/// Whether some value is of another type than the column's.
pub open spec fn has_other_type(ty: ColumnType, values: Seq<ValueV>) -> bool {
    match ty {
        ColumnType::Int => exists|i: int| 0 <= i < values.len() && values[i] is Text,
        ColumnType::Text => exists|i: int| 0 <= i < values.len() && values[i] is Int,
    }
}

/// The encoding byte and the encoded values of a column, or why they cannot be
/// encoded. TEXT takes the smaller of the two layouts, raw on a tie.
pub open spec fn encoded_values(ty: ColumnType, values: Seq<ValueV>) -> Result<
    (u8, Seq<u8>),
    ErrorV,
> {
    match ty {
        ColumnType::Int => if has_other_type(ty, values) {
            Err(ErrorV::InvalidValue("INT column received a TEXT value"@))
        } else {
            Ok((PHYSICAL_RAW, int_data(values)))
        },
        ColumnType::Text => if has_other_type(ty, values) {
            Err(ErrorV::InvalidValue("TEXT column received an INT value"@))
        } else if dict_size(values) < raw_size(values) {
            if blob(distinct(values)).len() > u32::MAX {
                Err(ErrorV::InvalidValue("TEXT dictionary blob exceeds the 4 GiB limit"@))
            } else {
                Ok((PHYSICAL_DICT, dict_text(values)))
            }
        } else {
            if blob(values).len() > u32::MAX {
                Err(ErrorV::InvalidValue("TEXT column exceeds the 4 GiB limit"@))
            } else {
                Ok((PHYSICAL_RAW, raw_text(values)))
            }
        },
    }
}

/// The whole image of a column file, or why the values cannot be encoded.
pub open spec fn encoded_column(ty: ColumnType, values: Seq<ValueV>, deleted: Seq<u8>) -> Result<
    Seq<u8>,
    ErrorV,
> {
    if values.len() > u32::MAX {
        Err(ErrorV::InvalidValue("row group exceeds the u32 row-count limit"@))
    } else {
        match encoded_values(ty, values) {
            Err(e) => Err(e),
            Ok((encoding, data)) => {
                let nulls = nulls_in(values);
                let n = values.len() as int;
                let range = live_range(values, deleted, n);
                if nulls > 0 {
                    Ok(
                        header_image(ty, encoding, FLAG_HAS_NULLS, n, nulls, range) + present_bits(
                            values,
                            n,
                        ) + data,
                    )
                } else {
                    Ok(header_image(ty, encoding, 0, n, 0, range) + data)
                }
            },
        }
    }
}

/// A presence bitmap has a byte for every eight rows.
pub proof fn lemma_present_len(values: Seq<ValueV>, n: int)
    requires
        0 <= n <= values.len(),
    ensures
        present_bits(values, n).len() == bytes_for_bits(values.len() as int),
    decreases n,
{
    if n > 0 {
        lemma_present_len(values, n - 1);
    }
}

/// Presence bitmap of `values`: bit i set (least significant first within each
/// byte) when row i is non-NULL.
pub fn build_present_bitmap(values: &[Value]) -> (bm: Vec<u8>)
    ensures
        bm@ == present_bits(values_view(values@), values@.len() as int),
{
    let size: usize = values.len() / 8 + if values.len() % 8 == 0 {
        0
    } else {
        1
    };
    let mut bm = zeros(size);
    let mut i: usize = 0;
    while i < values.len()
        invariant
            i <= values@.len(),
            bm@ == present_bits(values_view(values@), i as int),
        decreases values.len() - i,
    {
        proof {
            lemma_present_len(values_view(values@), i as int);
            assert(values_view(values@)[i as int] == values@[i as int]@);
        }
        let is_null = match &values[i] {
            Value::Null => true,
            _ => false,
        };
        if !is_null {
            set_bit(&mut bm, i);
        }
        i = i + 1;
    }
    bm
}

/// Whether row `i` is present (non-NULL). Without a bitmap every row is.
pub open spec fn present_at(present: Option<Seq<u8>>, i: int) -> bool {
    match present {
        None => true,
        Some(bm) => bit_set(bm, i),
    }
}

/// Whether row i is present (non-NULL). `None` bitmap means no NULLs at all.
pub fn is_present(present: Option<&Vec<u8>>, i: usize) -> (r: bool)
    ensures
        r == present_at(file_view(present), i as int),
{
    match present {
        None => true,
        Some(bm) => get_bit(bm.as_slice(), i),
    }
}

/// The first `i + 1` values are the first `i` and the next.
proof fn lemma_take_next(values: Seq<ValueV>, i: int)
    requires
        0 <= i < values.len(),
    ensures
        values.take(i + 1).drop_last() == values.take(i),
        values.take(i + 1).last() == values[i],
        values.take(i + 1).len() == i + 1,
{
    assert(values.take(i + 1).drop_last() =~= values.take(i));
}

/// Encode the values of an INT column.
pub fn encode_int_raw(values: &[Value]) -> (r: Result<Vec<u8>, Error>)
    ensures
        match r {
            Ok(out) => encoded_values(ColumnType::Int, values_view(values@)) == Ok::<_, ErrorV>(
                (PHYSICAL_RAW, out@),
            ),
            Err(e) => encoded_values(ColumnType::Int, values_view(values@)) == Err::<
                (u8, Seq<u8>),
                ErrorV,
            >(e@),
        },
{
    let ghost all = values_view(values@);
    let mut out: Vec<u8> = Vec::new();
    let mut i: usize = 0;
    assert(all.take(0) =~= Seq::<ValueV>::empty());
    while i < values.len()
        invariant
            all == values_view(values@),
            i <= values@.len(),
            out@ == int_data(all.take(i as int)),
            forall|j: int| 0 <= j < i ==> !(all[j] is Text),
        decreases values.len() - i,
    {
        proof {
            lemma_take_next(all, i as int);
            assert(all[i as int] == values@[i as int]@);
        }
        let n: i64 = match &values[i] {
            Value::Int(n) => *n,
            Value::Null => 0,
            Value::Text(_) => {
                assert(all[i as int] is Text);
                return Err(Error::invalid_value("INT column received a TEXT value"));
            },
        };
        push_i64(&mut out, n);
        i = i + 1;
    }
    assert(all.take(i as int) =~= all);
    Ok(out)
}

/// Lengths only grow along a blob.
pub proof fn lemma_blob_grows(values: Seq<ValueV>, i: int)
    requires
        0 <= i <= values.len(),
    ensures
        blob(values.take(i)).len() <= blob(values).len(),
    decreases values.len(),
{
    if i == values.len() {
        assert(values.take(i) =~= values);
    } else {
        lemma_blob_grows(values.drop_last(), i);
        assert(values.drop_last().take(i) =~= values.take(i));
    }
}

/// The dictionary has no value twice, holds only TEXT, and no more values than
/// there are.
pub proof fn lemma_distinct(values: Seq<ValueV>)
    ensures
        distinct(values).no_duplicates(),
        forall|k: int| 0 <= k < distinct(values).len() ==> distinct(values)[k] is Text,
        forall|i: int|
            0 <= i < values.len() && #[trigger] values[i] is Text ==> distinct(values).contains(
                values[i],
            ),
        distinct(values).len() <= values.len(),
    decreases values.len(),
{
    if values.len() > 0 {
        let before = distinct(values.drop_last());
        lemma_distinct(values.drop_last());
        let after = distinct(values);
        if values.last() is Text && !before.contains(values.last()) {
            assert(after[before.len() as int] == values.last());
            assert forall|k: int, l: int|
                0 <= k < after.len() && 0 <= l < after.len() && k != l implies after[k]
                != after[l] by {
                if k == before.len() {
                    assert(before[l] == after[l]);
                } else if l == before.len() {
                    assert(before[k] == after[k]);
                }
            }
            assert forall|i: int|
                0 <= i < values.len() && #[trigger] values[i] is Text implies after.contains(
                values[i],
            ) by {
                if i < values.len() - 1 {
                    assert(values.drop_last()[i] == values[i]);
                    let k = choose|k: int| 0 <= k < before.len() && before[k] == values[i];
                    assert(after[k] == values[i]);
                } else {
                    assert(after.contains(after[before.len() as int]));
                }
            }
        } else {
            assert forall|i: int|
                0 <= i < values.len() && #[trigger] values[i] is Text implies after.contains(
                values[i],
            ) by {
                if i < values.len() - 1 {
                    assert(values.drop_last()[i] == values[i]);
                }
            }
        }
    }
}

/// The dictionary of the first rows is the front of the dictionary of all.
pub proof fn lemma_distinct_prefix(values: Seq<ValueV>, i: int)
    requires
        0 <= i <= values.len(),
    ensures
        distinct(values.take(i)).len() <= distinct(values).len(),
        distinct(values).take(distinct(values.take(i)).len() as int) == distinct(values.take(i)),
    decreases values.len() - i,
{
    if i == values.len() {
        assert(values.take(i) =~= values);
        assert(distinct(values).take(distinct(values).len() as int) =~= distinct(values));
    } else {
        lemma_distinct_prefix(values, i + 1);
        lemma_take_next(values, i);
        let front = distinct(values.take(i));
        let next = distinct(values.take(i + 1));
        assert(next.take(front.len() as int) =~= front);
        assert(distinct(values).take(front.len() as int) =~= distinct(values).take(
            next.len() as int,
        ).take(front.len() as int));
    }
}

/// The view of the strings of a dictionary, as values.
pub open spec fn as_text_values(strs: Seq<String>) -> Seq<ValueV> {
    Seq::new(strs.len(), |k: int| ValueV::Text(strs[k]@))
}

/// The dictionary of TEXT values, the code of each value, and the sizes of the
/// two blobs; or nothing when an INT is among the values.
#[verifier::loop_isolation(false)]
fn build_dictionary(values: &[Value]) -> (r: Option<(Vec<String>, Vec<u32>, u128, u128)>)
    requires
        values@.len() <= u32::MAX,
    ensures
        ({
            let all = values_view(values@);
            match r {
                None => has_other_type(ColumnType::Text, all),
                Some((dict, code, raw_blob, dict_blob)) => {
                    &&& !has_other_type(ColumnType::Text, all)
                    &&& as_text_values(dict@) == distinct(all)
                    &&& code@.len() == all.len()
                    &&& forall|i: int|
                        0 <= i < all.len() ==> #[trigger] code@[i] == code_of(
                            distinct(all),
                            all[i],
                        )
                    &&& raw_blob == blob(all).len()
                    &&& dict_blob == blob(distinct(all)).len()
                    &&& dict_blob <= raw_blob <= 0xffff_ffff * 0xffff_ffff_ffff_ffff
                },
            }
        }),
{
    let ghost all = values_view(values@);
    let mut dict: Vec<String> = Vec::new();
    let mut code: Vec<u32> = Vec::new();
    let mut index: StringHashMap<u32> = StringHashMap::new();
    let mut raw_blob: u128 = 0;
    let mut dict_blob: u128 = 0;
    let mut i: usize = 0;
    assert(all.take(0) =~= Seq::<ValueV>::empty());
    assert(as_text_values(dict@) =~= distinct(all.take(0)));
    while i < values.len()
        invariant
            i <= values@.len(),
            forall|j: int| 0 <= j < i ==> !(all[j] is Int),
            as_text_values(dict@) == distinct(all.take(i as int)),
            code@.len() == i,
            forall|j: int|
                0 <= j < i ==> #[trigger] code@[j] == code_of(distinct(all), all[j]),
            forall|s: Seq<char>| #[trigger]
                index@.contains_key(s) ==> index@[s] < dict@.len() && dict@[index@[s] as int]@ == s,
            forall|k: int| 0 <= k < dict@.len() ==> index@.contains_key(#[trigger] dict@[k]@),
            raw_blob == blob(all.take(i as int)).len(),
            raw_blob <= i * usize::MAX,
            dict_blob == blob(distinct(all.take(i as int))).len(),
            dict_blob <= raw_blob,
        decreases values.len() - i,
    {
        let ghost front = distinct(all.take(i as int));
        proof {
            lemma_take_next(all, i as int);
            assert(all[i as int] == values@[i as int]@);
            lemma_distinct(all);
            lemma_distinct(all.take(i as int));
            lemma_distinct_prefix(all, i as int);
            lemma_distinct_prefix(all, i + 1);
            assert(i * usize::MAX + usize::MAX <= 0xffff_ffff * usize::MAX) by (nonlinear_arith)
                requires
                    i < 0xffff_ffff,
            ;
            assert((i + 1) * usize::MAX == i * usize::MAX + usize::MAX) by (nonlinear_arith);
            assert(front.len() == dict@.len());
        }
        match &values[i] {
            Value::Text(s) => {
                let len: usize = s.as_str().as_bytes().len();
                raw_blob = raw_blob + len as u128;
                let known: Option<u32> = match index.get(s.as_str()) {
                    Some(c) => Some(*c),
                    None => None,
                };
                match known {
                    Some(c) => {
                        proof {
                            assert(front[c as int] == all[i as int]);
                            assert(front.contains(all[i as int]));
                            assert(distinct(all)[c as int] == distinct(all).take(
                                front.len() as int,
                            )[c as int]);
                            assert(distinct(all)[distinct(all).index_of(all[i as int])]
                                == all[i as int]);
                            assert(code_of(distinct(all), all[i as int]) == c);
                        }
                        code.push(c);
                    },
                    None => {
                        let c: u32 = dict.len() as u32;
                        let ghost dict_before = dict@;
                        proof {
                            if front.contains(all[i as int]) {
                                let k = choose|k: int|
                                    0 <= k < front.len() && front[k] == all[i as int];
                                assert(dict@[k]@ == s@);
                                assert(index@.contains_key(dict@[k]@));
                                assert(false);
                            }
                        }
                        index.insert(s.clone(), c);
                        dict.push(s.clone());
                        dict_blob = dict_blob + len as u128;
                        proof {
                            let next = distinct(all.take(i + 1));
                            assert(next == front.push(all[i as int]));
                            assert(as_text_values(dict@) =~= next);
                            assert(next.drop_last() =~= front);
                            assert(distinct(all)[c as int] == distinct(all).take(
                                next.len() as int,
                            )[c as int]);
                            assert(distinct(all)[distinct(all).index_of(all[i as int])]
                                == all[i as int]);
                            assert(code_of(distinct(all), all[i as int]) == c);
                            assert forall|k: int| 0 <= k < dict@.len() implies index@.contains_key(
                                #[trigger] dict@[k]@,
                            ) by {
                                if k < dict_before.len() {
                                    assert(dict@[k] == dict_before[k]);
                                }
                            }
                        }
                        code.push(c);
                    },
                }
            },
            Value::Null => {
                code.push(0);
            },
            Value::Int(_) => {
                assert(all[i as int] is Int);
                return None;
            },
        }
        i = i + 1;
    }
    assert(all.take(i as int) =~= all);
    assert(i * usize::MAX <= 0xffff_ffff * 0xffff_ffff_ffff_ffff) by (nonlinear_arith)
        requires
            i <= 0xffff_ffff,
            usize::MAX <= 0xffff_ffff_ffff_ffff,
    ;
    Some((dict, code, raw_blob, dict_blob))
}

/// The end offsets and the blob of the strings `strs`.
#[verifier::loop_isolation(false)]
fn encode_dictionary_strings(strs: &Vec<String>) -> (out: Vec<u8>)
    requires
        blob(as_text_values(strs@)).len() <= u32::MAX,
    ensures
        out@ == end_offsets(as_text_values(strs@)) + blob(as_text_values(strs@)),
{
    let ghost all = as_text_values(strs@);
    let mut out: Vec<u8> = Vec::new();
    let mut data: Vec<u8> = Vec::new();
    let mut i: usize = 0;
    assert(all.take(0) =~= Seq::<ValueV>::empty());
    while i < strs.len()
        invariant
            i <= strs@.len(),
            out@ == end_offsets(all.take(i as int)),
            data@ == blob(all.take(i as int)),
        decreases strs.len() - i,
    {
        proof {
            lemma_take_next(all, i as int);
            lemma_blob_grows(all, i + 1);
        }
        push_all(&mut data, strs[i].as_str().as_bytes());
        push_u32(&mut out, data.len() as u32);
        i = i + 1;
    }
    assert(all.take(i as int) =~= all);
    push_all(&mut out, data.as_slice());
    out
}

/// The end offsets and the blob of the TEXT values `values`.
#[verifier::loop_isolation(false)]
fn encode_text_raw(values: &[Value]) -> (out: Vec<u8>)
    requires
        blob(values_view(values@)).len() <= u32::MAX,
    ensures
        out@ == raw_text(values_view(values@)),
{
    let ghost all = values_view(values@);
    let mut out: Vec<u8> = Vec::new();
    let mut data: Vec<u8> = Vec::new();
    let mut i: usize = 0;
    assert(all.take(0) =~= Seq::<ValueV>::empty());
    while i < values.len()
        invariant
            i <= values@.len(),
            out@ == end_offsets(all.take(i as int)),
            data@ == blob(all.take(i as int)),
        decreases values.len() - i,
    {
        let ghost before = data@;
        proof {
            lemma_take_next(all, i as int);
            lemma_blob_grows(all, i + 1);
            assert(all[i as int] == values@[i as int]@);
        }
        if let Value::Text(s) = &values[i] {
            push_all(&mut data, s.as_str().as_bytes());
        }
        assert(data@ =~= before + text_bytes(all[i as int]));
        push_u32(&mut out, data.len() as u32);
        i = i + 1;
    }
    assert(all.take(i as int) =~= all);
    push_all(&mut out, data.as_slice());
    out
}

/// Append the codes.
#[verifier::loop_isolation(false)]
fn push_codes(out: &mut Vec<u8>, code: &Vec<u32>, Ghost(dict): Ghost<Seq<ValueV>>, Ghost(all): Ghost<Seq<ValueV>>)
    requires
        code@.len() == all.len(),
        forall|i: int| 0 <= i < all.len() ==> #[trigger] code@[i] == code_of(dict, all[i]),
    ensures
        final(out)@ == old(out)@ + codes(dict, all),
{
    let ghost before = out@;
    let mut i: usize = 0;
    assert(all.take(0) =~= Seq::<ValueV>::empty());
    assert(out@ =~= before + codes(dict, all.take(0)));
    while i < code.len()
        invariant
            i <= code@.len(),
            out@ == before + codes(dict, all.take(i as int)),
        decreases code.len() - i,
    {
        proof {
            lemma_take_next(all, i as int);
            assert(code@[i as int] == code_of(dict, all[i as int]));
        }
        let ghost now = out@;
        push_u32(out, code[i]);
        assert(out@ =~= before + (codes(dict, all.take(i as int)) + le32(code@[i as int] as int)));
        i = i + 1;
    }
    assert(all.take(i as int) =~= all);
}

/// Encode TEXT values, picking the smaller of raw and dictionary. Returns the
/// encoding tag together with the encoded bytes (no header, no presence
/// bitmap).
///
/// One pass over `values` builds the dictionary and tallies the byte lengths,
/// which gives the exact size of both layouts:
///
/// - raw  = `row_count * 4 + sum(len(s))` over non-NULL rows
/// - dict = `4 + dict_count * 4 + sum(len(s))` over distinct non-NULL rows
///   `+ row_count * 4`
pub fn encode_text(values: &[Value]) -> (r: Result<(u8, Vec<u8>), Error>)
    requires
        values@.len() <= u32::MAX,
    ensures
        match r {
            Ok((encoding, out)) => encoded_values(ColumnType::Text, values_view(values@)) == Ok::<
                _,
                ErrorV,
            >((encoding, out@)),
            Err(e) => encoded_values(ColumnType::Text, values_view(values@)) == Err::<
                (u8, Seq<u8>),
                ErrorV,
            >(e@),
        },
{
    let ghost all = values_view(values@);
    let (dict, code, raw_blob, dict_blob) = match build_dictionary(values) {
        None => {
            return Err(Error::invalid_value("TEXT column received an INT value"));
        },
        Some(parts) => parts,
    };
    proof {
        lemma_distinct(all);
        assert(dict@.len() == distinct(all).len());
    }
    // The row codes cost both layouts the same four bytes a row.
    if 4 + dict.len() as u128 * 4 + dict_blob < raw_blob {
        if dict_blob > u32::MAX as u128 {
            return Err(
                Error::invalid_value("TEXT dictionary blob exceeds the 4 GiB limit"),
            );
        }
        let mut out: Vec<u8> = Vec::new();
        push_u32(&mut out, dict.len() as u32);
        let strings = encode_dictionary_strings(&dict);
        push_all(&mut out, strings.as_slice());
        push_codes(&mut out, &code, Ghost(distinct(all)), Ghost(all));
        assert(out@ =~= dict_text(all));
        Ok((PHYSICAL_DICT, out))
    } else {
        if raw_blob > u32::MAX as u128 {
            return Err(Error::invalid_value("TEXT column exceeds the 4 GiB limit"));
        }
        Ok((PHYSICAL_RAW, encode_text_raw(values)))
    }
}

/// The number of NULLs among `values`.
fn count_nulls(values: &[Value]) -> (n: usize)
    ensures
        n == nulls_in(values_view(values@)),
        n <= values@.len(),
{
    let ghost all = values_view(values@);
    let mut n: usize = 0;
    let mut i: usize = 0;
    assert(all.take(0) =~= Seq::<ValueV>::empty());
    while i < values.len()
        invariant
            all == values_view(values@),
            i <= values@.len(),
            n <= i,
            n == nulls_in(all.take(i as int)),
        decreases values.len() - i,
    {
        proof {
            lemma_take_next(all, i as int);
            assert(all[i as int] == values@[i as int]@);
        }
        let is_null = match &values[i] {
            Value::Null => true,
            _ => false,
        };
        if is_null {
            n = n + 1;
        }
        i = i + 1;
    }
    assert(all.take(i as int) =~= all);
    n
}

/// Build the whole byte image (header + data area) for a column of `values`.
/// `deleted` is the row group's delete bitmap (empty when no row is
/// tombstoned). It only keeps tombstoned offsets out of the INT min/max stats;
/// the data area encodes every value, so positional rids stay stable.
pub fn encode_column(ty: ColumnType, values: &[Value], deleted: &[u8]) -> (r: Result<
    Vec<u8>,
    Error,
>)
    ensures
        match r {
            Ok(out) => encoded_column(ty, values_view(values@), deleted@) == Ok::<_, ErrorV>(out@),
            Err(e) => encoded_column(ty, values_view(values@), deleted@) == Err::<
                Seq<u8>,
                ErrorV,
            >(e@),
        },
{
    if values.len() > u32::MAX as usize {
        return Err(Error::invalid_value("row group exceeds the u32 row-count limit"));
    }
    let row_count: u32 = values.len() as u32;
    let null_count: u32 = count_nulls(values) as u32;
    let encoded = match ty {
        ColumnType::Int => match encode_int_raw(values) {
            Err(e) => Err(e),
            Ok(data) => Ok((PHYSICAL_RAW, data)),
        },
        ColumnType::Text => encode_text(values),
    };
    let (encoding, data) = match encoded {
        Err(e) => {
            return Err(e);
        },
        Ok(parts) => parts,
    };
    let (min, max) = compute_int_range(values, deleted);
    let flags: u8 = if null_count > 0 {
        FLAG_HAS_NULLS
    } else {
        0
    };
    let mut buf = make_header(ty, encoding, flags, row_count, null_count, min, max);
    if null_count > 0 {
        let bitmap = build_present_bitmap(values);
        push_all(&mut buf, bitmap.as_slice());
    }
    push_all(&mut buf, data.as_slice());
    Ok(buf)
}

// ---- data-area decoders ----

/// The values of a raw INT data area.
pub open spec fn decoded_ints(
    data: Seq<u8>,
    rows: int,
    present: Option<Seq<u8>>,
    path: Seq<char>,
) -> Result<Seq<ValueV>, ErrorV> {
    if data.len() < rows * 8 {
        Err(corrupt_at(path, "' INT data is truncated"@))
    } else {
        Ok(
            Seq::new(
                rows as nat,
                |i: int|
                    if present_at(present, i) {
                        ValueV::Int(i64_at(data, i * 8) as i64)
                    } else {
                        ValueV::Null
                    },
            ),
        )
    }
}

/// The end offset of value `i` in a run of 32-bit end offsets, and its start:
/// the end of the value before.
pub open spec fn end_at(offsets: Seq<u8>, i: int) -> int {
    u32_at(offsets, i * 4)
}

pub open spec fn start_at(offsets: Seq<u8>, i: int) -> int {
    if i == 0 {
        0
    } else {
        end_at(offsets, i - 1)
    }
}

/// The text of value `i` in a blob with the given end offsets: out of range and
/// invalid text are told apart by their errors.
pub open spec fn text_at(
    offsets: Seq<u8>,
    data: Seq<u8>,
    i: int,
    out_of_range: ErrorV,
    not_utf8: ErrorV,
) -> Result<Seq<char>, ErrorV> {
    let start = start_at(offsets, i);
    let end = end_at(offsets, i);
    if end < start || end > data.len() {
        Err(out_of_range)
    } else if !valid_utf8(data.subrange(start, end)) {
        Err(not_utf8)
    } else {
        Ok(decode_utf8(data.subrange(start, end)))
    }
}

/// Row `i` of a raw TEXT data area.
pub open spec fn raw_text_row(
    offsets: Seq<u8>,
    data: Seq<u8>,
    present: Option<Seq<u8>>,
    path: Seq<char>,
) -> spec_fn(int) -> Result<ValueV, ErrorV> {
    |i: int|
        {
            let out_of_range = corrupt_at(path, "' has an out-of-range TEXT offset"@);
            let start = start_at(offsets, i);
            let end = end_at(offsets, i);
            if end < start || end > data.len() {
                Err(out_of_range)
            } else if present_at(present, i) {
                match text_at(
                    offsets,
                    data,
                    i,
                    out_of_range,
                    corrupt_at(path, "' has invalid UTF-8"@),
                ) {
                    Ok(s) => Ok(ValueV::Text(s)),
                    Err(e) => Err(e),
                }
            } else {
                Ok(ValueV::Null)
            }
        }
}

/// The values of a raw TEXT data area, or the first row that is wrong.
pub open spec fn decoded_raw_text(
    data: Seq<u8>,
    rows: int,
    present: Option<Seq<u8>>,
    path: Seq<char>,
) -> Result<Seq<ValueV>, ErrorV> {
    if data.len() < rows * 4 {
        Err(corrupt_at(path, "' TEXT offsets are truncated"@))
    } else {
        collect(rows, raw_text_row(data, data.skip(rows * 4), present, path))
    }
}

/// Entry `k` of a dictionary.
pub open spec fn dict_entry(offsets: Seq<u8>, data: Seq<u8>, path: Seq<char>) -> spec_fn(
    int,
) -> Result<Seq<char>, ErrorV> {
    |k: int|
        text_at(
            offsets,
            data,
            k,
            corrupt_at(path, "' has an out-of-range dictionary offset"@),
            corrupt_at(path, "' has invalid UTF-8 in the dictionary"@),
        )
}

/// Row `i` of a dictionary-encoded column.
pub open spec fn dict_row(
    row_codes: Seq<u8>,
    dict: Seq<Seq<char>>,
    present: Option<Seq<u8>>,
    path: Seq<char>,
) -> spec_fn(int) -> Result<ValueV, ErrorV> {
    |i: int|
        if !present_at(present, i) {
            Ok(ValueV::Null)
        } else {
            let code = u32_at(row_codes, i * 4);
            if code >= dict.len() {
                Err(
                    ErrorV::Corrupt(
                        "column file '"@ + path + "' has dictionary code "@ + decimal(code)
                            + " out of range (dict has "@ + decimal(dict.len() as int)
                            + " entries)"@,
                    ),
                )
            } else {
                Ok(ValueV::Text(dict[code]))
            }
        }
}

/// The values of a dictionary-encoded TEXT data area, or the first thing wrong
/// with it.
pub open spec fn decoded_dict_text(
    data: Seq<u8>,
    rows: int,
    present: Option<Seq<u8>>,
    path: Seq<char>,
) -> Result<Seq<ValueV>, ErrorV> {
    let dict_count = u32_at(data, 0);
    let ends_end = 4 + dict_count * 4;
    let offsets = data.skip(4);
    let blob_len = if dict_count == 0 {
        0
    } else {
        end_at(offsets, dict_count - 1)
    };
    let blob_end = ends_end + blob_len;
    if rows == 0 {
        Ok(Seq::empty())
    } else if data.len() < 4 {
        Err(corrupt_at(path, "' dictionary header is truncated"@))
    } else if data.len() < ends_end {
        Err(corrupt_at(path, "' dictionary offsets are truncated"@))
    } else if data.len() < blob_end {
        Err(corrupt_at(path, "' dictionary blob is truncated"@))
    } else {
        match collect(dict_count, dict_entry(offsets, data.subrange(ends_end, blob_end), path)) {
            Err(e) => Err(e),
            Ok(dict) => if data.len() < blob_end + rows * 4 {
                Err(corrupt_at(path, "' dictionary codes are truncated"@))
            } else {
                collect(rows, dict_row(data.skip(blob_end), dict, present, path))
            },
        }
    }
}

/// The values behind a header, or what is wrong with the data area.
pub open spec fn decoded_values(h: HeaderV, body: Seq<u8>, path: Seq<char>) -> Result<
    Seq<ValueV>,
    ErrorV,
> {
    let rows = h.row_count;
    let bitmap_len = bytes_for_bits(rows);
    if h.has_nulls() && body.len() < bitmap_len {
        Err(corrupt_at(path, "' presence bitmap is truncated"@))
    } else {
        let present = if h.has_nulls() {
            Some(body.take(bitmap_len))
        } else {
            None
        };
        let data = if h.has_nulls() {
            body.skip(bitmap_len)
        } else {
            body
        };
        if h.logical_type == ColumnType::Int && h.physical_encoding == PHYSICAL_RAW {
            decoded_ints(data, rows, present, path)
        } else if h.logical_type == ColumnType::Text && h.physical_encoding == PHYSICAL_RAW {
            decoded_raw_text(data, rows, present, path)
        } else if h.logical_type == ColumnType::Text && h.physical_encoding == PHYSICAL_DICT {
            decoded_dict_text(data, rows, present, path)
        } else {
            Err(
                ErrorV::Corrupt(
                    "column file '"@ + path + "' has "@ + type_text(h.logical_type)
                        + " column with unsupported physical encoding "@ + decimal(
                        h.physical_encoding as int,
                    ),
                ),
            )
        }
    }
}

/// What reading a column file gives: its header and its values.
pub open spec fn column_of(file: Option<Seq<u8>>, path: Seq<char>) -> Result<
    (HeaderV, Seq<ValueV>),
    ErrorV,
> {
    match file {
        None => Err(ErrorV::Io("read column file"@)),
        Some(bytes) => match header_of(bytes, path) {
            Err(e) => Err(e),
            Ok(h) => match decoded_values(h, bytes.skip(HEADER_SIZE as int), path) {
                Err(e) => Err(e),
                Ok(values) => Ok((h, values)),
            },
        },
    }
}

/// What reading only the header of a column file gives.
pub open spec fn header_of_file(file: Option<Seq<u8>>, path: Seq<char>) -> Result<
    HeaderV,
    ErrorV,
> {
    match file {
        None => Err(ErrorV::Io("open column file"@)),
        Some(bytes) => if bytes.len() < HEADER_SIZE {
            Err(ErrorV::Io("read column header"@))
        } else {
            header_of(bytes, path)
        },
    }
}

/// What dropping the rows past `len` from a column file gives: the new file.
pub open spec fn truncated(
    file: Option<Seq<u8>>,
    path: Seq<char>,
    ty: ColumnType,
    len: int,
    deleted: Seq<u8>,
) -> Result<Seq<u8>, ErrorV> {
    match column_of(file, path) {
        Err(e) => Err(e),
        Ok((h, values)) => if values.len() < len {
            Err(
                ErrorV::Corrupt(
                    "column file '"@ + path + "' holds "@ + decimal(values.len() as int)
                        + " rows, cannot truncate to "@ + decimal(len),
                ),
            )
        } else {
            encoded_column(ty, values.take(len), deleted)
        },
    }
}

/// Decode the values of a raw INT data area.
pub fn decode_int_raw(data: &[u8], row_count: usize, present: Option<&Vec<u8>>, path: &str) -> (r:
    Result<Vec<Value>, Error>)
    requires
        row_count <= u32::MAX,
    ensures
        match r {
            Ok(out) => decoded_ints(data@, row_count as int, file_view(present), path@) == Ok::<
                _,
                ErrorV,
            >(values_view(out@)),
            Err(e) => decoded_ints(data@, row_count as int, file_view(present), path@) == Err::<
                Seq<ValueV>,
                ErrorV,
            >(e@),
        },
{
    if (data.len() as u64) < row_count as u64 * 8 {
        return Err(corrupt_error(path, "' INT data is truncated"));
    }
    let ghost all = decoded_ints(data@, row_count as int, file_view(present), path@)->Ok_0;
    let mut out: Vec<Value> = Vec::new();
    let mut i: usize = 0;
    while i < row_count
        invariant
            row_count <= u32::MAX,
            row_count * 8 <= data@.len(),
            decoded_ints(data@, row_count as int, file_view(present), path@) == Ok::<_, ErrorV>(
                all,
            ),
            i <= row_count,
            out@.len() == i,
            forall|j: int| 0 <= j < i ==> (#[trigger] out@[j])@ == all[j],
        decreases row_count - i,
    {
        assert(data.len() <= usize::MAX);
        if is_present(present, i) {
            out.push(Value::Int(read_i64(data, i * 8)));
        } else {
            out.push(Value::Null);
        }
        i = i + 1;
    }
    assert(values_view(out@) =~= all);
    Ok(out)
}

/// Decode the values of a raw TEXT data area.
#[verifier::loop_isolation(false)]
pub fn decode_text_raw(data: &[u8], row_count: usize, present: Option<&Vec<u8>>, path: &str) -> (r:
    Result<Vec<Value>, Error>)
    requires
        row_count <= u32::MAX,
    ensures
        match r {
            Ok(out) => decoded_raw_text(data@, row_count as int, file_view(present), path@) == Ok::<
                _,
                ErrorV,
            >(values_view(out@)),
            Err(e) => decoded_raw_text(data@, row_count as int, file_view(present), path@) == Err::<
                Seq<ValueV>,
                ErrorV,
            >(e@),
        },
{
    if (data.len() as u64) < row_count as u64 * 4 {
        return Err(corrupt_error(path, "' TEXT offsets are truncated"));
    }
    let text = slice_of(data, row_count * 4, data.len());
    let ghost rows = row_count as int;
    let ghost row = raw_text_row(data@, data@.skip(rows * 4), file_view(present), path@);
    assert(text@ =~= data@.skip(rows * 4));
    let mut out: Vec<Value> = Vec::new();
    let mut start: usize = 0;
    let mut i: usize = 0;
    assert(values_view(out@) =~= Seq::<ValueV>::empty());
    while i < row_count
        invariant
            i <= row_count,
            start == start_at(data@, i as int),
            collect(rows, row) == collect_from(values_view(out@), i as int, rows, row),
        decreases row_count - i,
    {
        let end: usize = read_u32(data, i * 4) as usize;
        assert(end == end_at(data@, i as int));
        if end < start || end > text.len() {
            return Err(corrupt_error(path, "' has an out-of-range TEXT offset"));
        }
        let ghost before = out@;
        if is_present(present, i) {
            let piece = slice_of(text.as_slice(), start, end);
            match from_utf8(piece.as_slice()) {
                None => {
                    return Err(corrupt_error(path, "' has invalid UTF-8"));
                },
                Some(s) => {
                    assert(row(i as int) == Ok::<ValueV, ErrorV>(ValueV::Text(s@)));
                    out.push(Value::Text(s));
                },
            }
        } else {
            out.push(Value::Null);
        }
        assert(row(i as int) == Ok::<ValueV, ErrorV>(out@.last()@));
        assert(values_view(out@) =~= values_view(before).push(out@.last()@));
        start = end;
        i = i + 1;
    }
    Ok(out)
}

/// Decode the entries of a dictionary: `count` texts in `data`, whose end
/// offsets stand behind the first four bytes of `area`.
#[verifier::loop_isolation(false)]
fn decode_dictionary(area: &[u8], count: usize, data: &Vec<u8>, path: &str) -> (r: Result<
    Vec<String>,
    Error,
>)
    requires
        4 + count * 4 <= area@.len(),
    ensures
        match r {
            Ok(dict) => collect(count as int, dict_entry(area@.skip(4), data@, path@)) == Ok::<
                _,
                ErrorV,
            >(texts(dict@)),
            Err(e) => collect(count as int, dict_entry(area@.skip(4), data@, path@)) == Err::<
                Seq<Seq<char>>,
                ErrorV,
            >(e@),
        },
{
    let ghost entry = dict_entry(area@.skip(4), data@, path@);
    let mut dict: Vec<String> = Vec::new();
    let mut start: usize = 0;
    let mut k: usize = 0;
    assert(texts(dict@) =~= Seq::<Seq<char>>::empty());
    assert(area.len() <= usize::MAX);
    while k < count
        invariant
            k <= count,
            start == start_at(area@.skip(4), k as int),
            collect(count as int, entry) == collect_from(
                texts(dict@),
                k as int,
                count as int,
                entry,
            ),
        decreases count - k,
    {
        let end: usize = read_u32(area, 4 + k * 4) as usize;
        proof {
            assert(area@.skip(4).subrange(k * 4, k * 4 + 4) =~= area@.subrange(
                4 + k * 4,
                4 + k * 4 + 4,
            ));
            assert(end == end_at(area@.skip(4), k as int));
        }
        if end < start || end > data.len() {
            return Err(corrupt_error(path, "' has an out-of-range dictionary offset"));
        }
        let piece = slice_of(data.as_slice(), start, end);
        let ghost before = dict@;
        match from_utf8(piece.as_slice()) {
            None => {
                return Err(corrupt_error(path, "' has invalid UTF-8 in the dictionary"));
            },
            Some(s) => {
                assert(entry(k as int) == Ok::<Seq<char>, ErrorV>(s@));
                dict.push(s);
                assert(texts(dict@) =~= texts(before).push(s@));
            },
        }
        start = end;
        k = k + 1;
    }
    Ok(dict)
}

/// Decode the values of a dictionary-encoded TEXT data area.
#[verifier::loop_isolation(false)]
pub fn decode_text_dict(data: &[u8], row_count: usize, present: Option<&Vec<u8>>, path: &str) -> (r:
    Result<Vec<Value>, Error>)
    requires
        row_count <= u32::MAX,
    ensures
        match r {
            Ok(out) => decoded_dict_text(data@, row_count as int, file_view(present), path@)
                == Ok::<_, ErrorV>(values_view(out@)),
            Err(e) => decoded_dict_text(data@, row_count as int, file_view(present), path@)
                == Err::<Seq<ValueV>, ErrorV>(e@),
        },
{
    let mut out: Vec<Value> = Vec::new();
    assert(values_view(out@) =~= Seq::<ValueV>::empty());
    if row_count == 0 {
        return Ok(out);
    }
    if data.len() < 4 {
        return Err(corrupt_error(path, "' dictionary header is truncated"));
    }
    let size: u64 = data.len() as u64;
    let dict_count: u32 = read_u32(data, 0);
    let ends_end: u64 = 4 + dict_count as u64 * 4;
    if size < ends_end {
        return Err(corrupt_error(path, "' dictionary offsets are truncated"));
    }
    let count: usize = dict_count as usize;
    let blob_len: u32 = if count == 0 {
        0
    } else {
        proof {
            assert(data@.skip(4).subrange((count - 1) * 4, (count - 1) * 4 + 4) =~= data@.subrange(
                4 + (count - 1) * 4,
                4 + (count - 1) * 4 + 4,
            ));
        }
        read_u32(data, 4 + (count - 1) * 4)
    };
    let blob_end: u64 = ends_end + blob_len as u64;
    if size < blob_end {
        return Err(corrupt_error(path, "' dictionary blob is truncated"));
    }
    let text = slice_of(data, ends_end as usize, blob_end as usize);
    let dict = match decode_dictionary(data, count, &text, path) {
        Err(e) => {
            return Err(e);
        },
        Ok(dict) => dict,
    };
    proof {
        lemma_collected(count as int, dict_entry(data@.skip(4), text@, path@));
    }
    if size < blob_end + row_count as u64 * 4 {
        return Err(corrupt_error(path, "' dictionary codes are truncated"));
    }
    let codes_start: usize = blob_end as usize;
    let ghost rows = row_count as int;
    let ghost row = dict_row(data@.skip(blob_end as int), texts(dict@), file_view(present), path@);
    let mut i: usize = 0;
    while i < row_count
        invariant
            i <= row_count,
            collect(rows, row) == collect_from(values_view(out@), i as int, rows, row),
        decreases row_count - i,
    {
        let ghost before = out@;
        if is_present(present, i) {
            proof {
                assert(data@.skip(blob_end as int).subrange(i * 4, i * 4 + 4) =~= data@.subrange(
                    blob_end + i * 4,
                    blob_end + i * 4 + 4,
                ));
            }
            let code: usize = read_u32(data, codes_start + i * 4) as usize;
            if code >= dict.len() {
                let shown = usize_text(code);
                let entries = usize_text(dict.len());
                let mut message = join5(
                    "column file '",
                    path,
                    "' has dictionary code ",
                    shown.as_str(),
                    " out of range (dict has ",
                );
                message.append(entries.as_str());
                message.append(" entries)");
                return Err(Error::corrupt(message.as_str()));
            }
            out.push(Value::Text(dict[code].clone()));
        } else {
            out.push(Value::Null);
        }
        assert(row(i as int) == Ok::<ValueV, ErrorV>(out@.last()@));
        assert(values_view(out@) =~= values_view(before).push(out@.last()@));
        i = i + 1;
    }
    Ok(out)
}

// ---- whole files ----

/// The image of a new `.col` file with no rows.
pub fn write_empty(ty: ColumnType) -> (bytes: Vec<u8>)
    ensures
        bytes@ == header_image(ty, PHYSICAL_RAW, 0, 0, 0, no_range()),
{
    empty_header(ty)
}

/// Encode `values` for a column of type `ty`: the new image of its `.col`
/// file. `deleted` is the row group's current delete bitmap (empty when no row
/// is tombstoned); it only keeps tombstoned offsets out of the INT min/max
/// stats.
pub fn write_column(ty: ColumnType, values: &[Value], deleted: &[u8]) -> (r: Result<
    Vec<u8>,
    Error,
>)
    ensures
        match r {
            Ok(out) => encoded_column(ty, values_view(values@), deleted@) == Ok::<_, ErrorV>(out@),
            Err(e) => encoded_column(ty, values_view(values@), deleted@) == Err::<
                Seq<u8>,
                ErrorV,
            >(e@),
        },
{
    encode_column(ty, values, deleted)
}

/// Read and parse only the 56-byte header of a `.col` file, without decoding
/// the data area. `None` is a file that is not there.
pub fn read_header(file: Option<&Vec<u8>>, path: &str) -> (r: Result<Header, Error>)
    ensures
        match r {
            Ok(h) => header_of_file(file_view(file), path@) == Ok::<HeaderV, ErrorV>(h@),
            Err(e) => header_of_file(file_view(file), path@) == Err::<HeaderV, ErrorV>(e@),
        },
{
    match file {
        None => Err(Error::missing_file("open column file")),
        Some(bytes) => {
            if bytes.len() < HEADER_SIZE {
                return Err(Error::short_file("read column header"));
            }
            parse_header(bytes.as_slice(), path)
        },
    }
}

/// Read and decode a `.col` file, returning its parsed header and every value
/// in row order. NULL rows decode to `Value::Null`. Corrupt or truncated files
/// are errors, so a scan never yields garbage. `None` is a file that is not
/// there.
pub fn read_column(file: Option<&Vec<u8>>, path: &str) -> (r: Result<(Header, Vec<Value>), Error>)
    ensures
        match r {
            Ok((h, values)) => column_of(file_view(file), path@) == Ok::<_, ErrorV>(
                (h@, values_view(values@)),
            ),
            Err(e) => column_of(file_view(file), path@) == Err::<(HeaderV, Seq<ValueV>), ErrorV>(
                e@,
            ),
        },
{
    let bytes = match file {
        None => {
            return Err(Error::missing_file("read column file"));
        },
        Some(bytes) => bytes,
    };
    let header = match parse_header(bytes.as_slice(), path) {
        Err(e) => {
            return Err(e);
        },
        Ok(h) => h,
    };
    let row_count: usize = header.row_count as usize;
    let body = slice_of(bytes.as_slice(), HEADER_SIZE, bytes.len());
    assert(body@ =~= bytes@.skip(HEADER_SIZE as int));
    let mut bitmap: Option<Vec<u8>> = None;
    let mut from: usize = 0;
    if header.has_nulls() {
        let bitmap_len: usize = row_count / 8 + if row_count % 8 == 0 {
            0
        } else {
            1
        };
        assert(bitmap_len == bytes_for_bits(row_count as int));
        if body.len() < bitmap_len {
            return Err(corrupt_error(path, "' presence bitmap is truncated"));
        }
        let bits = slice_of(body.as_slice(), 0, bitmap_len);
        assert(bits@ =~= body@.take(bitmap_len as int));
        bitmap = Some(bits);
        from = bitmap_len;
    }
    let data = slice_of(body.as_slice(), from, body.len());
    assert(data@ =~= body@.skip(from as int));
    assert(from == 0 ==> data@ =~= body@);
    let present = bitmap.as_ref();
    let decoded = if header.logical_type == ColumnType::Int && header.physical_encoding
        == PHYSICAL_RAW {
        decode_int_raw(data.as_slice(), row_count, present, path)
    } else if header.logical_type == ColumnType::Text && header.physical_encoding == PHYSICAL_RAW {
        decode_text_raw(data.as_slice(), row_count, present, path)
    } else if header.logical_type == ColumnType::Text && header.physical_encoding
        == PHYSICAL_DICT {
        decode_text_dict(data.as_slice(), row_count, present, path)
    } else {
        let tag = u32_text(header.physical_encoding as u32);
        let mut message = join5(
            "column file '",
            path,
            "' has ",
            header.logical_type.as_str(),
            " column with unsupported physical encoding ",
        );
        message.append(tag.as_str());
        Err(Error::corrupt(message.as_str()))
    };
    match decoded {
        Err(e) => Err(e),
        Ok(values) => Ok((header, values)),
    }
}

/// Drop the trailing rows of a `.col` file, keeping its first `new_len` rows:
/// the new image of the file. `deleted` is the row group's delete bitmap, so
/// the INT min/max stats reflect live values. Errors if the file holds fewer
/// than `new_len` rows: that is corruption, not a tail to trim.
pub fn truncate_column(
    file: Option<&Vec<u8>>,
    path: &str,
    ty: ColumnType,
    new_len: usize,
    deleted: &[u8],
) -> (r: Result<Vec<u8>, Error>)
    ensures
        match r {
            Ok(out) => truncated(file_view(file), path@, ty, new_len as int, deleted@) == Ok::<
                _,
                ErrorV,
            >(out@),
            Err(e) => truncated(file_view(file), path@, ty, new_len as int, deleted@) == Err::<
                Seq<u8>,
                ErrorV,
            >(e@),
        },
{
    let mut values = match read_column(file, path) {
        Err(e) => {
            return Err(e);
        },
        Ok((_, values)) => values,
    };
    if values.len() < new_len {
        let held = usize_text(values.len());
        let wanted = usize_text(new_len);
        let mut message = join5(
            "column file '",
            path,
            "' holds ",
            held.as_str(),
            " rows, cannot truncate to ",
        );
        message.append(wanted.as_str());
        return Err(Error::corrupt(message.as_str()));
    }
    let ghost before = values@;
    values.truncate(new_len);
    assert(values_view(values@) =~= values_view(before).take(new_len as int));
    write_column(ty, values.as_slice(), deleted)
}

} // verus!
