//! Byte format of the per-row-group delete bitmaps (`deletes.bm`).
//!
//! One bitmap lives next to the column files of each row group. Bit `i`
//! belongs to the row at offset `i`: `1` means deleted, `0` means live. The
//! file is created with all bits zero, sized to the table's `row_group_size`,
//! and never resized.
//!
//! Byte layout (integers little-endian):
//!
//! ```text
//! offset  size  field             notes
//! ------  ----  -----             -----
//! 0       8     magic             ASCII "BALIKDEL"
//! 8       4     format_version    u32 = 1
//! 12      4     deleted_count     u32, number of set bits
//! 16      8     reserved          zeroed
//! 24      ...   bitmap data       ceil(row_group_size / 8) bytes
//! ```

use vstd::prelude::*;
use vstd::string::*;

use crate::bytes::{
    bit_set, bytes_for_bits, get_bit, le32, lemma_le32, lemma_with_bit, lemma_zero_bits, push_all,
    push_u32, read_u32, set_bit, slice_of, starts_with, u32_at, with_bit, zero_bytes, zeros,
};
use crate::error::{Error, ErrorV};
use crate::text::{decimal, join3, join5, u32_text, usize_text};

verus! {

pub const HEADER_SIZE: usize = 24;

pub const FORMAT_VERSION: u32 = 1;

/// File name within a row-group directory.
pub const FILE_NAME: &'static str = "deletes.bm";

/// The bytes of "BALIKDEL".
pub open spec fn magic() -> Seq<u8> {
    seq![66u8, 65, 76, 73, 75, 68, 69, 76]
}

/// Parsed view of a `deletes.bm` header.
#[derive(Debug, Clone, Copy, PartialEq, Eq)]
pub struct Header {
    pub format_version: u32,
    pub deleted_count: u32,
}

/// The file that holds the bitmap `bits` and says that `count` rows are
/// deleted.
pub open spec fn file_image(count: int, bits: Seq<u8>) -> Seq<u8> {
    magic() + le32(FORMAT_VERSION as int) + le32(count) + zero_bytes(8) + bits
}

/// `message` about the bitmap file at `path`.
pub open spec fn corrupt_at(path: Seq<char>, message: Seq<char>) -> ErrorV {
    ErrorV::Corrupt("delete bitmap '"@ + path + message)
}

/// What the header of a bitmap file says, or why it cannot be read.
pub open spec fn header_of(bytes: Seq<u8>, path: Seq<char>) -> Result<Header, ErrorV> {
    if bytes.len() < HEADER_SIZE {
        Err(corrupt_at(path, "' shorter than 24-byte header"@))
    } else if !magic().is_prefix_of(bytes) {
        Err(corrupt_at(path, "' has bad magic"@))
    } else if u32_at(bytes, 8) > FORMAT_VERSION {
        Err(
            ErrorV::Corrupt(
                "delete bitmap '"@ + path + "' uses format_version "@ + decimal(u32_at(bytes, 8))
                    + ", this binary supports 1"@,
            ),
        )
    } else {
        Ok(
            Header {
                format_version: u32_at(bytes, 8) as u32,
                deleted_count: u32_at(bytes, 12) as u32,
            },
        )
    }
}

/// What loading a bitmap file gives: its header and the bitmap behind it.
pub open spec fn load_of(file: Option<Seq<u8>>, path: Seq<char>) -> Result<
    (Header, Seq<u8>),
    ErrorV,
> {
    match file {
        None => Err(ErrorV::Io("read delete bitmap"@)),
        Some(bytes) => match header_of(bytes, path) {
            Err(e) => Err(e),
            Ok(h) => Ok((h, bytes.skip(HEADER_SIZE as int))),
        },
    }
}

/// The bitmap file after the row at `offset` was deleted, given the file
/// before.
pub open spec fn marked(file: Option<Seq<u8>>, path: Seq<char>, offset: int) -> Result<
    Seq<u8>,
    ErrorV,
> {
    match load_of(file, path) {
        Err(e) => Err(e),
        Ok((h, bits)) => if offset / 8 >= bits.len() {
            Err(
                ErrorV::Corrupt(
                    "delete bitmap '"@ + path + "' has no bit for row offset "@ + decimal(offset),
                ),
            )
        } else if bit_set(bits, offset) {
            Ok(file->0)
        } else {
            Ok(
                file->0.take(12) + le32(
                    if h.deleted_count < u32::MAX {
                        h.deleted_count + 1
                    } else {
                        0
                    },
                ) + file->0.subrange(16, HEADER_SIZE as int) + with_bit(bits, offset),
            )
        },
    }
}

/// Bytes of bitmap data needed to track `row_group_size` rows.
pub fn bitmap_bytes(row_group_size: u32) -> (n: usize)
    ensures
        n == bytes_for_bits(row_group_size as int),
{
    (row_group_size / 8 + if row_group_size % 8 == 0 {
        0
    } else {
        1
    }) as usize
}

/// Build the full byte image of an empty bitmap file: header and a zeroed
/// bitmap for `row_group_size` rows.
pub fn empty_file(row_group_size: u32) -> (buf: Vec<u8>)
    ensures
        buf@ == file_image(0, zero_bytes(bytes_for_bits(row_group_size as int))),
{
    let mut buf: Vec<u8> = vec![66u8, 65u8, 76u8, 73u8, 75u8, 68u8, 69u8, 76u8];
    assert(buf@ =~= magic());
    push_u32(&mut buf, FORMAT_VERSION);
    push_u32(&mut buf, 0);
    let reserved = zeros(8);
    push_all(&mut buf, reserved.as_slice());
    let bits = zeros(bitmap_bytes(row_group_size));
    push_all(&mut buf, bits.as_slice());
    buf
}

/// Parse a bitmap header from the leading bytes of a file image, validating
/// magic and format version.
pub fn parse_header(bytes: &[u8], path: &str) -> (r: Result<Header, Error>)
    ensures
        match r {
            Ok(h) => header_of(bytes@, path@) == Ok::<Header, ErrorV>(h),
            Err(e) => header_of(bytes@, path@) == Err::<Header, ErrorV>(e@),
        },
{
    if bytes.len() < HEADER_SIZE {
        return Err(
            Error::corrupt(
                join3("delete bitmap '", path, "' shorter than 24-byte header").as_str(),
            ),
        );
    }
    let expected: Vec<u8> = vec![66u8, 65u8, 76u8, 73u8, 75u8, 68u8, 69u8, 76u8];
    assert(expected@ =~= magic());
    if !starts_with(bytes, expected.as_slice()) {
        return Err(Error::corrupt(join3("delete bitmap '", path, "' has bad magic").as_str()));
    }
    let format_version: u32 = read_u32(bytes, 8);
    if format_version > FORMAT_VERSION {
        let version = u32_text(format_version);
        return Err(
            Error::corrupt(
                join5(
                    "delete bitmap '",
                    path,
                    "' uses format_version ",
                    version.as_str(),
                    ", this binary supports 1",
                ).as_str(),
            ),
        );
    }
    let deleted_count: u32 = read_u32(bytes, 12);
    Ok(Header { format_version, deleted_count })
}

/// Read a whole bitmap file and return its header and its bitmap. `None` is a
/// file that is not there.
pub fn load(file: Option<&Vec<u8>>, path: &str) -> (r: Result<(Header, Vec<u8>), Error>)
    ensures
        match r {
            Ok((h, bits)) => load_of(file_view(file), path@) == Ok::<_, ErrorV>((h, bits@)),
            Err(e) => load_of(file_view(file), path@) == Err::<(Header, Seq<u8>), ErrorV>(e@),
        },
{
    match file {
        None => Err(Error::missing_file("read delete bitmap")),
        Some(bytes) => match parse_header(bytes.as_slice(), path) {
            Err(e) => Err(e),
            Ok(h) => {
                let bits = slice_of(bytes.as_slice(), HEADER_SIZE, bytes.len());
                assert(bits@ =~= bytes@.skip(HEADER_SIZE as int));
                Ok((h, bits))
            },
        },
    }
}

/// The bytes of a file that may not be there.
pub open spec fn file_view(file: Option<&Vec<u8>>) -> Option<Seq<u8>> {
    match file {
        None => None,
        Some(bytes) => Some(bytes@),
    }
}

/// Mark the row at `offset` as deleted: the new image of the bitmap file, with
/// the bit set and the count of deleted rows moved along. A row that is
/// already deleted leaves the image as it is.
pub fn mark_deleted(file: Option<&Vec<u8>>, path: &str, offset: usize) -> (r: Result<
    Vec<u8>,
    Error,
>)
    ensures
        match r {
            Ok(bytes) => marked(file_view(file), path@, offset as int) == Ok::<_, ErrorV>(bytes@),
            Err(e) => marked(file_view(file), path@, offset as int) == Err::<Seq<u8>, ErrorV>(e@),
        },
{
    let (h, mut bits) = match load(file, path) {
        Err(e) => {
            return Err(e);
        },
        Ok(loaded) => loaded,
    };
    if offset / 8 >= bits.len() {
        let row = usize_text(offset);
        let mut message = join3("delete bitmap '", path, "' has no bit for row offset ");
        message.append(row.as_str());
        return Err(Error::corrupt(message.as_str()));
    }
    match file {
        None => Err(Error::missing_file("read delete bitmap")),
        Some(bytes) => {
            if is_deleted(bits.as_slice(), offset) {
                let same = slice_of(bytes.as_slice(), 0, bytes.len());
                assert(same@ =~= bytes@);
                return Ok(same);
            }
            let count: u32 = if h.deleted_count < u32::MAX {
                h.deleted_count + 1
            } else {
                0
            };
            let mut out = slice_of(bytes.as_slice(), 0, 12);
            assert(out@ =~= bytes@.take(12));
            push_u32(&mut out, count);
            let reserved = slice_of(bytes.as_slice(), 16, HEADER_SIZE);
            push_all(&mut out, reserved.as_slice());
            set_bit(&mut bits, offset);
            push_all(&mut out, bits.as_slice());
            Ok(out)
        },
    }
}

/// True if `offset` is marked deleted in `bitmap`. Out-of-range offsets are
/// live, since the bitmap is sized to `row_group_size`.
pub fn is_deleted(bitmap: &[u8], offset: usize) -> (r: bool)
    ensures
        r == bit_set(bitmap@, offset as int),
{
    get_bit(bitmap, offset)
}

// ---- laws ----

/// The number of set bits among the first `n`.
pub open spec fn count_set(bits: Seq<u8>, n: int) -> int
    decreases n,
{
    if n <= 0 {
        0
    } else {
        count_set(bits, n - 1) + if bit_set(bits, n - 1) {
            1int
        } else {
            0
        }
    }
}

/// The number of set bits.
pub open spec fn deleted_rows(bits: Seq<u8>) -> int {
    count_set(bits, 8 * bits.len() as int)
}

proof fn lemma_count_with_bit(bits: Seq<u8>, i: int, n: int)
    requires
        0 <= i,
        i / 8 < bits.len(),
        !bit_set(bits, i),
        n >= 0,
    ensures
        count_set(with_bit(bits, i), n) == count_set(bits, n) + if i < n {
            1int
        } else {
            0
        },
        0 <= count_set(bits, n) <= n,
        i < n ==> count_set(bits, n) < n,
    decreases n,
{
    lemma_with_bit(bits, i);
    if n > 0 {
        lemma_count_with_bit(bits, i, n - 1);
    }
}

/// A file image reads back as the count and the bitmap it was made of.
pub proof fn lemma_file_image_loads(count: int, bits: Seq<u8>, path: Seq<char>)
    requires
        0 <= count <= u32::MAX,
    ensures
        load_of(Some(file_image(count, bits)), path) == Ok::<(Header, Seq<u8>), ErrorV>(
            (Header { format_version: FORMAT_VERSION, deleted_count: count as u32 }, bits),
        ),
{
    let file = file_image(count, bits);
    lemma_le32(FORMAT_VERSION as int);
    lemma_le32(count);
    assert(file.subrange(0, 8) =~= magic());
    assert(magic() == file.subrange(0, magic().len() as int));
    assert(file.subrange(8, 12) =~= le32(FORMAT_VERSION as int));
    assert(file.subrange(12, 16) =~= le32(count));
    assert(file.skip(24) =~= bits);
}

/// Deleting a row keeps the file's count equal to the number of set bits: what
/// comes out is the image of the bitmap with that bit set and the count one
/// higher, and no other row is affected.
pub proof fn law_mark_deleted(bits: Seq<u8>, offset: int, path: Seq<char>)
    requires
        0 <= offset,
        offset / 8 < bits.len(),
        !bit_set(bits, offset),
        deleted_rows(bits) < u32::MAX,
    ensures
        ({
            let before = file_image(deleted_rows(bits), bits);
            let after = with_bit(bits, offset);
            &&& marked(Some(before), path, offset) == Ok::<Seq<u8>, ErrorV>(
                file_image(deleted_rows(after), after),
            )
            &&& deleted_rows(after) == deleted_rows(bits) + 1
            &&& forall|j: int| #[trigger]
                bit_set(after, j) == (j == offset || bit_set(bits, j))
        }),
{
    let n = 8 * bits.len() as int;
    let count = count_set(bits, n);
    let after = with_bit(bits, offset);
    let before = file_image(count, bits);
    lemma_with_bit(bits, offset);
    lemma_count_with_bit(bits, offset, n);
    lemma_file_image_loads(count, bits, path);
    lemma_le32(FORMAT_VERSION as int);
    lemma_le32(count);
    assert(before.take(12) =~= magic() + le32(FORMAT_VERSION as int));
    assert(before.subrange(16, 24) =~= zero_bytes(8));
    assert(before.take(12) + le32(count + 1) + before.subrange(16, 24) + after =~= file_image(
        count + 1,
        after,
    ));
}

/// A new bitmap file has no deleted row and reads back as such.
pub proof fn law_empty_file_has_no_deletes(row_group_size: u32, path: Seq<char>)
    ensures
        ({
            let bits = zero_bytes(bytes_for_bits(row_group_size as int));
            &&& load_of(Some(file_image(0, bits)), path) == Ok::<(Header, Seq<u8>), ErrorV>(
                (Header { format_version: FORMAT_VERSION, deleted_count: 0 }, bits),
            )
            &&& forall|j: int| !#[trigger] bit_set(bits, j)
        }),
{
    let bits = zero_bytes(bytes_for_bits(row_group_size as int));
    lemma_file_image_loads(0, bits, path);
    lemma_zero_bits(bytes_for_bits(row_group_size as int));
}

} // verus!
