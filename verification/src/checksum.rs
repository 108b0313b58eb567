//! Single-file integrity wrapper for the metadata files.
//!
//! [`wrap`] prepends a `# crc32 = 0xXXXXXXXX\n` line to the body. [`verify`]
//! strips and validates that line and returns the body. The checksum is
//! CRC32-IEEE; it guards against bit rot and accidental changes, not against
//! an adversary.

use vstd::prelude::*;
use vstd::slice::*;
use vstd::string::*;
use vstd::utf8::*;

use crate::bytes::push_all;
use crate::error::{Error, ErrorV};
use crate::text::{
    chars_of, digit_char, digit_value, digits_value, from_utf8, hex8, hex_digits, hex_value, join3,
    join4, parse_hex, string_of, unsigned_value,
};

verus! {

pub const POLYNOMIAL: u32 = 0xEDB8_8320;

/// What stands in front of the checksum on its line.
pub const PREFIX: &'static str = "# crc32 = 0x";

/// One bit's worth of the CRC.
pub open spec fn crc_step(crc: u32) -> u32 {
    if crc & 1 != 0 {
        (crc >> 1) ^ POLYNOMIAL
    } else {
        crc >> 1
    }
}

/// `n` steps of the CRC.
pub open spec fn crc_steps(crc: u32, n: nat) -> u32
    decreases n,
{
    if n == 0 {
        crc
    } else {
        crc_step(crc_steps(crc, (n - 1) as nat))
    }
}

/// The CRC register after one more byte.
pub open spec fn crc_byte(crc: u32, b: u8) -> u32 {
    crc_steps(crc ^ (b as u32), 8)
}

/// The CRC register after `data`.
pub open spec fn crc_register(data: Seq<u8>) -> u32
    decreases data.len(),
{
    if data.len() == 0 {
        0xFFFF_FFFF
    } else {
        crc_byte(crc_register(data.drop_last()), data.last())
    }
}

/// The CRC32-IEEE checksum of `data`.
pub open spec fn crc32_of(data: Seq<u8>) -> u32 {
    crc_register(data) ^ 0xFFFF_FFFF
}

/// CRC32-IEEE checksum of the input bytes.
pub fn crc32(data: &[u8]) -> (r: u32)
    ensures
        r == crc32_of(data@),
{
    let mut crc: u32 = 0xFFFF_FFFF;
    let mut i: usize = 0;
    assert(data@.take(0) =~= Seq::<u8>::empty());
    while i < data.len()
        invariant
            i <= data@.len(),
            crc == crc_register(data@.take(i as int)),
        decreases data.len() - i,
    {
        assert(data@.take(i + 1).drop_last() =~= data@.take(i as int));
        let ghost before = crc;
        crc = crc ^ (data[i] as u32);
        let mut k: u32 = 0;
        while k < 8
            invariant
                k <= 8,
                i < data@.len(),
                crc == crc_steps(before ^ (data@[i as int] as u32), k as nat),
            decreases 8 - k,
        {
            crc = if crc & 1 != 0 {
                (crc >> 1) ^ POLYNOMIAL
            } else {
                crc >> 1
            };
            k = k + 1;
        }
        i = i + 1;
    }
    assert(data@.take(i as int) =~= data@);
    crc ^ 0xFFFF_FFFF
}

/// The checksum line of a body, without its newline.
pub open spec fn checksum_line(body: Seq<u8>) -> Seq<char> {
    PREFIX@ + hex_digits(crc32_of(body) as nat, 8)
}

/// A body with its checksum line in front.
pub open spec fn wrapped(body: Seq<u8>) -> Seq<u8> {
    encode_utf8(checksum_line(body) + "\n"@) + body
}

/// Wrap `body` with a leading `# crc32 = 0xXXXXXXXX\n` line. The returned bytes
/// are what gets written to disk.
pub fn wrap(body: &[u8]) -> (out: Vec<u8>)
    ensures
        out@ == wrapped(body@),
{
    let crc: u32 = crc32(body);
    let digits = hex8(crc);
    let header = join3(PREFIX, digits.as_str(), "\n");
    let mut out: Vec<u8> = Vec::new();
    push_all(&mut out, header.as_str().as_bytes());
    push_all(&mut out, body);
    out
}

/// The first newline at or behind `i`, or the end.
pub open spec fn newline_from(bytes: Seq<u8>, i: int) -> int
    decreases bytes.len() - i,
{
    if i >= bytes.len() || bytes[i] == 10 {
        i
    } else {
        newline_from(bytes, i + 1)
    }
}

/// What checking a wrapped file gives: its body, or what is wrong with its
/// checksum line.
pub open spec fn verified(bytes: Seq<u8>) -> Result<Seq<u8>, ErrorV> {
    let nl = newline_from(bytes, 0);
    let head = bytes.take(nl);
    let line = decode_utf8(head);
    let hex = line.skip(PREFIX@.len() as int);
    let body = bytes.skip(nl + 1);
    if nl >= bytes.len() {
        Err(ErrorV::ChecksumMismatch("checksum line missing (no newline found)"@))
    } else if !valid_utf8(head) {
        Err(ErrorV::ChecksumMismatch("checksum line is not valid UTF-8"@))
    } else if !PREFIX@.is_prefix_of(line) {
        Err(
            ErrorV::ChecksumMismatch("checksum line missing or malformed: '"@ + line + "'"@),
        )
    } else {
        match hex_value(hex) {
            None => Err(
                ErrorV::ChecksumMismatch("checksum value '"@ + hex + "' is not hex"@),
            ),
            Some(stored) => if stored != crc32_of(body) {
                Err(
                    ErrorV::ChecksumMismatch(
                        "checksum mismatch: stored 0x"@ + hex_digits(stored as nat, 8)
                            + ", computed 0x"@ + hex_digits(crc32_of(body) as nat, 8),
                    ),
                )
            } else {
                Ok(body)
            },
        }
    }
}

/// Whether `chars` starts with `prefix`.
fn has_prefix(chars: &Vec<char>, prefix: &Vec<char>) -> (r: bool)
    ensures
        r == prefix@.is_prefix_of(chars@),
{
    if prefix.len() > chars.len() {
        return false;
    }
    let mut i: usize = 0;
    while i < prefix.len()
        invariant
            i <= prefix@.len() <= chars@.len(),
            forall|j: int| 0 <= j < i ==> chars@[j] == prefix@[j],
        decreases prefix.len() - i,
    {
        if chars[i] != prefix[i] {
            assert(chars@.subrange(0, prefix@.len() as int)[i as int] != prefix@[i as int]);
            return false;
        }
        i = i + 1;
    }
    assert(prefix@ =~= chars@.subrange(0, prefix@.len() as int));
    true
}

/// Validate the leading checksum line and return the body. Errors if the line
/// is missing, malformed, or the computed CRC doesn't match the stored value.
#[verifier::loop_isolation(false)]
pub fn verify(bytes: &[u8]) -> (r: Result<&[u8], Error>)
    ensures
        match r {
            Ok(body) => verified(bytes@) == Ok::<_, ErrorV>(body@),
            Err(e) => verified(bytes@) == Err::<Seq<u8>, ErrorV>(e@),
        },
{
    let mut nl: usize = 0;
    while nl < bytes.len() && bytes[nl] != 10
        invariant
            nl <= bytes@.len(),
            newline_from(bytes@, 0) == newline_from(bytes@, nl as int),
        decreases bytes.len() - nl,
    {
        nl = nl + 1;
    }
    if nl == bytes.len() {
        return Err(Error::checksum_mismatch("checksum line missing (no newline found)"));
    }
    let head = slice_subrange(bytes, 0, nl);
    assert(head@ =~= bytes@.take(nl as int));
    let line = match from_utf8(head) {
        None => {
            return Err(Error::checksum_mismatch("checksum line is not valid UTF-8"));
        },
        Some(line) => line,
    };
    let chars = chars_of(line.as_str());
    let prefix = chars_of(PREFIX);
    if !has_prefix(&chars, &prefix) {
        let message = join3("checksum line missing or malformed: '", line.as_str(), "'");
        return Err(Error::checksum_mismatch(message.as_str()));
    }
    let hex = string_of(&chars, prefix.len(), chars.len());
    assert(hex@ =~= line@.skip(PREFIX@.len() as int));
    let stored: u32 = match parse_hex(hex.as_str()) {
        None => {
            let message = join3("checksum value '", hex.as_str(), "' is not hex");
            return Err(Error::checksum_mismatch(message.as_str()));
        },
        Some(n) => n,
    };
    let body = slice_subrange(bytes, nl + 1, bytes.len());
    assert(body@ =~= bytes@.skip(nl + 1));
    let computed: u32 = crc32(body);
    if stored != computed {
        let left = hex8(stored);
        let right = hex8(computed);
        let message = join4(
            "checksum mismatch: stored 0x",
            left.as_str(),
            ", computed 0x",
            right.as_str(),
        );
        return Err(Error::checksum_mismatch(message.as_str()));
    }
    Ok(body)
}

// ---- laws ----

/// A digit character is a digit of its own value, ASCII, and no newline.
proof fn lemma_digit_char(d: int)
    requires
        0 <= d < 16,
    ensures
        digit_value(digit_char(d), 16) == Some(d),
        digit_char(d) <= '\u{7f}',
        digit_char(d) != '\n',
        digit_char(d) != '+',
{
}

/// No character is below NUL.
proof fn lemma_char_floor(c: char)
    ensures
        '\0' <= c,
{
}

/// Hexadecimal digits read back as the number, and are plain ASCII.
proof fn lemma_hex_digits(n: nat, width: nat)
    ensures
        hex_digits(n, width).len() == width,
        forall|i: int|
            0 <= i < width ==> #[trigger] hex_digits(n, width)[i] <= '\u{7f}' && hex_digits(
                n,
                width,
            )[i] != '\n' && hex_digits(n, width)[i] != '+',
        n < vstd::arithmetic::power::pow(16, width) ==> digits_value(hex_digits(n, width), 16)
            == Some(n as int),
    decreases width,
{
    reveal(vstd::arithmetic::power::pow);
    if width > 0 {
        lemma_hex_digits(n / 16, (width - 1) as nat);
        lemma_digit_char((n % 16) as int);
        let s = hex_digits(n, width);
        assert(s.drop_last() =~= hex_digits(n / 16, (width - 1) as nat));
        assert(s.last() == digit_char((n % 16) as int));
        assert forall|i: int| 0 <= i < width implies #[trigger] s[i] <= '\u{7f}' && s[i] != '\n'
            && s[i] != '+' by {
            if i < width - 1 {
                assert(s[i] == s.drop_last()[i]);
            }
        }
    }
}

/// The checksum line of any body is plain ASCII without a newline, starts with
/// the prefix, and its tail reads back as the checksum.
proof fn lemma_checksum_line(body: Seq<u8>)
    ensures
        ({
            let line = checksum_line(body);
            &&& is_ascii_chars(line)
            &&& forall|i: int| 0 <= i < line.len() ==> line[i] != '\n'
            &&& PREFIX@.is_prefix_of(line)
            &&& hex_value(line.skip(PREFIX@.len() as int)) == Some(crc32_of(body))
        }),
{
    reveal_strlit("# crc32 = 0x");
    let n = crc32_of(body) as nat;
    let digits = hex_digits(n, 8);
    let line = checksum_line(body);
    assert(vstd::arithmetic::power::pow(16, 8) == 0x1_0000_0000) by {
        reveal(vstd::arithmetic::power::pow);
        reveal_with_fuel(vstd::arithmetic::power::pow, 9);
    }
    lemma_hex_digits(n, 8);
    assert(line.skip(PREFIX@.len() as int) =~= digits);
    assert(line.subrange(0, PREFIX@.len() as int) =~= PREFIX@);
    assert(digits[0] != '+');
    assert forall|i: int| 0 <= i < line.len() implies #[trigger] line[i] <= '\u{7f}' && line[i]
        != '\n' by {
        if i >= 12 {
            assert(line[i] == digits[i - 12]);
        }
    }
    assert forall|i: int| 0 <= i < line.len() implies '\0' <= #[trigger] line[i] <= '\u{7f}' by {
        lemma_char_floor(line[i]);
    }
    assert(is_ascii_chars(line));
    assert(PREFIX@.is_prefix_of(line));
    assert(unsigned_value(digits, 16) == Some(n as int));
}

proof fn lemma_newline_found(bytes: Seq<u8>, at: int, i: int)
    requires
        0 <= i <= at < bytes.len(),
        bytes[at] == 10,
        forall|j: int| 0 <= j < at ==> bytes[j] != 10,
    ensures
        newline_from(bytes, i) == at,
    decreases at - i,
{
    if i < at {
        lemma_newline_found(bytes, at, i + 1);
    }
}

/// What checking a file gives whose checksum line is that of `body` and whose
/// rest is `rest`: the rest, where it has the checksum of `body`.
pub proof fn lemma_verified(body: Seq<u8>, rest: Seq<u8>)
    ensures
        verified(encode_utf8(checksum_line(body) + "\n"@) + rest) == if crc32_of(rest) == crc32_of(
            body,
        ) {
            Ok::<Seq<u8>, ErrorV>(rest)
        } else {
            Err(
                ErrorV::ChecksumMismatch(
                    "checksum mismatch: stored 0x"@ + hex_digits(crc32_of(body) as nat, 8)
                        + ", computed 0x"@ + hex_digits(crc32_of(rest) as nat, 8),
                ),
            )
        },
{
    let line = checksum_line(body);
    lemma_checksum_line(body);
    reveal_strlit("\n");
    let full = line + "\n"@;
    assert(is_ascii_chars(full));
    is_ascii_chars_encode_utf8(full);
    is_ascii_chars_encode_utf8(line);
    let bytes = encode_utf8(full) + rest;
    let n = line.len() as int;
    assert(encode_utf8(full).len() == n + 1);
    assert(bytes[n] == 10);
    assert forall|j: int| 0 <= j < n implies bytes[j] != 10 by {
        assert(bytes[j] == full[j] as u8);
        assert(full[j] == line[j]);
    }
    lemma_newline_found(bytes, n, 0);
    assert(bytes.take(n) =~= encode_utf8(line));
    assert(bytes.skip(n + 1) =~= rest);
    encode_utf8_valid_utf8(line);
    encode_utf8_decode_utf8(line);
}

/// What [`wrap`] wrote, [`verify`] accepts, and gives back the body.
pub proof fn law_verify_accepts_wrapped(body: Seq<u8>)
    ensures
        verified(wrapped(body)) == Ok::<Seq<u8>, ErrorV>(body),
{
    lemma_verified(body, body);
}

/// Where a wrapped body starts: behind the first newline of the file.
pub proof fn lemma_wrapped_parts(body: Seq<u8>)
    ensures
        ({
            let start = newline_from(wrapped(body), 0) + 1;
            &&& wrapped(body).take(start) == encode_utf8(checksum_line(body) + "\n"@)
            &&& wrapped(body).skip(start) == body
            &&& start + body.len() == wrapped(body).len()
        }),
{
    let line = checksum_line(body);
    lemma_checksum_line(body);
    reveal_strlit("\n");
    let full = line + "\n"@;
    assert(is_ascii_chars(full));
    is_ascii_chars_encode_utf8(full);
    let bytes = wrapped(body);
    let n = line.len() as int;
    assert(bytes[n] == 10);
    assert forall|j: int| 0 <= j < n implies bytes[j] != 10 by {
        assert(bytes[j] == full[j] as u8);
        assert(full[j] == line[j]);
    }
    lemma_newline_found(bytes, n, 0);
    assert(bytes.take(n + 1) =~= encode_utf8(full));
    assert(bytes.skip(n + 1) =~= body);
}

/// A wrapped body starts with the prefix of the checksum line, which ends before
/// the body does.
pub proof fn lemma_starts_with_prefix(body: Seq<u8>)
    ensures
        encode_utf8(PREFIX@).is_prefix_of(wrapped(body)),
        encode_utf8(PREFIX@).len() <= newline_from(wrapped(body), 0),
{
    let line = checksum_line(body);
    lemma_checksum_line(body);
    lemma_wrapped_parts(body);
    reveal_strlit("\n");
    let full = line + "\n"@;
    assert(is_ascii_chars(full));
    assert(PREFIX@ =~= line.subrange(0, PREFIX@.len() as int));
    assert forall|i: int| 0 <= i < PREFIX@.len() implies '\0' <= #[trigger] PREFIX@[i]
        <= '\u{7f}' by {
        assert(PREFIX@[i] == line[i]);
        lemma_char_floor(line[i]);
    }
    assert(is_ascii_chars(PREFIX@));
    is_ascii_chars_encode_utf8(full);
    is_ascii_chars_encode_utf8(PREFIX@);
    let n = PREFIX@.len() as int;
    assert(wrapped(body).subrange(0, n) =~= encode_utf8(PREFIX@)) by {
        assert forall|i: int| 0 <= i < n implies wrapped(body)[i] == encode_utf8(PREFIX@)[i] by {
            assert(full[i] == PREFIX@[i]);
        }
    }
}

/// A checked file is a line with the checksum of what follows, in eight
/// hexadecimal digits, and then what follows.
pub proof fn law_checked_file_layout(body: Seq<u8>)
    ensures
        wrapped(body) == encode_utf8(
            "# crc32 = 0x"@ + hex_digits(crc32_of(body) as nat, 8) + seq!['\n'],
        ) + body,
{
    reveal_strlit("\n");
    assert("\n"@ =~= seq!['\n']);
}

/// A file is accepted only where its first line ends, starts as it should and
/// holds the checksum of what follows.
pub proof fn law_only_checked_files_are_accepted(bytes: Seq<u8>, nl: int)
    requires
        0 <= nl < bytes.len(),
        bytes[nl] == 10,
        forall|i: int| 0 <= i < nl ==> #[trigger] bytes[i] != 10,
    ensures
        ({
            let head = bytes.take(nl);
            let line = decode_utf8(head);
            let body = bytes.skip(nl + 1);
            verified(bytes) is Ok <==> valid_utf8(head) && "# crc32 = 0x"@.is_prefix_of(line)
                && hex_value(line.skip(12)) == Some(crc32_of(body))
        }),
        verified(bytes) matches Ok(body) ==> body == bytes.skip(nl + 1),
        verified(bytes) matches Err(e) ==> e is ChecksumMismatch,
{
    lemma_first_newline(bytes, 0, nl);
    reveal_strlit("# crc32 = 0x");
}

/// A file without a line end is refused.
pub proof fn law_files_need_a_line(bytes: Seq<u8>)
    requires
        !bytes.contains(10u8),
    ensures
        verified(bytes) is Err,
{
    lemma_no_newline(bytes, 0);
}

/// Where the first newline is.
proof fn lemma_first_newline(bytes: Seq<u8>, i: int, nl: int)
    requires
        0 <= i <= nl < bytes.len(),
        bytes[nl] == 10,
        forall|k: int| i <= k < nl ==> #[trigger] bytes[k] != 10,
    ensures
        newline_from(bytes, i) == nl,
    decreases nl - i,
{
    if i < nl {
        assert(bytes[i] != 10);
        lemma_first_newline(bytes, i + 1, nl);
    }
}

/// Where there is no newline, none is found.
proof fn lemma_no_newline(bytes: Seq<u8>, i: int)
    requires
        0 <= i <= bytes.len(),
        !bytes.contains(10u8),
    ensures
        newline_from(bytes, i) == bytes.len(),
    decreases bytes.len() - i,
{
    if i < bytes.len() {
        assert(bytes[i] != 10) by {
            if bytes[i] == 10 {
                assert(bytes.contains(10u8));
            }
        }
        lemma_no_newline(bytes, i + 1);
    }
}

/// What is said of a file whose first line is no checksum line: that there is no
/// line, that it is not UTF-8, that it does not begin as one, that its value is
/// no number, or that the value is not that of the body.
pub proof fn law_refused_lines(bytes: Seq<u8>, nl: int)
    requires
        0 <= nl < bytes.len(),
        bytes[nl] == 10,
        forall|k: int| 0 <= k < nl ==> #[trigger] bytes[k] != 10,
    ensures
        ({
            let head = bytes.take(nl);
            let line = decode_utf8(head);
            let begins = "# crc32 = 0x"@.is_prefix_of(line);
            let value = line.skip(12);
            let body = bytes.skip(nl + 1);
            let no = |message: Seq<char>|
                verified(bytes) == Err::<Seq<u8>, ErrorV>(ErrorV::ChecksumMismatch(message));
            &&& !valid_utf8(head) ==> no("checksum line is not valid UTF-8"@)
            &&& valid_utf8(head) && !begins ==> no(
                "checksum line missing or malformed: '"@ + line + "'"@,
            )
            &&& valid_utf8(head) && begins && hex_value(value) is None ==> no(
                "checksum value '"@ + value + "' is not hex"@,
            )
            &&& valid_utf8(head) && begins && hex_value(value) is Some && hex_value(value)->0
                != crc32_of(body) ==> no(
                "checksum mismatch: stored 0x"@ + hex_digits(hex_value(value)->0 as nat, 8)
                    + ", computed 0x"@ + hex_digits(crc32_of(body) as nat, 8),
            )
        }),
        forall|short: Seq<u8>|
            !short.contains(10u8) ==> #[trigger] verified(short) == Err::<Seq<u8>, ErrorV>(
                ErrorV::ChecksumMismatch("checksum line missing (no newline found)"@),
            ),
{
    lemma_first_newline(bytes, 0, nl);
    reveal_strlit("# crc32 = 0x");
    assert forall|short: Seq<u8>| !short.contains(10u8) implies #[trigger] verified(short) == Err::<
        Seq<u8>,
        ErrorV,
    >(ErrorV::ChecksumMismatch("checksum line missing (no newline found)"@)) by {
        lemma_no_newline(short, 0);
    }
}

} // verus!
