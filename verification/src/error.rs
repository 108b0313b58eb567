//! The errors that the storage engine and the query layers report.

use vstd::prelude::*;
use vstd::string::*;

use crate::text::{join2, join3};

verus! {

/// `std::io::Error`, carried through as an opaque value.
#[verifier::external_type_specification]
#[verifier::external_body]
pub struct ExIoError(std::io::Error);

/// All errors surfaced by the storage engine and the query layers.
///
/// Each variant carries a human-readable message that [`Error::to_string`]
/// renders. The variants let callers match on the kind of failure instead of
/// scraping strings.
#[derive(Debug)]
pub enum Error {
    /// No table with this name exists.
    TableNotFound(String),
    /// A table with this name already exists.
    TableExists(String),
    /// A schema or identifier failed validation at definition time.
    InvalidSchema(String),
    /// A record or value did not match its column's type, nullability, or the
    /// table's arity.
    InvalidValue(String),
    /// A query is syntactically valid but logically ill-formed: it references a
    /// column that does not exist, supplies the wrong number of values, or
    /// otherwise fails binding against the catalog.
    InvalidQuery(String),
    /// A stored CRC did not match a file's contents.
    ChecksumMismatch(String),
    /// An on-disk file is structurally invalid: bad magic, truncation, an
    /// unsupported version or encoding, or an unparseable body.
    Corrupt(String),
    /// An I/O operation failed, with context describing what was attempted.
    Io { context: String, source: std::io::Error },
    /// Anything that does not fit the cases above.
    Other(String),
}

/// What an [`Error`] says: its kind and its text. The operating system's own
/// error inside `Io` is left out.
pub enum ErrorV {
    TableNotFound(Seq<char>),
    TableExists(Seq<char>),
    InvalidSchema(Seq<char>),
    InvalidValue(Seq<char>),
    InvalidQuery(Seq<char>),
    ChecksumMismatch(Seq<char>),
    Corrupt(Seq<char>),
    Io(Seq<char>),
    Other(Seq<char>),
}

impl View for Error {
    type V = ErrorV;

    open spec fn view(&self) -> ErrorV {
        match self {
            Error::TableNotFound(m) => ErrorV::TableNotFound(m@),
            Error::TableExists(m) => ErrorV::TableExists(m@),
            Error::InvalidSchema(m) => ErrorV::InvalidSchema(m@),
            Error::InvalidValue(m) => ErrorV::InvalidValue(m@),
            Error::InvalidQuery(m) => ErrorV::InvalidQuery(m@),
            Error::ChecksumMismatch(m) => ErrorV::ChecksumMismatch(m@),
            Error::Corrupt(m) => ErrorV::Corrupt(m@),
            Error::Io { context, source } => ErrorV::Io(context@),
            Error::Other(m) => ErrorV::Other(m@),
        }
    }
}

/// `m` with `ctx` and a colon in front.
pub open spec fn prefixed(ctx: Seq<char>, m: Seq<char>) -> Seq<char> {
    ctx + ": "@ + m
}

impl ErrorV {
    /// The error with `ctx` in front of its message. The two errors that carry
    /// a table's name keep it bare.
    pub open spec fn in_context(self, ctx: Seq<char>) -> ErrorV {
        match self {
            ErrorV::TableNotFound(m) => self,
            ErrorV::TableExists(m) => self,
            ErrorV::InvalidSchema(m) => ErrorV::InvalidSchema(prefixed(ctx, m)),
            ErrorV::InvalidValue(m) => ErrorV::InvalidValue(prefixed(ctx, m)),
            ErrorV::InvalidQuery(m) => ErrorV::InvalidQuery(prefixed(ctx, m)),
            ErrorV::ChecksumMismatch(m) => ErrorV::ChecksumMismatch(prefixed(ctx, m)),
            ErrorV::Corrupt(m) => ErrorV::Corrupt(prefixed(ctx, m)),
            ErrorV::Io(m) => ErrorV::Io(prefixed(ctx, m)),
            ErrorV::Other(m) => ErrorV::Other(prefixed(ctx, m)),
        }
    }

    /// The text shown for the error. For `Io` this is the part in front of the
    /// operating system's own message.
    pub open spec fn shown(self) -> Seq<char> {
        match self {
            ErrorV::TableNotFound(name) => "no such table '"@ + name + "'"@,
            ErrorV::TableExists(name) => "table '"@ + name + "' already exists"@,
            ErrorV::InvalidSchema(m) => "invalid schema: "@ + m,
            ErrorV::InvalidValue(m) => m,
            ErrorV::InvalidQuery(m) => m,
            ErrorV::ChecksumMismatch(m) => m,
            ErrorV::Corrupt(m) => m,
            ErrorV::Io(context) => context + ": "@,
            ErrorV::Other(m) => m,
        }
    }
}

/// The text that `std::io::Error` displays. It comes from the operating system
/// and nothing is claimed of it.
#[verifier::external_body]
fn io_error_text(e: &std::io::Error) -> (s: String)
{
    e.to_string()
}

/// An error of the kind `std::io::ErrorKind::NotFound`, for a file that is not
/// there. The value is opaque and nothing is claimed of it.
#[verifier::external_body]
fn not_found_error() -> (e: std::io::Error)
{
    std::io::Error::from(std::io::ErrorKind::NotFound)
}

/// An error of the kind `std::io::ErrorKind::UnexpectedEof`, for a file that
/// ends too early. The value is opaque and nothing is claimed of it.
#[verifier::external_body]
fn unexpected_eof_error() -> (e: std::io::Error)
{
    std::io::Error::from(std::io::ErrorKind::UnexpectedEof)
}

/// `std::io::Error::other` with a text: an error that displays it. The value is
/// opaque and nothing is claimed of it.
#[verifier::external_body]
fn other_io_error(text: &str) -> (e: std::io::Error)
{
    std::io::Error::other(text)
}

impl Error {
    pub fn no_such_table(name: &str) -> (e: Self)
        ensures
            e@ == ErrorV::TableNotFound(name@),
    {
        Error::TableNotFound(String::from_str(name))
    }

    pub fn table_exists(name: &str) -> (e: Self)
        ensures
            e@ == ErrorV::TableExists(name@),
    {
        Error::TableExists(String::from_str(name))
    }

    pub fn invalid_schema(msg: &str) -> (e: Self)
        ensures
            e@ == ErrorV::InvalidSchema(msg@),
    {
        Error::InvalidSchema(String::from_str(msg))
    }

    pub fn invalid_value(msg: &str) -> (e: Self)
        ensures
            e@ == ErrorV::InvalidValue(msg@),
    {
        Error::InvalidValue(String::from_str(msg))
    }

    pub fn invalid_query(msg: &str) -> (e: Self)
        ensures
            e@ == ErrorV::InvalidQuery(msg@),
    {
        Error::InvalidQuery(String::from_str(msg))
    }

    pub fn checksum_mismatch(msg: &str) -> (e: Self)
        ensures
            e@ == ErrorV::ChecksumMismatch(msg@),
    {
        Error::ChecksumMismatch(String::from_str(msg))
    }

    pub fn corrupt(msg: &str) -> (e: Self)
        ensures
            e@ == ErrorV::Corrupt(msg@),
    {
        Error::Corrupt(String::from_str(msg))
    }

    pub fn io(context: &str, source: std::io::Error) -> (e: Self)
        ensures
            e matches Error::Io { context: c, source: s } && c@ == context@ && s == source,
    {
        Error::Io { context: String::from_str(context), source }
    }

    /// The I/O error of a file that is not there.
    pub fn missing_file(context: &str) -> (e: Self)
        ensures
            e@ == ErrorV::Io(context@),
    {
        Error::io(context, not_found_error())
    }

    /// The I/O error of a file that ends too early.
    pub fn short_file(context: &str) -> (e: Self)
        ensures
            e@ == ErrorV::Io(context@),
    {
        Error::io(context, unexpected_eof_error())
    }

    /// The I/O error of a file that could not be read, with the cause that the
    /// operating system gave.
    pub fn unreadable_file(context: &str, cause: &str) -> (e: Self)
        ensures
            e@ == ErrorV::Io(context@),
    {
        Error::io(context, other_io_error(cause))
    }

    pub fn other(msg: &str) -> (e: Self)
        ensures
            e@ == ErrorV::Other(msg@),
    {
        Error::Other(String::from_str(msg))
    }

    /// Prefix the message with `ctx` (e.g. a filename) while keeping the
    /// variant, so wrapping a lower-layer error preserves its kind.
    pub fn context(self, ctx: &str) -> (e: Self)
        ensures
            e@ == self@.in_context(ctx@),
            self matches Error::Io { context: c, source: s } ==> e matches Error::Io {
                context: d,
                source: t,
            } && t == s,
    {
        match self {
            Error::InvalidSchema(m) => Error::InvalidSchema(join3(ctx, ": ", m.as_str())),
            Error::InvalidValue(m) => Error::InvalidValue(join3(ctx, ": ", m.as_str())),
            Error::InvalidQuery(m) => Error::InvalidQuery(join3(ctx, ": ", m.as_str())),
            Error::ChecksumMismatch(m) => Error::ChecksumMismatch(join3(ctx, ": ", m.as_str())),
            Error::Corrupt(m) => Error::Corrupt(join3(ctx, ": ", m.as_str())),
            Error::Other(m) => Error::Other(join3(ctx, ": ", m.as_str())),
            Error::Io { context, source } => Error::Io {
                context: join3(ctx, ": ", context.as_str()),
                source,
            },
            // Identity-bearing variants are never contextualized.
            Error::TableNotFound(name) => Error::TableNotFound(name),
            Error::TableExists(name) => Error::TableExists(name),
        }
    }

    /// The text shown to the user.
    pub fn to_string(&self) -> (s: String)
        ensures
            self@ is Io ==> self@.shown().is_prefix_of(s@),
            !(self@ is Io) ==> s@ == self@.shown(),
    {
        match self {
            Error::TableNotFound(name) => join3("no such table '", name.as_str(), "'"),
            Error::TableExists(name) => join3("table '", name.as_str(), "' already exists"),
            Error::InvalidSchema(m) => join2("invalid schema: ", m.as_str()),
            Error::InvalidValue(m) => m.clone(),
            Error::InvalidQuery(m) => m.clone(),
            Error::ChecksumMismatch(m) => m.clone(),
            Error::Corrupt(m) => m.clone(),
            Error::Io { context, source } => {
                let tail = io_error_text(source);
                let s = join3(context.as_str(), ": ", tail.as_str());
                assert(s@.take((context@ + ": "@).len() as int) =~= context@ + ": "@);
                s
            },
            Error::Other(m) => m.clone(),
        }
    }
}

impl From<std::io::Error> for Error {
    fn from(e: std::io::Error) -> (r: Self)
        ensures
            r matches Error::Io { context: c, source: s } && c@ == "io error"@ && s == e,
    {
        Error::io("io error", e)
    }
}

/// The contract of `from` above stands on the method itself: `context` is a
/// `String`, which a spec function can name only by its view.
impl vstd::std_specs::convert::FromSpecImpl<std::io::Error> for Error {
    open spec fn obeys_from_spec() -> bool {
        false
    }

    open spec fn from_spec(e: std::io::Error) -> Self {
        arbitrary()
    }
}

/// What a fallible function gave back, over views.
pub open spec fn outcome<T: View>(r: Result<T, Error>) -> Result<T::V, ErrorV> {
    match r {
        Ok(v) => Ok(v@),
        Err(e) => Err(e@),
    }
}

/// The text of an error: a table that is not there and one that is there already
/// are named, a bad schema is called so, and any other error is its message.
pub proof fn law_error_texts(m: Seq<char>)
    ensures
        ErrorV::TableNotFound(m).shown() == "no such table '"@ + m + "'"@,
        ErrorV::TableExists(m).shown() == "table '"@ + m + "' already exists"@,
        ErrorV::InvalidSchema(m).shown() == "invalid schema: "@ + m,
        ErrorV::InvalidValue(m).shown() == m,
        ErrorV::InvalidQuery(m).shown() == m,
        ErrorV::ChecksumMismatch(m).shown() == m,
        ErrorV::Corrupt(m).shown() == m,
        ErrorV::Other(m).shown() == m,
{
}

/// A context goes before the message, with a colon between, and leaves the kind
/// of the error as it is; a table's name takes no context.
pub proof fn law_context(m: Seq<char>, ctx: Seq<char>)
    ensures
        ErrorV::TableNotFound(m).in_context(ctx) == ErrorV::TableNotFound(m),
        ErrorV::TableExists(m).in_context(ctx) == ErrorV::TableExists(m),
        ErrorV::InvalidSchema(m).in_context(ctx) == ErrorV::InvalidSchema(ctx + ": "@ + m),
        ErrorV::InvalidValue(m).in_context(ctx) == ErrorV::InvalidValue(ctx + ": "@ + m),
        ErrorV::InvalidQuery(m).in_context(ctx) == ErrorV::InvalidQuery(ctx + ": "@ + m),
        ErrorV::ChecksumMismatch(m).in_context(ctx) == ErrorV::ChecksumMismatch(ctx + ": "@ + m),
        ErrorV::Corrupt(m).in_context(ctx) == ErrorV::Corrupt(ctx + ": "@ + m),
        ErrorV::Io(m).in_context(ctx) == ErrorV::Io(ctx + ": "@ + m),
        ErrorV::Other(m).in_context(ctx) == ErrorV::Other(ctx + ": "@ + m),
{
}

} // verus!
