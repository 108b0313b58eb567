//! The checks of a database, line by line.

use vstd::prelude::*;

use crate::catalog::metadata::{Status, StatusV, FORMAT_VERSION};
use crate::catalog::schema::{type_text, ColumnV, Schema};
use crate::error::{Error, ErrorV};
use crate::storage::model::StoreV;
use crate::storage::Storage;
use crate::text::{
    decimal, join, join2, join3, join4, join5, joined, texts, u32_text, usize_text,
};

verus! {

/// The lines that a check shows, and whether all was well.
#[derive(Debug)]
pub struct Report {
    pub lines: Vec<String>,
    pub healthy: bool,
}

/// The view of a [`Report`].
pub struct ReportV {
    pub lines: Seq<Seq<char>>,
    pub healthy: bool,
}

impl View for Report {
    type V = ReportV;

    open spec fn view(&self) -> ReportV {
        ReportV { lines: texts(self.lines@), healthy: self.healthy }
    }
}

// ---- the head ----

/// The lines in front of the checks.
pub open spec fn head_lines(version: Seq<char>, os: Seq<char>, arch: Seq<char>) -> Seq<Seq<char>> {
    seq![
        "balik-db doctor"@,
        "==============="@,
        "[ok] balik-db version: "@ + version,
        "[ok] supported format version: "@ + decimal(FORMAT_VERSION as int),
        "[ok] OS: "@ + os + " ("@ + arch + ")"@,
    ]
}

/// The lines in front of the checks: the versions and the platform.
pub fn head(version: &str, os: &str, arch: &str) -> (r: Vec<String>)
    ensures
        texts(r@) == head_lines(version@, os@, arch@),
{
    let format = u32_text(FORMAT_VERSION);
    let mut lines: Vec<String> = Vec::new();
    lines.push("balik-db doctor".to_string());
    lines.push("===============".to_string());
    lines.push(join2("[ok] balik-db version: ", version));
    lines.push(join2("[ok] supported format version: ", format.as_str()));
    lines.push(join5("[ok] OS: ", os, " (", arch, ")"));
    assert(texts(lines@) =~= head_lines(version@, os@, arch@));
    lines
}

// ---- the directory ----

/// The check of the directory at `path`.
pub open spec fn database_report(path: Seq<char>, exists: bool, status: StatusV) -> ReportV {
    if !exists {
        ReportV {
            lines: seq![
                "[!!] database not found at '"@ + path + "'"@,
                "     run `balik-cli init --db "@ + path + "` to create one"@,
            ],
            healthy: false,
        }
    } else {
        match status {
            StatusV::Missing => ReportV {
                lines: seq![
                    "[!!] '"@ + path
                        + "' exists but has no balik.meta — not an initialized balik database"@,
                ],
                healthy: false,
            },
            StatusV::Unreadable => ReportV {
                lines: seq!["[!!] balik.meta at '"@ + path + "' is corrupt or unreadable"@],
                healthy: false,
            },
            StatusV::WrongMagic => ReportV {
                lines: seq!["[!!] '"@ + path + "' is not a balik database"@],
                healthy: false,
            },
            StatusV::TooNew { found, supported } => ReportV {
                lines: seq![
                    "[!!] database at '"@ + path + "' uses format version "@ + decimal(
                        found as int,
                    ) + (", this binary supports "@ + decimal(supported as int)),
                ],
                healthy: false,
            },
            StatusV::Ready { format_version, created } => ReportV {
                lines: seq![
                    "[ok] database found at '"@ + path + "'"@,
                    "     format version: "@ + decimal(format_version as int) + ", created: "@
                        + created,
                ],
                healthy: true,
            },
        }
    }
}

/// A report of one line or two.
fn report(first: String, second: Option<String>, healthy: bool) -> (r: Report)
    ensures
        r@ == (ReportV {
            lines: match second {
                None => seq![first@],
                Some(s) => seq![first@, s@],
            },
            healthy,
        }),
{
    let mut lines: Vec<String> = Vec::new();
    lines.push(first);
    match second {
        None => {
            assert(texts(lines@) =~= seq![first@]);
        },
        Some(s) => {
            lines.push(s);
            assert(texts(lines@) =~= seq![first@, s@]);
        },
    }
    Report { lines, healthy }
}

/// Check the directory at `path`: `exists` says whether it is there, `status`
/// what its marker file says.
pub fn check_database(path: &str, exists: bool, status: &Status) -> (r: Report)
    ensures
        r@ == database_report(path@, exists, status@),
{
    if !exists {
        let first = join3("[!!] database not found at '", path, "'");
        let second = join3("     run `balik-cli init --db ", path, "` to create one");
        return report(first, Some(second), false);
    }
    match status {
        Status::Missing => report(
            join3(
                "[!!] '",
                path,
                "' exists but has no balik.meta — not an initialized balik database",
            ),
            None,
            false,
        ),
        Status::Unreadable => report(
            join3("[!!] balik.meta at '", path, "' is corrupt or unreadable"),
            None,
            false,
        ),
        Status::WrongMagic => report(
            join3("[!!] '", path, "' is not a balik database"),
            None,
            false,
        ),
        Status::TooNew { found, supported } => {
            let have = u32_text(*found);
            let want = u32_text(*supported);
            let tail = join2(", this binary supports ", want.as_str());
            report(
                join5(
                    "[!!] database at '",
                    path,
                    "' uses format version ",
                    have.as_str(),
                    tail.as_str(),
                ),
                None,
                false,
            )
        },
        Status::Ready { format_version, created } => {
            let version = u32_text(*format_version);
            let first = join3("[ok] database found at '", path, "'");
            let second = join4(
                "     format version: ",
                version.as_str(),
                ", created: ",
                created.as_str(),
            );
            report(first, Some(second), true)
        },
    }
}

// ---- the catalog ----

/// `line` is `head` with the text of `e` behind it. Of an I/O error the
/// operating system's own words, which come last, are left open.
pub open spec fn tells(line: Seq<char>, head: Seq<char>, e: ErrorV) -> bool {
    if e is Io {
        (head + e.shown()).is_prefix_of(line)
    } else {
        line == head + e.shown()
    }
}

/// `head` with the text of `e` behind it.
fn tell(head: &str, e: &Error) -> (r: String)
    ensures
        tells(r@, head@, e@),
{
    let shown = e.to_string();
    let r = join2(head, shown.as_str());
    proof {
        if e@ is Io {
            let front = head@ + e@.shown();
            assert(shown@.take(e@.shown().len() as int) =~= e@.shown());
            assert(r@.take(front.len() as int) =~= front);
        }
    }
    r
}

/// A column with its type.
pub open spec fn column_text(c: ColumnV) -> Seq<char> {
    c.name + " "@ + type_text(c.ty)
}

/// The columns with their types, comma-separated.
pub open spec fn columns_text(schema: Seq<ColumnV>) -> Seq<char> {
    joined(Seq::new(schema.len(), |i: int| column_text(schema[i])), ", "@)
}

/// The columns with their types, comma-separated.
fn render_columns(schema: &Schema) -> (r: String)
    ensures
        r@ == columns_text(schema@),
{
    let ghost columns = schema@;
    let mut parts: Vec<String> = Vec::new();
    let mut i: usize = 0;
    while i < schema.columns.len()
        invariant
            i <= schema.columns@.len(),
            columns == schema@,
            parts@.len() == i,
            forall|j: int| 0 <= j < i ==> (#[trigger] parts@[j])@ == column_text(columns[j]),
        decreases schema.columns.len() - i,
    {
        let c = &schema.columns[i];
        assert(columns[i as int] == c@);
        parts.push(join3(c.name.as_str(), " ", c.ty.as_str()));
        i = i + 1;
    }
    assert(texts(parts@) =~= Seq::new(columns.len(), |j: int| column_text(columns[j])));
    join(&parts, ", ")
}

/// The name of the `i`th table.
pub open spec fn table_name(store: StoreV, i: int) -> Seq<char> {
    store.catalog.tables[i].name
}

/// `line` is the check of the `i`th table.
pub open spec fn table_line(store: StoreV, i: int, line: Seq<char>) -> bool {
    let name = table_name(store, i);
    match store.described(name) {
        Ok(d) => line == "[ok] "@ + name + ": "@ + decimal(d.schema.len() as int) + (
        " columns ("@ + columns_text(d.schema) + ")"@),
        Err(e) => tells(line, "[!!] table '"@ + name + "': "@, e),
    }
}

/// Every table of the index can be described.
pub open spec fn all_described(store: StoreV, n: int) -> bool {
    forall|i: int| 0 <= i < n ==> store.described(#[trigger] table_name(store, i)) is Ok
}

/// `r` is the check of the tables of `store`: a line that counts them, then a
/// line for each, and all is well where each of them can be described.
pub open spec fn catalog_checked(store: StoreV, r: ReportV) -> bool {
    let n = store.catalog.tables.len() as int;
    &&& r.lines.len() == n + 1
    &&& r.lines[0] == "[ok] catalog: "@ + decimal(n) + " tables"@
    &&& forall|i: int| 0 <= i < n ==> table_line(store, i, #[trigger] r.lines[i + 1])
    &&& r.healthy == all_described(store, n)
}

/// Check every table of an open store.
#[verifier::loop_isolation(false)]
pub fn check_tables<S: Storage>(store: &S) -> (r: Report)
    ensures
        catalog_checked(store.store(), r@),
{
    let names = match store.list_tables() {
        Err(e) => {
            return report(tell("[!!] cannot list tables: ", &e), None, false);
        },
        Ok(n) => n,
    };
    let ghost all = store.store();
    let ghost n = all.catalog.tables.len() as int;
    assert(texts(names@).len() == names@.len());
    let count = usize_text(names.len());
    let mut lines: Vec<String> = Vec::new();
    lines.push(join3("[ok] catalog: ", count.as_str(), " tables"));
    let ghost first = lines@[0]@;
    let mut healthy = true;
    let mut i: usize = 0;
    while i < names.len()
        invariant
            i <= names@.len(),
            lines@.len() == i + 1,
            lines@[0]@ == first,
            forall|j: int| 0 <= j < i ==> table_line(all, j, (#[trigger] lines@[j + 1])@),
            healthy == all_described(all, i as int),
        decreases names.len() - i,
    {
        let name = names[i].as_str();
        assert(texts(names@)[i as int] == name@);
        assert(name@ == table_name(all, i as int));
        let ghost before = lines@;
        let ghost was = healthy;
        match store.describe_table(name) {
            Ok(d) => {
                let columns = render_columns(&d.schema);
                let width = usize_text(d.schema.columns.len());
                let tail = join3(" columns (", columns.as_str(), ")");
                lines.push(join5("[ok] ", name, ": ", width.as_str(), tail.as_str()));
                assert(d@.schema.len() == d.schema.columns@.len());
            },
            Err(e) => {
                let head = join3("[!!] table '", name, "': ");
                lines.push(tell(head.as_str(), &e));
                healthy = false;
            },
        }
        i = i + 1;
        proof {
            assert forall|j: int| 0 <= j < i implies table_line(
                all,
                j,
                (#[trigger] lines@[j + 1])@,
            ) by {
                if j < i - 1 {
                    assert(lines@[j + 1] == before[j + 1]);
                }
            }
            assert(all_described(all, i as int) == (was && all.described(
                table_name(all, i - 1),
            ) is Ok));
        }
    }
    let r = Report { lines, healthy };
    proof {
        assert forall|j: int| 0 <= j < n implies table_line(all, j, #[trigger] r@.lines[j + 1]) by {
            assert(r@.lines[j + 1] == lines@[j + 1]@);
        }
        assert(r@.lines[0] == lines@[0]@);
    }
    r
}

/// `r` is the check of a store that was opened, or failed to open.
pub open spec fn opening_checked(opened: Result<StoreV, ErrorV>, r: ReportV) -> bool {
    match opened {
        Err(e) => r.lines.len() == 1 && tells(r.lines[0], "[!!] cannot open catalog: "@, e)
            && !r.healthy,
        Ok(store) => catalog_checked(store, r),
    }
}

/// What opening a store gave, over views.
pub open spec fn opened_view<S: Storage>(opened: Result<S, Error>) -> Result<StoreV, ErrorV> {
    match opened {
        Ok(s) => Ok(s.store()),
        Err(e) => Err(e@),
    }
}

/// Check the catalog of a store that was opened, or failed to open.
pub fn check_catalog<S: Storage>(opened: &Result<S, Error>) -> (r: Report)
    ensures
        opening_checked(opened_view(*opened), r@),
{
    match opened {
        Err(e) => report(tell("[!!] cannot open catalog: ", e), None, false),
        Ok(store) => check_tables(store),
    }
}

// ---- all of it ----

/// `r` is the whole check: the head, the directory, and where that is well, the
/// catalog.
pub open spec fn diagnosed(
    head: Seq<Seq<char>>,
    database: ReportV,
    opened: Result<StoreV, ErrorV>,
    r: ReportV,
) -> bool {
    if database.healthy {
        exists|catalog: ReportV| #[trigger]
            opening_checked(opened, catalog) && r == (ReportV {
                lines: head + database.lines + catalog.lines,
                healthy: catalog.healthy,
            })
    } else {
        r == (ReportV { lines: head + database.lines, healthy: false })
    }
}

/// Append `more` to `lines`.
fn append_lines(lines: &mut Vec<String>, more: Vec<String>)
    ensures
        texts(final(lines)@) == texts(old(lines)@) + texts(more@),
{
    let ghost start = texts(lines@);
    let mut i: usize = 0;
    assert(texts(lines@) =~= start + texts(more@).take(0));
    while i < more.len()
        invariant
            i <= more@.len(),
            texts(lines@) == start + texts(more@).take(i as int),
        decreases more.len() - i,
    {
        let ghost before = texts(lines@);
        lines.push(more[i].clone());
        i = i + 1;
        assert(texts(lines@) =~= before.push(more@[i - 1]@));
        assert(texts(lines@) =~= start + texts(more@).take(i as int));
    }
    assert(texts(more@).take(i as int) =~= texts(more@));
}

/// Check the database at `path`. `opened` is what opening its store gave; it is
/// looked at only where the directory is well.
pub fn diagnose<S: Storage>(
    version: &str,
    os: &str,
    arch: &str,
    path: &str,
    exists: bool,
    status: &Status,
    opened: &Result<S, Error>,
) -> (r: Report)
    ensures
        diagnosed(
            head_lines(version@, os@, arch@),
            database_report(path@, exists, status@),
            opened_view(*opened),
            r@,
        ),
{
    let mut lines = head(version, os, arch);
    let database = check_database(path, exists, status);
    append_lines(&mut lines, database.lines);
    if !database.healthy {
        return Report { lines, healthy: false };
    }
    let catalog = check_catalog(opened);
    let ghost seen = catalog@;
    append_lines(&mut lines, catalog.lines);
    let r = Report { lines, healthy: catalog.healthy };
    assert(opening_checked(opened_view(*opened), seen));
    r
}

/// The error that ends a command whose checks failed.
pub open spec fn verdict_error(healthy: bool) -> Option<ErrorV> {
    if healthy {
        None
    } else {
        Some(ErrorV::Other("one or more diagnostic checks failed"@))
    }
}

/// The error that ends a command whose checks failed.
pub fn verdict(healthy: bool) -> (r: Result<(), Error>)
    ensures
        crate::catalog::schema::checked(r) == verdict_error(healthy),
{
    if healthy {
        Ok(())
    } else {
        Err(Error::other("one or more diagnostic checks failed"))
    }
}

} // verus!
