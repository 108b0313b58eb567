//! Table schemas and the rules that names must follow.

use vstd::prelude::*;
use vstd::string::*;
use vstd::utf8::*;

use crate::error::{Error, ErrorV};
use crate::steps::first_failure;
use crate::text::{
    chars_of, is_letter, is_word, join2, join3, join4, join5, letter, lower_text,
    same_ignoring_case, word_char,
};

verus! {

/// Longest name accepted, in bytes.
pub const MAX_IDENT_LEN: usize = 64;

#[derive(Debug, Clone, Copy, PartialEq, Eq, Structural)]
pub enum ColumnType {
    Int,
    Text,
}

/// The SQL name of a column type.
pub open spec fn type_text(ty: ColumnType) -> Seq<char> {
    match ty {
        ColumnType::Int => "INT"@,
        ColumnType::Text => "TEXT"@,
    }
}

impl ColumnType {
    pub fn as_str(&self) -> (s: &'static str)
        ensures
            s@ == type_text(*self),
    {
        match self {
            Self::Int => "INT",
            Self::Text => "TEXT",
        }
    }
}

#[derive(Debug, PartialEq, Eq)]
pub struct Column {
    pub name: String,
    pub ty: ColumnType,
    pub nullable: bool,
}

/// The view of a [`Column`].
pub struct ColumnV {
    pub name: Seq<char>,
    pub ty: ColumnType,
    pub nullable: bool,
}

impl View for Column {
    type V = ColumnV;

    open spec fn view(&self) -> ColumnV {
        ColumnV { name: self.name@, ty: self.ty, nullable: self.nullable }
    }
}

impl Clone for Column {
    fn clone(&self) -> (r: Self)
        ensures
            r@ == self@,
    {
        Column { name: self.name.clone(), ty: self.ty, nullable: self.nullable }
    }
}

#[derive(Debug, PartialEq, Eq)]
pub struct Schema {
    pub columns: Vec<Column>,
}

/// The views of a sequence of columns.
pub open spec fn columns_view(columns: Seq<Column>) -> Seq<ColumnV> {
    Seq::new(columns.len(), |i: int| columns[i]@)
}

impl View for Schema {
    type V = Seq<ColumnV>;

    open spec fn view(&self) -> Seq<ColumnV> {
        columns_view(self.columns@)
    }
}

impl Clone for Schema {
    fn clone(&self) -> (r: Self)
        ensures
            r@ == self@,
    {
        let mut columns: Vec<Column> = Vec::new();
        let mut i: usize = 0;
        while i < self.columns.len()
            invariant
                i <= self.columns@.len(),
                columns@.len() == i,
                forall|j: int| 0 <= j < i ==> columns@[j]@ == self.columns@[j]@,
            decreases self.columns.len() - i,
        {
            columns.push(self.columns[i].clone());
            i = i + 1;
        }
        let r = Schema { columns };
        assert(r@ =~= self@);
        r
    }
}

/// The first character of `s` from position `i` on that may not stand in a
/// name.
pub open spec fn bad_char(s: Seq<char>, i: int) -> Option<char>
    decreases s.len() - i,
{
    if i >= s.len() {
        None
    } else if !is_word(s[i]) {
        Some(s[i])
    } else {
        bad_char(s, i + 1)
    }
}

/// What is wrong with `s` as the name of a `kind`, if anything: a name is one
/// to 64 bytes long, starts with a letter or an underscore, and goes on with
/// letters, digits and underscores.
pub open spec fn identifier_error(kind: Seq<char>, s: Seq<char>) -> Option<ErrorV> {
    if s.len() == 0 {
        Some(ErrorV::InvalidSchema(kind + " cannot be empty"@))
    } else if encode_utf8(s).len() > MAX_IDENT_LEN {
        Some(ErrorV::InvalidSchema(kind + " '"@ + s + "' exceeds 64 characters"@))
    } else if !is_letter(s[0]) && s[0] != '_' {
        Some(ErrorV::InvalidSchema(kind + " '"@ + s + "' must start with a letter or underscore"@))
    } else {
        match bad_char(s, 1) {
            Some(c) => Some(
                ErrorV::InvalidSchema(
                    kind + " '"@ + s + "' contains invalid character '"@ + seq![c].push('\''),
                ),
            ),
            None => None,
        }
    }
}

/// Whether some column before `i` has the same name as column `i`, up to the
/// case of letters.
pub open spec fn repeats_earlier(columns: Seq<ColumnV>, i: int) -> bool {
    exists|j: int|
        0 <= j < i && lower_text(#[trigger] columns[j].name) == lower_text(columns[i].name)
}

/// What is wrong with column `i`, given the columns before it.
pub open spec fn column_error(columns: Seq<ColumnV>) -> spec_fn(int) -> Option<ErrorV> {
    |i: int|
        match identifier_error("column name"@, columns[i].name) {
            Some(e) => Some(e),
            None => if repeats_earlier(columns, i) {
                Some(
                    ErrorV::InvalidSchema("duplicate column name '"@ + columns[i].name + "'"@),
                )
            } else {
                None
            },
        }
}

/// The first rule that a table definition breaks, if it breaks any.
pub open spec fn schema_error(table: Seq<char>, columns: Seq<ColumnV>) -> Option<ErrorV> {
    match identifier_error("table name"@, table) {
        Some(e) => Some(e),
        None => if columns.len() == 0 {
            Some(ErrorV::InvalidSchema("schema must declare at least one column"@))
        } else {
            first_failure(0, columns.len() as int, column_error(columns))
        },
    }
}

/// Whether a check passed, and otherwise which error it gave.
pub open spec fn checked(r: Result<(), Error>) -> Option<ErrorV> {
    match r {
        Ok(_) => None,
        Err(e) => Some(e@),
    }
}

impl Schema {
    /// Check the table's name and its columns: every name must be a valid
    /// identifier, there must be a column, and no two columns may share a name
    /// in any case.
    #[verifier::loop_isolation(false)]
    pub fn validate(&self, table_name: &str) -> (r: Result<(), Error>)
        ensures
            checked(r) == schema_error(table_name@, self@),
    {
        match validate_identifier("table name", table_name) {
            Err(e) => {
                return Err(e);
            },
            Ok(_) => {},
        }
        if self.columns.len() == 0 {
            return Err(Error::invalid_schema("schema must declare at least one column"));
        }
        let ghost rule = column_error(self@);
        let mut i: usize = 0;
        while i < self.columns.len()
            invariant
                i <= self.columns@.len(),
                rule == column_error(self@),
                first_failure(0, self@.len() as int, rule) == first_failure(
                    i as int,
                    self@.len() as int,
                    rule,
                ),
            decreases self.columns.len() - i,
        {
            let name = self.columns[i].name.as_str();
            assert(name@ == self@[i as int].name);
            match validate_identifier("column name", name) {
                Err(e) => {
                    return Err(e);
                },
                Ok(_) => {},
            }
            let mut j: usize = 0;
            while j < i
                invariant
                    j <= i < self.columns@.len(),
                    name@ == self@[i as int].name,
                    rule == column_error(self@),
                    identifier_error("column name"@, name@) is None,
                    first_failure(0, self@.len() as int, rule) == first_failure(
                        i as int,
                        self@.len() as int,
                        rule,
                    ),
                    forall|k: int|
                        0 <= k < j ==> lower_text(#[trigger] self@[k].name) != lower_text(name@),
                decreases i - j,
            {
                if same_ignoring_case(self.columns[j].name.as_str(), name) {
                    assert(lower_text(self@[j as int].name) == lower_text(name@));
                    assert(repeats_earlier(self@, i as int));
                    return Err(
                        Error::invalid_schema(
                            join3("duplicate column name '", name, "'").as_str(),
                        ),
                    );
                }
                assert(self@[j as int].name == self.columns@[j as int].name@);
                j = j + 1;
            }
            assert(!repeats_earlier(self@, i as int));
            i = i + 1;
        }
        Ok(())
    }
}

/// Check that `s` can be the name of a `kind`.
pub fn validate_identifier(kind: &str, s: &str) -> (r: Result<(), Error>)
    ensures
        checked(r) == identifier_error(kind@, s@),
{
    let chars = chars_of(s);
    if chars.len() == 0 {
        return Err(Error::invalid_schema(join2(kind, " cannot be empty").as_str()));
    }
    if s.as_bytes().len() > MAX_IDENT_LEN {
        return Err(
            Error::invalid_schema(join4(kind, " '", s, "' exceeds 64 characters").as_str()),
        );
    }
    let first = chars[0];
    if !(letter(first) || first == '_') {
        return Err(
            Error::invalid_schema(
                join4(kind, " '", s, "' must start with a letter or underscore").as_str(),
            ),
        );
    }
    let mut i: usize = 1;
    while i < chars.len()
        invariant
            chars@ == s@,
            1 <= i <= chars@.len(),
            encode_utf8(s@).len() <= MAX_IDENT_LEN,
            is_letter(s@[0]) || s@[0] == '_',
            bad_char(s@, 1) == bad_char(s@, i as int),
        decreases chars.len() - i,
    {
        let c = chars[i];
        if !word_char(c) {
            let mut quoted = String::new();
            quoted.push(c);
            quoted.push('\'');
            let message = join5(kind, " '", s, "' contains invalid character '", quoted.as_str());
            assert(quoted@ =~= seq![c].push('\''));
            return Err(Error::invalid_schema(message.as_str()));
        }
        i = i + 1;
    }
    Ok(())
}

} // verus!
