//! What the table index promises across its operations.

use vstd::prelude::*;
use vstd::utf8::*;

use crate::catalog::files::{metadata_text_of, CatalogFileV, EntryV};
use crate::catalog::tables::{
    drop_entry, find_entry, loaded, path_join, put_entry, sorted_entries, CatalogV, TABLES_DIR,
};
use crate::checksum::{crc32_of, newline_from, wrapped};
use crate::checksum_laws::{altered, law_altered_bytes_are_refused, mismatch};
use crate::error::ErrorV;
use crate::text::{digit_char, digits, lemma_text_order, text_less, zero_padded};

verus! {

/// The entries stand in the order of their names, and no name stands twice.
pub open spec fn ordered(tables: Seq<EntryV>) -> bool {
    forall|i: int, j: int|
        0 <= i < j < tables.len() ==> text_less((#[trigger] tables[i]).name, (#[trigger] tables[j]).name)
}

/// An index that its own operations have made: the entries are in order, every
/// identifier was handed out before the next one, no identifier stands twice,
/// and each table's directory is named after its identifier.
pub open spec fn numbered(c: CatalogV) -> bool {
    &&& ordered(c.tables)
    &&& forall|i: int|
        0 <= i < c.tables.len() ==> (#[trigger] c.tables[i]).id < c.next_table_id
            && c.tables[i].dir == dir_name(c.tables[i].id)
    &&& forall|i: int, j: int|
        0 <= i < j < c.tables.len() ==> (#[trigger] c.tables[i]).id != (#[trigger] c.tables[j]).id
}

/// The directory of the table with the identifier `id`, below the root.
pub open spec fn dir_name(id: u64) -> Seq<char> {
    TABLES_DIR@ + "/"@ + zero_padded(id as nat, 8)
}

// ---- the list of entries ----

/// What holds of an order holds of its tail.
proof fn lemma_ordered_tail(tables: Seq<EntryV>)
    requires
        ordered(tables),
        tables.len() > 0,
    ensures
        ordered(tables.skip(1)),
{
    let tail = tables.skip(1);
    assert forall|i: int, j: int| 0 <= i < j < tail.len() implies text_less(
        (#[trigger] tail[i]).name,
        (#[trigger] tail[j]).name,
    ) by {
        assert(tail[i] == tables[i + 1]);
        assert(tail[j] == tables[j + 1]);
    }
}

/// Finding an entry: it is there under that name, or no entry has that name.
proof fn lemma_find(tables: Seq<EntryV>, name: Seq<char>)
    ensures
        match find_entry(tables, name) {
            Some(e) => e.name == name && tables.contains(e),
            None => forall|i: int| 0 <= i < tables.len() ==> (#[trigger] tables[i]).name != name,
        },
    decreases tables.len(),
{
    if tables.len() > 0 && tables[0].name != name {
        let tail = tables.skip(1);
        lemma_find(tail, name);
        match find_entry(tail, name) {
            Some(e) => {
                let i = choose|i: int| 0 <= i < tail.len() && tail[i] == e;
                assert(tables[i + 1] == e);
            },
            None => {
                assert forall|i: int| 0 <= i < tables.len() implies (#[trigger] tables[i]).name
                    != name by {
                    if i > 0 {
                        assert(tail[i - 1] == tables[i]);
                    }
                }
            },
        }
    }
}

/// An entry before the first of an order is in none of its places.
proof fn lemma_before_all(tables: Seq<EntryV>, name: Seq<char>)
    requires
        ordered(tables),
        tables.len() > 0,
        text_less(name, tables[0].name),
    ensures
        forall|i: int| 0 <= i < tables.len() ==> text_less(name, (#[trigger] tables[i]).name),
{
    assert forall|i: int| 0 <= i < tables.len() implies text_less(
        name,
        (#[trigger] tables[i]).name,
    ) by {
        if i > 0 {
            assert(text_less(tables[0].name, tables[i].name));
            lemma_text_order(name, tables[0].name, tables[i].name);
        }
    }
}

/// Putting an entry keeps the order, and the entries are that one and those of
/// other names.
pub proof fn lemma_put(tables: Seq<EntryV>, entry: EntryV)
    requires
        ordered(tables),
    ensures
        ({
            let after = put_entry(tables, entry);
            &&& ordered(after)
            &&& after.contains(entry)
            &&& forall|i: int|
                0 <= i < after.len() ==> (#[trigger] after[i]) == entry || (tables.contains(
                    after[i],
                ) && after[i].name != entry.name)
        }),
    decreases tables.len(),
{
    let after = put_entry(tables, entry);
    let n = entry.name;
    if tables.len() == 0 {
        assert(after[0] == entry);
    } else {
        lemma_ordered_tail(tables);
        let tail = tables.skip(1);
        let first = tables[0];
        assert forall|i: int| 0 <= i < tail.len() implies text_less(
            first.name,
            (#[trigger] tail[i]).name,
        ) && tables.contains(tail[i]) by {
            assert(tail[i] == tables[i + 1]);
        }
        lemma_text_order(n, first.name, n);
        if first.name == n || text_less(n, first.name) {
            let rest = if first.name == n {
                tail
            } else {
                lemma_before_all(tables, n);
                tables
            };
            assert(after == seq![entry] + rest);
            assert(after[0] == entry);
            assert forall|i: int| 0 <= i < rest.len() implies text_less(
                n,
                (#[trigger] rest[i]).name,
            ) && tables.contains(rest[i]) && rest[i].name != n by {
                lemma_text_order(n, rest[i].name, n);
            }
            assert forall|i: int, j: int| 0 <= i < j < after.len() implies text_less(
                (#[trigger] after[i]).name,
                (#[trigger] after[j]).name,
            ) by {
                assert(after[j] == rest[j - 1]);
                if i > 0 {
                    assert(after[i] == rest[i - 1]);
                }
            }
            assert forall|i: int| 0 <= i < after.len() implies (#[trigger] after[i]) == entry || (
            tables.contains(after[i]) && after[i].name != n) by {
                if i > 0 {
                    assert(after[i] == rest[i - 1]);
                }
            }
        } else {
            let rest = put_entry(tail, entry);
            lemma_put(tail, entry);
            assert(after == seq![first] + rest);
            assert(text_less(first.name, n));
            let k = choose|k: int| 0 <= k < rest.len() && rest[k] == entry;
            assert(after[k + 1] == entry);
            assert forall|i: int| 0 <= i < rest.len() implies text_less(
                first.name,
                (#[trigger] rest[i]).name,
            ) by {
                if rest[i] != entry {
                    let m = choose|m: int| 0 <= m < tail.len() && tail[m] == rest[i];
                    assert(text_less(first.name, tail[m].name));
                }
            }
            assert forall|i: int, j: int| 0 <= i < j < after.len() implies text_less(
                (#[trigger] after[i]).name,
                (#[trigger] after[j]).name,
            ) by {
                assert(after[j] == rest[j - 1]);
                if i > 0 {
                    assert(after[i] == rest[i - 1]);
                }
            }
            assert forall|i: int| 0 <= i < after.len() implies (#[trigger] after[i]) == entry || (
            tables.contains(after[i]) && after[i].name != n) by {
                if i > 0 {
                    assert(after[i] == rest[i - 1]);
                    if rest[i - 1] != entry {
                        let m = choose|m: int| 0 <= m < tail.len() && tail[m] == rest[i - 1];
                        assert(tables.contains(tail[m]));
                    }
                } else {
                    assert(after[0] == first);
                    assert(tables.contains(tables[0]));
                }
            }
        }
    }
}

/// Finding an entry after one was put.
pub proof fn lemma_find_after_put(tables: Seq<EntryV>, entry: EntryV, name: Seq<char>)
    ensures
        find_entry(put_entry(tables, entry), name) == if name == entry.name {
            Some(entry)
        } else {
            find_entry(tables, name)
        },
    decreases tables.len(),
{
    let after = put_entry(tables, entry);
    if tables.len() == 0 {
        assert(after.skip(1) =~= tables);
    } else {
        if tables[0].name == entry.name {
            assert(after.skip(1) =~= tables.skip(1));
        } else if text_less(entry.name, tables[0].name) {
            assert(after.skip(1) =~= tables);
        } else {
            assert(after.skip(1) =~= put_entry(tables.skip(1), entry));
            lemma_find_after_put(tables.skip(1), entry, name);
        }
    }
}

/// Dropping an entry keeps the order and adds nothing.
proof fn lemma_drop(tables: Seq<EntryV>, name: Seq<char>)
    requires
        ordered(tables),
    ensures
        ({
            let after = drop_entry(tables, name);
            &&& ordered(after)
            &&& forall|i: int|
                0 <= i < after.len() ==> tables.contains(#[trigger] after[i])
        }),
    decreases tables.len(),
{
    let after = drop_entry(tables, name);
    if tables.len() > 0 {
        lemma_ordered_tail(tables);
        let tail = tables.skip(1);
        assert forall|i: int| 0 <= i < tail.len() implies tables.contains(
            #[trigger] tail[i],
        ) && text_less(tables[0].name, tail[i].name) by {
            assert(tail[i] == tables[i + 1]);
        }
        if tables[0].name != name {
            let rest = drop_entry(tail, name);
            lemma_drop(tail, name);
            assert(after == seq![tables[0]] + rest);
            assert(tables.contains(tables[0]));
            assert forall|i: int| 0 <= i < rest.len() implies text_less(
                tables[0].name,
                (#[trigger] rest[i]).name,
            ) && tables.contains(rest[i]) by {
                let m = choose|m: int| 0 <= m < tail.len() && tail[m] == rest[i];
                assert(tables.contains(tail[m]));
            }
            assert forall|i: int, j: int| 0 <= i < j < after.len() implies text_less(
                (#[trigger] after[i]).name,
                (#[trigger] after[j]).name,
            ) by {
                assert(after[j] == rest[j - 1]);
                if i > 0 {
                    assert(after[i] == rest[i - 1]);
                }
            }
            assert forall|i: int| 0 <= i < after.len() implies tables.contains(
                #[trigger] after[i],
            ) by {
                if i > 0 {
                    assert(after[i] == rest[i - 1]);
                }
            }
        }
    } else {
        assert(after == tables);
    }
}

/// Finding an entry after one was dropped.
proof fn lemma_find_after_drop(tables: Seq<EntryV>, dropped: Seq<char>, name: Seq<char>)
    requires
        ordered(tables),
    ensures
        find_entry(drop_entry(tables, dropped), name) == if name == dropped {
            None
        } else {
            find_entry(tables, name)
        },
    decreases tables.len(),
{
    if tables.len() > 0 {
        lemma_ordered_tail(tables);
        let tail = tables.skip(1);
        let after = drop_entry(tables, dropped);
        if tables[0].name == dropped {
            if name == dropped {
                lemma_find(tail, name);
                if let Some(e) = find_entry(tail, name) {
                    let i = choose|i: int| 0 <= i < tail.len() && tail[i] == e;
                    assert(tables[i + 1] == e);
                    assert(text_less(tables[0].name, tables[i + 1].name));
                    lemma_text_order(name, name, name);
                }
            }
        } else {
            assert(after.skip(1) =~= drop_entry(tail, dropped));
            lemma_find_after_drop(tail, dropped, name);
        }
    }
}

/// Putting the last of an order behind the others gives the order.
proof fn lemma_put_last(tables: Seq<EntryV>)
    requires
        ordered(tables),
        tables.len() > 0,
    ensures
        put_entry(tables.drop_last(), tables.last()) == tables,
    decreases tables.len(),
{
    let init = tables.drop_last();
    if init.len() == 0 {
        assert(tables =~= seq![tables.last()]);
    } else {
        let n = tables.len() - 1;
        assert(init[0] == tables[0]);
        assert(text_less(tables[0].name, tables[n].name));
        lemma_text_order(tables[0].name, tables[n].name, tables[0].name);
        lemma_ordered_tail(tables);
        let tail = tables.skip(1);
        lemma_put_last(tail);
        assert(init.skip(1) =~= tail.drop_last());
        assert(tail.last() == tables.last());
        assert(tables =~= seq![tables[0]] + tail);
    }
}

/// An order, sorted, is itself.
proof fn lemma_sorted_again(tables: Seq<EntryV>)
    requires
        ordered(tables),
    ensures
        sorted_entries(tables) == tables,
    decreases tables.len(),
{
    if tables.len() == 0 {
        assert(tables =~= Seq::<EntryV>::empty());
    } else {
        let init = tables.drop_last();
        assert forall|i: int, j: int| 0 <= i < j < init.len() implies text_less(
            (#[trigger] init[i]).name,
            (#[trigger] init[j]).name,
        ) by {
            assert(init[i] == tables[i]);
            assert(init[j] == tables[j]);
        }
        lemma_sorted_again(init);
        lemma_put_last(tables);
    }
}

/// Sorting gives an order.
proof fn lemma_sorted(tables: Seq<EntryV>)
    ensures
        ordered(sorted_entries(tables)),
    decreases tables.len(),
{
    if tables.len() > 0 {
        lemma_sorted(tables.drop_last());
        lemma_put(sorted_entries(tables.drop_last()), tables.last());
    }
}

// ---- directories ----

/// The number that a run of digits shows.
spec fn shown(s: Seq<char>) -> int
    decreases s.len(),
{
    if s.len() == 0 {
        0
    } else {
        shown(s.drop_last()) * 10 + (s.last() as int - '0' as int)
    }
}

/// The digits of a number show it.
proof fn lemma_digits_show(n: nat)
    ensures
        shown(digits(n)) == n,
    decreases n,
{
    let s = digits(n);
    reveal_with_fuel(shown, 2);
    if n < 10 {
        assert(s.drop_last() =~= Seq::<char>::empty());
        assert(s.last() == digit_char(n as int));
    } else {
        lemma_digits_show(n / 10);
        assert(s.drop_last() =~= digits(n / 10));
        assert(s.last() == digit_char((n % 10) as int));
    }
}

/// Zeros in front change nothing of what digits show.
proof fn lemma_zeros_show(zeros: nat, s: Seq<char>)
    ensures
        shown(Seq::new(zeros, |i: int| '0') + s) == shown(s),
    decreases s.len(), zeros,
{
    let front = Seq::new(zeros, |i: int| '0');
    let all = front + s;
    if s.len() > 0 {
        lemma_zeros_show(zeros, s.drop_last());
        assert(all.drop_last() =~= front + s.drop_last());
    } else if zeros > 0 {
        let fewer = Seq::new((zeros - 1) as nat, |i: int| '0');
        lemma_zeros_show((zeros - 1) as nat, s);
        assert(all.drop_last() =~= fewer + s);
        assert(all.last() == '0');
    } else {
        assert(all =~= s);
    }
}

/// Two tables with two identifiers have two directories.
pub proof fn law_directories_differ(root: Seq<char>, a: u64, b: u64)
    requires
        a != b,
    ensures
        dir_name(a) != dir_name(b),
        path_join(root, dir_name(a)) != path_join(root, dir_name(b)),
{
    let x = zero_padded(a as nat, 8);
    let y = zero_padded(b as nat, 8);
    lemma_digits_show(a as nat);
    lemma_digits_show(b as nat);
    lemma_zeros_show((8 - digits(a as nat).len()) as nat, digits(a as nat));
    lemma_zeros_show((8 - digits(b as nat).len()) as nat, digits(b as nat));
    assert(x != y);
    reveal_strlit("tables");
    reveal_strlit("/");
    let front = TABLES_DIR@ + "/"@;
    if dir_name(a) == dir_name(b) {
        assert(x =~= dir_name(a).skip(front.len() as int));
        assert(y =~= dir_name(b).skip(front.len() as int));
    }
    assert(dir_name(a)[0] == 't' && dir_name(b)[0] == 't');
    let base = if root.len() == 0 || root.last() == '/' {
        root
    } else {
        root + "/"@
    };
    assert(path_join(root, dir_name(a)) == base + dir_name(a));
    assert(path_join(root, dir_name(b)) == base + dir_name(b));
    if base + dir_name(a) == base + dir_name(b) {
        assert(dir_name(a) =~= (base + dir_name(a)).skip(base.len() as int));
        assert(dir_name(b) =~= (base + dir_name(b)).skip(base.len() as int));
    }
}

// ---- laws ----

/// A catalog that was opened lists its tables in the order of their names.
pub proof fn law_opened_catalog_is_ordered(root: Seq<char>, file: Option<CatalogFileV>)
    ensures
        loaded(root, file) matches Ok(c) ==> ordered(c.tables),
{
    if let Some(f) = file {
        lemma_sorted(f.tables);
    }
}

/// A catalog that was written is the one that is opened again.
pub proof fn law_written_catalog_opens_again(c: CatalogV)
    requires
        ordered(c.tables),
    ensures
        loaded(c.root, Some(c.file())) == Ok::<CatalogV, ErrorV>(c),
{
    lemma_sorted_again(c.tables);
}

/// A new table is found under its name with the next identifier, every other
/// name means what it meant before, and the list stays in order.
pub proof fn law_created_table_is_listed(c: CatalogV, name: Seq<char>, other: Seq<char>)
    requires
        ordered(c.tables),
    ensures
        ordered(c.with_table(name).tables),
        find_entry(c.with_table(name).tables, name) == Some(c.new_entry(name)),
        other != name ==> find_entry(c.with_table(name).tables, other) == find_entry(
            c.tables,
            other,
        ),
{
    lemma_put(c.tables, c.new_entry(name));
    lemma_find_after_put(c.tables, c.new_entry(name), name);
    lemma_find_after_put(c.tables, c.new_entry(name), other);
}

/// A dropped table is no longer found, every other name means what it meant
/// before, and the list stays in order.
pub proof fn law_dropped_table_is_gone(c: CatalogV, name: Seq<char>, other: Seq<char>)
    requires
        ordered(c.tables),
    ensures
        ordered(c.without_table(name).tables),
        c.without_table(name).dir_of(name) == Err::<Seq<char>, ErrorV>(
            ErrorV::TableNotFound(name),
        ),
        other != name ==> find_entry(c.without_table(name).tables, other) == find_entry(
            c.tables,
            other,
        ),
{
    lemma_drop(c.tables, name);
    lemma_find_after_drop(c.tables, name, name);
    lemma_find_after_drop(c.tables, name, other);
}

/// A table can be created again after it was dropped, and gets an identifier of
/// its own.
pub proof fn law_dropped_name_is_free(c: CatalogV, name: Seq<char>)
    requires
        numbered(c),
        c.dir_of(name) is Ok,
    ensures
        find_entry(c.without_table(name).tables, name) is None,
        c.without_table(name).new_entry(name).id != find_entry(c.tables, name)->Some_0.id,
{
    lemma_find_after_drop(c.tables, name, name);
    lemma_find(c.tables, name);
    let e = find_entry(c.tables, name)->Some_0;
    let i = choose|i: int| 0 <= i < c.tables.len() && c.tables[i] == e;
    assert(c.tables[i].id < c.next_table_id);
}

/// Dropping a table keeps a catalog numbered.
pub proof fn lemma_numbered_after_drop(c: CatalogV, name: Seq<char>)
    requires
        numbered(c),
    ensures
        numbered(c.without_table(name)),
{
    let gone = c.without_table(name);
    lemma_drop(c.tables, name);
    assert forall|i: int| 0 <= i < gone.tables.len() implies (#[trigger] gone.tables[i]).id
        < gone.next_table_id && gone.tables[i].dir == dir_name(gone.tables[i].id) by {
        let m = choose|m: int| 0 <= m < c.tables.len() && c.tables[m] == gone.tables[i];
        assert(c.tables[m].id < c.next_table_id);
    }
    assert forall|i: int, j: int| 0 <= i < j < gone.tables.len() implies (
    #[trigger] gone.tables[i]).id != (#[trigger] gone.tables[j]).id by {
        let a = gone.tables[i];
        let b = gone.tables[j];
        assert(text_less(a.name, b.name));
        lemma_text_order(a.name, b.name, a.name);
        let m = choose|m: int| 0 <= m < c.tables.len() && c.tables[m] == a;
        let k = choose|k: int| 0 <= k < c.tables.len() && c.tables[k] == b;
        assert(m != k);
        assert(c.tables[m].id != c.tables[k].id);
    }
}

/// Table identifiers are never handed out twice: a new catalog is numbered,
/// creating and dropping tables keep it so, and the next identifier never goes
/// back.
pub proof fn law_identifiers_are_never_reused(c: CatalogV, name: Seq<char>)
    requires
        numbered(c),
        c.next_table_id < u64::MAX,
    ensures
        find_entry(c.tables, name) is None ==> numbered(c.with_table(name)),
        numbered(c.without_table(name)),
        c.with_table(name).next_table_id > c.next_table_id,
        c.without_table(name).next_table_id == c.next_table_id,
        forall|i: int|
            0 <= i < c.tables.len() ==> (#[trigger] c.tables[i]).id != c.new_entry(name).id,
{
    let put = c.with_table(name);
    let entry = c.new_entry(name);
    lemma_put(c.tables, entry);
    if find_entry(c.tables, name) is None {
        assert forall|i: int| 0 <= i < put.tables.len() implies (#[trigger] put.tables[i]).id
            < put.next_table_id && put.tables[i].dir == dir_name(put.tables[i].id) by {
            if put.tables[i] != entry {
                let m = choose|m: int| 0 <= m < c.tables.len() && c.tables[m] == put.tables[i];
                assert(c.tables[m].id < c.next_table_id);
            }
        }
        assert forall|i: int, j: int| 0 <= i < j < put.tables.len() implies (
        #[trigger] put.tables[i]).id != (#[trigger] put.tables[j]).id by {
            let a = put.tables[i];
            let b = put.tables[j];
            assert(text_less(a.name, b.name));
            lemma_text_order(a.name, b.name, a.name);
            if a != entry {
                let m = choose|m: int| 0 <= m < c.tables.len() && c.tables[m] == a;
                assert(c.tables[m].id < c.next_table_id);
            }
            if b != entry {
                let k = choose|k: int| 0 <= k < c.tables.len() && c.tables[k] == b;
                assert(c.tables[k].id < c.next_table_id);
                if a != entry {
                    let m = choose|m: int| 0 <= m < c.tables.len() && c.tables[m] == a;
                    assert(m != k);
                    assert(c.tables[m].id != c.tables[k].id);
                }
            }
        }
    }
    lemma_numbered_after_drop(c, name);
}

/// A database without tables has a numbered catalog, and its first table gets
/// the identifier 1.
pub proof fn law_new_catalog_is_numbered(root: Seq<char>)
    ensures
        loaded(root, None) matches Ok(c) && numbered(c) && c.tables.len() == 0 && c.next_table_id
            == 1,
{
}

/// A catalog becomes another by one operation: a table is created, a table is
/// dropped, or the database is closed and opened again.
pub open spec fn becomes(before: CatalogV, after: CatalogV) -> bool {
    ||| created_in(before, after)
    ||| exists|name: Seq<char>|
        before.dir_of(name) is Ok && after == #[trigger] before.without_table(name)
    ||| loaded(before.root, Some(before.file())) == Ok::<CatalogV, ErrorV>(after)
}

/// A catalog becomes another by creating a table, which gets the identifier
/// `before.next_table_id`.
pub open spec fn created_in(before: CatalogV, after: CatalogV) -> bool {
    exists|name: Seq<char>|
        find_entry(before.tables, name) is None && before.next_table_id < u64::MAX && after
            == #[trigger] before.with_table(name)
}

/// Whatever was created and dropped since a database was new, reopening
/// included, the catalog is numbered, and opening its index file gives the same
/// catalog: the same list, the same entries and the same next identifier.
pub proof fn law_every_catalog_opens_again(root: Seq<char>, history: Seq<CatalogV>, j: int)
    requires
        0 <= j < history.len(),
        loaded(root, None) == Ok::<CatalogV, ErrorV>(history[0]),
        forall|k: int|
            0 <= k < history.len() - 1 ==> becomes(#[trigger] history[k], history[k + 1]),
    ensures
        numbered(history[j]),
        history[j].root == root,
        loaded(root, Some(history[j].file())) == Ok::<CatalogV, ErrorV>(history[j]),
    decreases j,
{
    if j > 0 {
        let before = history[j - 1];
        law_every_catalog_opens_again(root, history, j - 1);
        assert(becomes(before, history[j - 1 + 1]));
        if created_in(before, history[j]) {
            let name = choose|name: Seq<char>|
                find_entry(before.tables, name) is None && before.next_table_id < u64::MAX
                    && history[j] == #[trigger] before.with_table(name);
            law_identifiers_are_never_reused(before, name);
        } else if loaded(before.root, Some(before.file())) != Ok::<CatalogV, ErrorV>(history[j]) {
            let name = choose|name: Seq<char>|
                before.dir_of(name) is Ok && history[j] == #[trigger] before.without_table(name);
            lemma_numbered_after_drop(before, name);
        }
    }
    law_written_catalog_opens_again(history[j]);
}

/// The list of a catalog with a new table is the old list with the new entry in
/// one place, and that of one without a table is the old list without its entry.
pub proof fn law_lists_gain_and_lose_one(c: CatalogV, name: Seq<char>) -> (p: int)
    ensures
        find_entry(c.tables, name) is None ==> 0 <= p <= c.tables.len() && c.with_table(name).tables
            == c.tables.insert(p, c.new_entry(name)),
        find_entry(c.tables, name) is Some ==> 0 <= p < c.tables.len() && c.tables[p].name == name
            && c.without_table(name).tables == c.tables.remove(p),
{
    if find_entry(c.tables, name) is None {
        lemma_put_inserts(c.tables, c.new_entry(name))
    } else {
        lemma_drop_removes(c.tables, name)
    }
}

/// Where the entry of a new name is put.
proof fn lemma_put_inserts(tables: Seq<EntryV>, entry: EntryV) -> (p: int)
    requires
        find_entry(tables, entry.name) is None,
    ensures
        0 <= p <= tables.len(),
        put_entry(tables, entry) == tables.insert(p, entry),
    decreases tables.len(),
{
    if tables.len() == 0 || text_less(entry.name, tables[0].name) {
        assert(put_entry(tables, entry) =~= tables.insert(0, entry));
        0
    } else {
        let q = lemma_put_inserts(tables.skip(1), entry);
        assert(put_entry(tables, entry) =~= tables.insert(q + 1, entry));
        q + 1
    }
}

/// Where the entry of a name is taken out.
proof fn lemma_drop_removes(tables: Seq<EntryV>, name: Seq<char>) -> (p: int)
    requires
        find_entry(tables, name) is Some,
    ensures
        0 <= p < tables.len(),
        tables[p].name == name,
        drop_entry(tables, name) == tables.remove(p),
    decreases tables.len(),
{
    if tables[0].name == name {
        assert(drop_entry(tables, name) =~= tables.remove(0));
        0
    } else {
        let q = lemma_drop_removes(tables.skip(1), name);
        assert(drop_entry(tables, name) =~= tables.remove(q + 1));
        q + 1
    }
}

/// Over any run of operations, reopening included, the identifiers that new
/// tables get only grow: one that is created at step `j` gets an identifier
/// above that of every table created at a step `i` before, dropped or not.
pub proof fn law_identifiers_only_grow(history: Seq<CatalogV>, i: int, j: int)
    requires
        0 <= i < j < history.len(),
        forall|k: int|
            0 <= k < history.len() - 1 ==> becomes(#[trigger] history[k], history[k + 1]),
    ensures
        history[i].next_table_id <= history[j].next_table_id,
        created_in(history[i], history[i + 1]) ==> history[i].next_table_id
            < history[j].next_table_id,
    decreases j - i,
{
    let before = history[i];
    let after = history[i + 1];
    assert(becomes(before, after));
    assert(before.next_table_id <= after.next_table_id);
    if i + 1 < j {
        law_identifiers_only_grow(history, i + 1, j);
    }
}

/// Of a numbered catalog, tables of two names have two directories, and none
/// has the directory that the next table gets.
pub proof fn lemma_dirs_apart(c: CatalogV, a: Seq<char>, b: Seq<char>)
    requires
        numbered(c),
        c.dir_of(a) is Ok,
    ensures
        a != b && c.dir_of(b) is Ok ==> c.dir_of(a) != c.dir_of(b),
        c.dir_of(a)->Ok_0 != path_join(c.root, c.new_entry(b).dir),
{
    lemma_find(c.tables, a);
    lemma_find(c.tables, b);
    let x = find_entry(c.tables, a)->Some_0;
    let i = choose|i: int| 0 <= i < c.tables.len() && c.tables[i] == x;
    assert(c.tables[i].id < c.next_table_id);
    law_directories_differ(c.root, x.id, c.next_table_id);
    if a != b && c.dir_of(b) is Ok {
        let y = find_entry(c.tables, b)->Some_0;
        let j = choose|j: int| 0 <= j < c.tables.len() && c.tables[j] == y;
        assert(i != j);
        assert(c.tables[i].id != c.tables[j].id);
        law_directories_differ(c.root, x.id, y.id);
    }
}

/// What is left after a table was dropped was there before, in a directory that
/// is not the dropped one.
pub proof fn lemma_left_after_drop(c: CatalogV, name: Seq<char>, i: int)
    requires
        numbered(c),
        c.dir_of(name) is Ok,
        0 <= i < c.without_table(name).tables.len(),
    ensures
        ({
            let left = c.without_table(name).tables[i];
            &&& c.tables.contains(left)
            &&& path_join(c.root, left.dir) != c.dir_of(name)->Ok_0
        }),
{
    let gone = c.without_table(name).tables;
    let left = gone[i];
    lemma_drop(c.tables, name);
    lemma_find_after_drop(c.tables, name, name);
    lemma_find(gone, name);
    lemma_find(c.tables, name);
    let x = find_entry(c.tables, name)->Some_0;
    let j = choose|j: int| 0 <= j < c.tables.len() && c.tables[j] == x;
    let m = choose|m: int| 0 <= m < c.tables.len() && c.tables[m] == left;
    assert(left.name != name);
    assert(m != j);
    assert(c.tables[m].id != c.tables[j].id);
    law_directories_differ(c.root, c.tables[m].id, c.tables[j].id);
}

/// Entries of two places have two names.
pub proof fn lemma_names_apart(c: CatalogV, i: int, j: int)
    requires
        ordered(c.tables),
        0 <= i < j < c.tables.len(),
    ensures
        c.tables[i].name != c.tables[j].name,
{
    let a = c.tables[i].name;
    let b = c.tables[j].name;
    assert(text_less(a, b));
    lemma_text_order(a, b, a);
}

/// An entry is found under its name.
pub proof fn lemma_listed_entry(c: CatalogV, i: int)
    requires
        ordered(c.tables),
        0 <= i < c.tables.len(),
    ensures
        find_entry(c.tables, c.tables[i].name) == Some(c.tables[i]),
{
    let name = c.tables[i].name;
    lemma_find(c.tables, name);
    let e = find_entry(c.tables, name)->Some_0;
    let j = choose|j: int| 0 <= j < c.tables.len() && c.tables[j] == e;
    if j < i {
        lemma_names_apart(c, j, i);
    } else if i < j {
        lemma_names_apart(c, i, j);
    }
}

/// The place of a table in the list.
pub proof fn lemma_entry_place(c: CatalogV, name: Seq<char>) -> (p: int)
    requires
        c.dir_of(name) is Ok,
    ensures
        0 <= p < c.tables.len(),
        c.tables[p].name == name,
{
    lemma_find(c.tables, name);
    let e = find_entry(c.tables, name)->Some_0;
    choose|p: int| 0 <= p < c.tables.len() && c.tables[p] == e
}

/// A metadata file in which something was changed within four consecutive bytes
/// behind its checksum line is refused, and the message names the file and both
/// checksums. One altered byte is such a change.
pub proof fn law_altered_metadata_is_refused(
    file: Seq<char>,
    text: Seq<char>,
    other: Seq<u8>,
    at: int,
)
    requires
        altered(encode_utf8(text), other),
        forall|i: int|
            0 <= i < other.len() && !(at <= i < at + 4) ==> #[trigger] other[i] == wrapped(
                encode_utf8(text),
            )[i],
    ensures
        ({
            let body = encode_utf8(text);
            let rest = other.skip(newline_from(wrapped(body), 0) + 1);
            metadata_text_of(file, other) == Err::<Seq<char>, ErrorV>(
                ErrorV::InvalidSchema(
                    file + ": "@ + mismatch(crc32_of(body), crc32_of(rest)).shown(),
                ),
            )
        }),
{
    law_altered_bytes_are_refused(encode_utf8(text), other, at);
}

} // verus!
