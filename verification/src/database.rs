//! The table store: values, columns, rows, tables and the registry of
//! tables by name.

use crate::error::SQLitError;
use vstd::hash_map::StringHashMap;
use vstd::hash_set::StringHashSet;
use vstd::prelude::*;

verus! {

/// A scalar that a slot of a row may hold.
#[derive(Debug, PartialEq)]
pub enum Value {
    Integer(i64),
    Text(String),
    /// A real number, held as the decimal literal that denotes it: digits, a
    /// point, and, it may be, more digits.
    Real(String),
    Blob(Vec<u8>),
}

/// What a [`Value`] is to the contracts.
pub enum ValueView {
    Integer(i64),
    Text(Seq<char>),
    Real(Seq<char>),
    Blob(Seq<u8>),
}

impl View for Value {
    type V = ValueView;

    open spec fn view(&self) -> ValueView {
        match self {
            Value::Integer(n) => ValueView::Integer(*n),
            Value::Text(t) => ValueView::Text(t@),
            Value::Real(r) => ValueView::Real(r@),
            Value::Blob(b) => ValueView::Blob(b@),
        }
    }
}

impl Clone for Value {
    fn clone(&self) -> (copy: Self)
        ensures
            copy@ == self@,
    {
        match self {
            Value::Integer(n) => Value::Integer(*n),
            Value::Text(t) => Value::Text(t.clone()),
            Value::Real(r) => Value::Real(r.clone()),
            Value::Blob(b) => Value::Blob(b.clone()),
        }
    }
}

/// The type that a column declares.
#[derive(Debug, Clone, Copy, PartialEq, Eq)]
pub enum ColumnType {
    Integer,
    Text,
    Real,
    Blob,
}

/// The declaration of a column.
#[derive(Debug)]
pub struct Column {
    pub name: String,
    pub t: ColumnType,
    /// What an insertion that names no value for the column fills in.
    pub default: Option<Value>,
    pub allow_null: bool,
    pub unique: bool,
}

/// What a [`Column`] is to the contracts.
pub struct ColumnView {
    pub name: Seq<char>,
    pub t: ColumnType,
    pub default: Option<ValueView>,
    pub allow_null: bool,
    pub unique: bool,
}

/// What a slot of a row is to the contracts.
pub open spec fn slot_view(slot: Option<Value>) -> Option<ValueView> {
    match slot {
        Some(v) => Some(v@),
        None => None,
    }
}

impl View for Column {
    type V = ColumnView;

    open spec fn view(&self) -> ColumnView {
        ColumnView {
            name: self.name@,
            t: self.t,
            default: slot_view(self.default),
            allow_null: self.allow_null,
            unique: self.unique,
        }
    }
}

/// What a list of columns is to the contracts.
pub open spec fn columns_view(columns: Seq<Column>) -> Seq<ColumnView> {
    Seq::new(columns.len(), |i: int| columns[i]@)
}

/// What a row is to the contracts: its slots in order.
pub open spec fn row_view(row: Seq<Option<Value>>) -> Seq<Option<ValueView>> {
    Seq::new(row.len(), |i: int| slot_view(row[i]))
}

/// The rows of a table, in the order in which they were inserted.
#[derive(Debug)]
pub struct Rows(pub Vec<Vec<Option<Value>>>);

impl View for Rows {
    type V = Seq<Seq<Option<ValueView>>>;

    open spec fn view(&self) -> Seq<Seq<Option<ValueView>>> {
        Seq::new(self.0@.len(), |r: int| row_view(self.0@[r]@))
    }
}

/// Rows as a projection returns them: each slot is borrowed from the table.
#[derive(Debug)]
pub struct RowView<'a>(pub Vec<Vec<&'a Option<Value>>>);

/// What a projected row is to the contracts.
pub open spec fn borrowed_row_view(row: Seq<&Option<Value>>) -> Seq<Option<ValueView>> {
    Seq::new(row.len(), |i: int| slot_view(*row[i]))
}

impl<'a> View for RowView<'a> {
    type V = Seq<Seq<Option<ValueView>>>;

    open spec fn view(&self) -> Seq<Seq<Option<ValueView>>> {
        Seq::new(self.0@.len(), |r: int| borrowed_row_view(self.0@[r]@))
    }
}

/// A table: its declaration and its rows.
#[derive(Debug)]
pub struct Table {
    pub name: String,
    /// The columns in the order of their declaration, which is the order of
    /// the slots in every row.
    pub columns: Vec<Column>,
    pub rows: Rows,
    /// The position in `columns` of the primary key.
    pub primary_key: usize,
    pub autoincrement: bool,
}

/// What a [`Table`] is to the contracts.
pub struct TableView {
    pub name: Seq<char>,
    pub columns: Seq<ColumnView>,
    pub rows: Seq<Seq<Option<ValueView>>>,
    pub primary_key: int,
    pub autoincrement: bool,
}

impl TableView {
    /// Every row has one slot for each column.
    pub open spec fn rows_fit(self) -> bool {
        forall|r: int| 0 <= r < self.rows.len() ==> (#[trigger] self.rows[r]).len()
            == self.columns.len()
    }

    /// The primary key is one of the columns.
    pub open spec fn has_primary_key(self) -> bool {
        0 <= self.primary_key < self.columns.len()
    }
}

impl View for Table {
    type V = TableView;

    open spec fn view(&self) -> TableView {
        TableView {
            name: self.name@,
            columns: columns_view(self.columns@),
            rows: self.rows@,
            primary_key: self.primary_key as int,
            autoincrement: self.autoincrement,
        }
    }
}

/// The mapping that a list of named values stands for: a name that occurs
/// more than once has its last value.
pub open spec fn supplied(values: Seq<(Seq<char>, ValueView)>) -> Map<Seq<char>, ValueView>
    decreases values.len(),
{
    if values.len() == 0 {
        Map::empty()
    } else {
        supplied(values.drop_last()).insert(values.last().0, values.last().1)
    }
}

/// The row that an insertion builds: for each column the value given under
/// its name, or else its default, or else nothing.
pub open spec fn filled_row(columns: Seq<ColumnView>, given: Map<Seq<char>, ValueView>) -> Seq<
    Option<ValueView>,
> {
    Seq::new(
        columns.len(),
        |i: int|
            if given.contains_key(columns[i].name) {
                Some(given[columns[i].name])
            } else {
                columns[i].default
            },
    )
}

/// The slots of `row` whose column is wanted, in the order of the columns.
pub open spec fn projected(
    columns: Seq<ColumnView>,
    wanted: Set<Seq<char>>,
    row: Seq<Option<ValueView>>,
) -> Seq<Option<ValueView>>
    decreases columns.len(),
{
    if columns.len() == 0 {
        Seq::empty()
    } else {
        let before = projected(columns.drop_last(), wanted, row);
        if wanted.contains(columns.last().name) {
            before.push(row[columns.len() - 1])
        } else {
            before
        }
    }
}

/// What a list of named values is to the contracts.
pub open spec fn pairs_view(values: Seq<(&str, Value)>) -> Seq<(Seq<char>, ValueView)> {
    Seq::new(values.len(), |i: int| (values[i].0@, values[i].1@))
}

/// The names that a list of names holds.
pub open spec fn names_of(names: Seq<&str>) -> Set<Seq<char>> {
    Set::new(|n: Seq<char>| exists|i: int| 0 <= i < names.len() && (#[trigger] names[i])@ == n)
}

impl Table {
    /// Every row has one slot for each column.
    pub open spec fn wf(&self) -> bool {
        self@.rows_fit()
    }

    /// A table without rows.
    pub fn new(name: String, columns: Vec<Column>, primary_key: usize, autoincrement: bool) -> (table:
        Self)
        ensures
            table.name == name,
            table.columns == columns,
            table.primary_key == primary_key,
            table.autoincrement == autoincrement,
            table@.rows == Seq::<Seq<Option<ValueView>>>::empty(),
            table.wf(),
    {
        let table = Table { name, columns, rows: Rows(Vec::new()), primary_key, autoincrement };
        assert(table@.rows =~= Seq::<Seq<Option<ValueView>>>::empty());
        table
    }

    /// Whether every row has one slot for each column.
    pub fn rows_fit(&self) -> (fit: bool)
        ensures
            fit == self.wf(),
    {
        let mut r: usize = 0;
        while r < self.rows.0.len()
            invariant
                r <= self.rows.0@.len(),
                forall|q: int| 0 <= q < r ==> (#[trigger] self@.rows[q]).len() == self@.columns.len(),
            decreases self.rows.0@.len() - r,
        {
            if self.rows.0[r].len() != self.columns.len() {
                assert(self@.rows[r as int].len() != self@.columns.len());
                return false;
            }
            r += 1;
        }
        true
    }

    /// Appends one row. Each column takes the value given under its name, or
    /// else its default, or else stays empty; a name that is given more than
    /// once counts with its last value, and a name that no column has is
    /// ignored. Nothing else of the table changes.
    pub fn insert<'a>(&mut self, values: Vec<(&'a str, Value)>) -> (done: Result<(), SQLitError>)
        ensures
            done is Ok,
            final(self)@ == (TableView {
                rows: old(self)@.rows.push(
                    filled_row(old(self)@.columns, supplied(pairs_view(values@))),
                ),
                ..old(self)@
            }),
            final(self)@.rows.last().len() == old(self)@.columns.len(),
            old(self).wf() ==> final(self).wf(),
    {
        let ghost pairs = pairs_view(values@);
        let mut given: StringHashMap<Value> = StringHashMap::new();
        let mut k: usize = 0;
        while k < values.len()
            invariant
                k <= values@.len(),
                pairs == pairs_view(values@),
                given@.dom() =~= supplied(pairs.take(k as int)).dom(),
                forall|n: Seq<char>| #[trigger]
                    given@.contains_key(n) ==> given@[n]@ == supplied(pairs.take(k as int))[n],
            decreases values@.len() - k,
        {
            let name = values[k].0.to_owned();
            let value = values[k].1.clone();
            given.insert(name, value);
            proof {
                assert(pairs.take(k + 1).drop_last() =~= pairs.take(k as int));
            }
            k += 1;
        }
        assert(pairs.take(k as int) =~= pairs);
        let ghost wanted = supplied(pairs);
        let ghost columns = old(self)@.columns;

        let mut row: Vec<Option<Value>> = Vec::with_capacity(self.columns.len());
        let mut c: usize = 0;
        while c < self.columns.len()
            invariant
                c <= self.columns@.len(),
                *self == *old(self),
                columns == self@.columns,
                given@.dom() =~= wanted.dom(),
                forall|n: Seq<char>| #[trigger]
                    given@.contains_key(n) ==> given@[n]@ == wanted[n],
                row@.len() == c,
                forall|i: int| 0 <= i < c ==> slot_view(#[trigger] row@[i]) == filled_row(
                    columns,
                    wanted,
                )[i],
            decreases self.columns@.len() - c,
        {
            let column = &self.columns[c];
            let slot = match given.get(column.name.as_str()) {
                Some(value) => Some(value.clone()),
                None => match &column.default {
                    Some(value) => Some(value.clone()),
                    None => None,
                },
            };
            row.push(slot);
            c += 1;
        }
        assert(row_view(row@) =~= filled_row(columns, wanted));
        self.rows.0.push(row);
        assert(self@.rows =~= old(self)@.rows.push(filled_row(columns, wanted)));
        Ok(())
    }

    /// Projects every row onto the columns whose names are asked for. The
    /// rows come in the order of their insertion and the slots of each in the
    /// order of the table's columns, whatever the order of `columns`; a name
    /// that no column has adds nothing.
    pub fn select<'c, 't>(&'t self, columns: Vec<&'c str>) -> (view: RowView<'t>)
        requires
            self.wf(),
        ensures
            view@ == Seq::new(
                self@.rows.len(),
                |r: int| projected(self@.columns, names_of(columns@), self@.rows[r]),
            ),
    {
        let mut wanted = StringHashSet::new();
        let mut k: usize = 0;
        while k < columns.len()
            invariant
                k <= columns@.len(),
                wanted@ =~= names_of(columns@.take(k as int)),
            decreases columns@.len() - k,
        {
            let name = columns[k].to_owned();
            wanted.insert(name);
            proof {
                let before = columns@.take(k as int);
                let after = columns@.take(k + 1);
                assert(after[k as int] == columns@[k as int]);
                assert forall|n: Seq<char>|
                    names_of(before).insert(columns@[k as int]@).contains(n) implies names_of(
                    after,
                ).contains(n) by {
                    if n != columns@[k as int]@ {
                        let i = choose|i: int| 0 <= i < before.len() && (#[trigger] before[i])@ == n;
                        assert(after[i]@ == n);
                    }
                }
                assert forall|n: Seq<char>| names_of(after).contains(n) implies names_of(
                    before,
                ).insert(columns@[k as int]@).contains(n) by {
                    let i = choose|i: int| 0 <= i < after.len() && (#[trigger] after[i])@ == n;
                    if i < k {
                        assert(before[i]@ == n);
                    }
                }
            }
            k += 1;
        }
        assert(columns@.take(k as int) =~= columns@);
        let ghost names = names_of(columns@);

        let mut out: Vec<Vec<&'t Option<Value>>> = Vec::with_capacity(self.rows.0.len());
        let mut r: usize = 0;
        while r < self.rows.0.len()
            invariant
                r <= self.rows.0@.len(),
                self.wf(),
                wanted@ == names,
                out@.len() == r,
                forall|q: int| 0 <= q < r ==> borrowed_row_view((#[trigger] out@[q])@) == projected(
                    self@.columns,
                    names,
                    self@.rows[q],
                ),
            decreases self.rows.0@.len() - r,
        {
            let row = &self.rows.0[r];
            assert(self@.rows[r as int].len() == self@.columns.len());
            let mut slots: Vec<&'t Option<Value>> = Vec::new();
            let mut c: usize = 0;
            while c < self.columns.len()
                invariant
                    c <= self.columns@.len(),
                    r < self.rows.0@.len(),
                    row@.len() == self.columns@.len(),
                    *row == self.rows.0@[r as int],
                    wanted@ == names,
                    borrowed_row_view(slots@) == projected(
                        self@.columns.take(c as int),
                        names,
                        self@.rows[r as int],
                    ),
                decreases self.columns@.len() - c,
            {
                if wanted.contains(self.columns[c].name.as_str()) {
                    slots.push(&row[c]);
                }
                proof {
                    let cols = self@.columns;
                    assert(cols.take(c + 1).drop_last() =~= cols.take(c as int));
                    assert(cols.take(c + 1).last() == cols[c as int]);
                    assert(cols[c as int].name == self.columns@[c as int].name@);
                    assert(self@.rows[r as int][c as int] == slot_view(row@[c as int]));
                    assert(borrowed_row_view(slots@) =~= projected(
                        cols.take(c + 1),
                        names,
                        self@.rows[r as int],
                    ));
                }
                c += 1;
            }
            assert(self@.columns.take(c as int) =~= self@.columns);
            out.push(slots);
            r += 1;
        }
        let view = RowView(out);
        assert(view@ =~= Seq::new(
            self@.rows.len(),
            |r: int| projected(self@.columns, names, self@.rows[r]),
        ));
        view
    }
}

/// How the registration of a table ended.
#[derive(Debug, Clone, Copy, PartialEq, Eq)]
pub enum CreateTableResult {
    /// The table was registered.
    Created,
    /// A table of that name was there already, and was left as it was.
    Skipped,
}

/// The registry of tables: each name has one table at most, and each table
/// stands under its own name.
pub struct Database {
    tables: StringHashMap<Table>,
    file: String,
}

/// What a [`Database`] is to the contracts.
pub struct DatabaseView {
    pub tables: Map<Seq<char>, TableView>,
    pub file: Seq<char>,
}

impl DatabaseView {
    /// Every table is registered under its own name.
    pub open spec fn names_agree(self) -> bool {
        forall|n: Seq<char>| #[trigger] self.tables.contains_key(n) ==> self.tables[n].name == n
    }
}

impl View for Database {
    type V = DatabaseView;

    closed spec fn view(&self) -> DatabaseView {
        DatabaseView {
            tables: Map::new(
                |n: Seq<char>| self.tables@.contains_key(n),
                |n: Seq<char>| self.tables@[n]@,
            ),
            file: self.file@,
        }
    }
}

impl Database {
    /// A database without tables. The file is named and never touched.
    pub fn open(file: String) -> (db: Self)
        ensures
            db@.tables == Map::<Seq<char>, TableView>::empty(),
            db@.file == file@,
            db@.names_agree(),
    {
        let db = Database { tables: StringHashMap::new(), file };
        assert(db@.tables =~= Map::<Seq<char>, TableView>::empty());
        db
    }

    /// The name of the file that the database was opened on.
    pub fn file(&self) -> (name: &str)
        ensures
            name@ == self@.file,
    {
        self.file.as_str()
    }

    /// How many tables are registered.
    pub fn table_count(&self) -> (count: usize)
        ensures
            count == self@.tables.len(),
    {
        let count = self.tables.len();
        assert(self@.tables.dom() =~= self.tables@.dom());
        count
    }

    /// The table registered under `name`, if there is one.
    pub fn table(&self, name: &str) -> (found: Option<&Table>)
        ensures
            match found {
                Some(table) => self@.tables.contains_key(name@) && table@ == self@.tables[name@],
                None => !self@.tables.contains_key(name@),
            },
    {
        self.tables.get(name)
    }

    /// Registers a table under its name. Where the name is free the table is
    /// added. Where it is taken the database stays as it is, and the call
    /// is skipped if `if_not_exists` is set and fails if it is not.
    pub fn create_table(&mut self, table: Table, if_not_exists: bool) -> (done: Result<
        CreateTableResult,
        SQLitError,
    >)
        ensures
            final(self)@.file == old(self)@.file,
            old(self)@.names_agree() ==> final(self)@.names_agree(),
            match done {
                Ok(CreateTableResult::Created) => !old(self)@.tables.contains_key(table.name@)
                    && final(self)@.tables == old(self)@.tables.insert(table.name@, table@),
                Ok(CreateTableResult::Skipped) => old(self)@.tables.contains_key(table.name@)
                    && if_not_exists && final(self)@ == old(self)@,
                Err(SQLitError::TableAlreadyExists(name)) => old(self)@.tables.contains_key(
                    table.name@,
                ) && !if_not_exists && final(self)@ == old(self)@ && name@ == table.name@,
                Err(_) => false,
            },
    {
        if self.tables.contains_key(table.name.as_str()) {
            if if_not_exists {
                Ok(CreateTableResult::Skipped)
            } else {
                Err(SQLitError::TableAlreadyExists(table.name.clone()))
            }
        } else {
            let name = table.name.clone();
            self.tables.insert(name, table);
            assert(final(self)@.tables =~= old(self)@.tables.insert(table.name@, table@));
            Ok(CreateTableResult::Created)
        }
    }
}

/// A projection depends on which names are asked for, not on their order nor
/// on how often each is given.
pub proof fn lemma_projection_ignores_order(
    columns: Seq<ColumnView>,
    asked: Seq<&str>,
    reordered: Seq<&str>,
    row: Seq<Option<ValueView>>,
)
    requires
        forall|n: Seq<char>| names_of(asked).contains(n) <==> names_of(reordered).contains(n),
    ensures
        projected(columns, names_of(asked), row) == projected(columns, names_of(reordered), row),
{
    assert(names_of(asked) =~= names_of(reordered));
}

/// A projection keeps the order of the table's columns: what it takes from
/// the first `n` columns comes before what it takes from the others.
pub proof fn lemma_projection_in_column_order(
    columns: Seq<ColumnView>,
    wanted: Set<Seq<char>>,
    row: Seq<Option<ValueView>>,
    n: int,
)
    requires
        0 <= n <= columns.len(),
    ensures
        projected(columns.take(n), wanted, row).is_prefix_of(projected(columns, wanted, row)),
    decreases columns.len() - n,
{
    if n < columns.len() {
        lemma_projection_in_column_order(columns, wanted, row, n + 1);
        assert(columns.take(n + 1).drop_last() =~= columns.take(n));
    } else {
        assert(columns.take(n) =~= columns);
    }
}

/// A projection onto names that every column has is the whole row.
pub proof fn lemma_projection_of_every_column(
    columns: Seq<ColumnView>,
    wanted: Set<Seq<char>>,
    row: Seq<Option<ValueView>>,
)
    requires
        row.len() == columns.len(),
        forall|i: int| 0 <= i < columns.len() ==> wanted.contains((#[trigger] columns[i]).name),
    ensures
        projected(columns, wanted, row) == row,
{
    lemma_projection_of_first_columns(columns, wanted, row, columns.len() as int);
    assert(columns.take(columns.len() as int) =~= columns);
    assert(row.take(columns.len() as int) =~= row);
}

/// A projection of the first `n` columns onto names that each of them has is
/// the first `n` slots of the row.
pub proof fn lemma_projection_of_first_columns(
    columns: Seq<ColumnView>,
    wanted: Set<Seq<char>>,
    row: Seq<Option<ValueView>>,
    n: int,
)
    requires
        0 <= n <= columns.len() <= row.len(),
        forall|i: int| 0 <= i < n ==> wanted.contains((#[trigger] columns[i]).name),
    ensures
        projected(columns.take(n), wanted, row) == row.take(n),
    decreases n,
{
    if n > 0 {
        lemma_projection_of_first_columns(columns, wanted, row, n - 1);
        assert(columns.take(n).drop_last() =~= columns.take(n - 1));
        assert(columns.take(n).last() == columns[n - 1]);
        assert(row.take(n) =~= row.take(n - 1).push(row[n - 1]));
    } else {
        assert(row.take(0) =~= Seq::<Option<ValueView>>::empty());
    }
}

/// The value that a list of named values supplies under a name is the one
/// that stands last with that name. Here `i` is the place of a pair behind
/// which its name does not occur again.
pub proof fn lemma_supplied(values: Seq<(Seq<char>, ValueView)>, i: int)
    requires
        0 <= i < values.len(),
        forall|j: int| i < j < values.len() ==> (#[trigger] values[j]).0 != values[i].0,
    ensures
        supplied(values).contains_key(values[i].0),
        supplied(values)[values[i].0] == values[i].1,
    decreases values.len(),
{
    let before = values.drop_last();
    if i < values.len() - 1 {
        assert(before[i] == values[i]);
        assert forall|j: int| i < j < before.len() implies (#[trigger] before[j]).0
            != before[i].0 by {
            assert(before[j] == values[j]);
        }
        lemma_supplied(before, i);
    }
}

/// Whether no name is given twice in a list of named values.
pub open spec fn names_differ(values: Seq<(Seq<char>, ValueView)>) -> bool {
    forall|i: int, j: int|
        0 <= i < j < values.len() ==> (#[trigger] values[i]).0 != (#[trigger] values[j]).0
}

/// Where no name is given twice, the order in which the named values are
/// given does not matter: two lists of the same pairs supply the same.
pub proof fn lemma_supplied_ignores_order(
    given: Seq<(Seq<char>, ValueView)>,
    reordered: Seq<(Seq<char>, ValueView)>,
)
    requires
        names_differ(given),
        names_differ(reordered),
        forall|pair: (Seq<char>, ValueView)| given.contains(pair) <==> reordered.contains(pair),
    ensures
        supplied(given) == supplied(reordered),
{
    lemma_supplied_within(given, reordered);
    lemma_supplied_within(reordered, given);
    assert(supplied(given) =~= supplied(reordered));
}

/// Where no name is given twice, what a list supplies is supplied by every
/// list that holds its pairs.
proof fn lemma_supplied_within(
    part: Seq<(Seq<char>, ValueView)>,
    all: Seq<(Seq<char>, ValueView)>,
)
    requires
        names_differ(part),
        names_differ(all),
        forall|pair: (Seq<char>, ValueView)| part.contains(pair) ==> all.contains(pair),
    ensures
        forall|n: Seq<char>| #[trigger]
            supplied(part).contains_key(n) ==> supplied(all).contains_key(n) && supplied(all)[n]
                == supplied(part)[n],
{
    lemma_supplied_names(part);
    assert forall|n: Seq<char>| #[trigger] supplied(part).contains_key(n) implies supplied(
        all,
    ).contains_key(n) && supplied(all)[n] == supplied(part)[n] by {
        let i = choose|i: int| 0 <= i < part.len() && (#[trigger] part[i]).0 == n;
        lemma_supplied(part, i);
        assert(part.contains(part[i]));
        let j = choose|j: int| 0 <= j < all.len() && all[j] == part[i];
        lemma_supplied(all, j);
    }
}

/// A list of named values supplies no name that is not in the list.
pub proof fn lemma_supplied_names(values: Seq<(Seq<char>, ValueView)>)
    ensures
        forall|n: Seq<char>| #[trigger]
            supplied(values).contains_key(n) ==> exists|j: int|
                0 <= j < values.len() && (#[trigger] values[j]).0 == n,
    decreases values.len(),
{
    if values.len() > 0 {
        let before = values.drop_last();
        lemma_supplied_names(before);
        assert forall|n: Seq<char>| #[trigger] supplied(values).contains_key(n) implies exists|
            j: int,
        |
            0 <= j < values.len() && (#[trigger] values[j]).0 == n by {
            if n == values.last().0 {
                assert(values[values.len() - 1].0 == n);
            } else {
                assert(supplied(before).contains_key(n));
                let j = choose|j: int| 0 <= j < before.len() && (#[trigger] before[j]).0 == n;
                assert(before[j] == values[j]);
            }
        }
    }
}

/// An inserted row has one slot for each column; a column whose name was
/// given holds the value given, and any other holds its default, or nothing
/// where it has none.
pub proof fn lemma_filled_row(columns: Seq<ColumnView>, given: Map<Seq<char>, ValueView>, i: int)
    requires
        0 <= i < columns.len(),
    ensures
        filled_row(columns, given).len() == columns.len(),
        given.contains_key(columns[i].name) ==> filled_row(columns, given)[i] == Some(
            given[columns[i].name],
        ),
        !given.contains_key(columns[i].name) ==> filled_row(columns, given)[i]
            == columns[i].default,
{
}

} // verus!
