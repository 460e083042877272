//! The grammar of statements, as functions of a character sequence and a
//! position in it.
//!
//! ```text
//! select     : SELECT [ALL|DISTINCT] (* | name (, name)*) FROM name [;]
//! create     : CREATE TABLE [IF NOT EXISTS] name ( column-def (, column-def)* ) [;]
//! column-def : ident type (constraint)*
//! constraint : PRIMARY KEY [AUTOINCREMENT] | DEFAULT value | NOT NULL | UNIQUE
//! type       : INTEGER | REAL | TEXT | BLOB
//! value      : integer-literal | real-literal | 'text-literal'
//! name       : ["] ident ["]
//! ```
//!
//! Each function says what stands at a position `i` of the sequence `s`, and
//! where it ends. A clause is matched greedily and alternatives are tried in
//! order, so at most one reading of a statement exists. Whitespace is never
//! skipped silently: each place where it may or must stand is written out.

use crate::database::{ColumnType, ColumnView, TableView, ValueView};
use crate::text::{
    in_class, is_digit, is_ident_char, is_letter, lemma_run_end, lemma_run_end_is, lower, lowered,
    run_end, CharClass,
};
use vstd::prelude::*;

verus! {

/// Whether the character `c` stands at `i`.
pub open spec fn mark_at(s: Seq<char>, i: int, c: char) -> bool {
    0 <= i < s.len() && s[i] == c
}

/// Where the keyword `word` ends if it stands at `i`, in any mix of upper
/// and lower case.
pub open spec fn keyword_end(s: Seq<char>, i: int, word: Seq<char>) -> Option<int> {
    if 0 <= i && i + word.len() <= s.len() && lowered(s.subrange(i, i + word.len())) == lowered(
        word,
    ) {
        Some(i + word.len())
    } else {
        None
    }
}

/// Where the whitespace that starts at `i` ends; `i` itself if there is none.
pub open spec fn spaces_end(s: Seq<char>, i: int) -> int {
    run_end(s, CharClass::Space, i)
}

/// Where the whitespace that starts at `i` ends, if there is any.
pub open spec fn gap_end(s: Seq<char>, i: int) -> Option<int> {
    if spaces_end(s, i) > i {
        Some(spaces_end(s, i))
    } else {
        None
    }
}

/// Where the keyword `word` ends if it stands behind whitespace that starts
/// at `i`.
pub open spec fn spaced_keyword_end(s: Seq<char>, i: int, word: Seq<char>) -> Option<int> {
    match gap_end(s, i) {
        Some(g) => keyword_end(s, g, word),
        None => None,
    }
}

/// Where the identifier that starts at `i` ends: the longest run of letters,
/// digits and `_`, which must not be empty.
pub open spec fn ident_end(s: Seq<char>, i: int) -> Option<int> {
    if run_end(s, CharClass::Word, i) > i {
        Some(run_end(s, CharClass::Word, i))
    } else {
        None
    }
}

/// The name that stands at `i` and where it ends: an identifier, with or
/// without a `"` in front of it and with or without one behind it. The
/// quotes are no part of the name.
pub open spec fn quoted_ident_at(s: Seq<char>, i: int) -> Option<(Seq<char>, int)> {
    let from = if mark_at(s, i, '"') {
        i + 1
    } else {
        i
    };
    match ident_end(s, from) {
        Some(to) => Some(
            (
                s.subrange(from, to),
                if mark_at(s, to, '"') {
                    to + 1
                } else {
                    to
                },
            ),
        ),
        None => None,
    }
}

/// The number that a digit stands for.
pub open spec fn digit_value(c: char) -> nat {
    (c as int - '0' as int) as nat
}

/// The number that a sequence of digits denotes in base ten.
pub open spec fn decimal(digits: Seq<char>) -> nat
    decreases digits.len(),
{
    if digits.len() == 0 {
        0
    } else {
        decimal(digits.drop_last()) * 10 + digit_value(digits.last())
    }
}

/// The text literal at `i`: a `'`, one character or more that are not `'`,
/// and a `'`. Its value is what stands between the quotes.
pub open spec fn text_literal_at(s: Seq<char>, i: int) -> Option<(ValueView, int)> {
    let close = run_end(s, CharClass::Unquoted, i + 1);
    if mark_at(s, i, '\'') && close > i + 1 && mark_at(s, close, '\'') {
        Some((ValueView::Text(s.subrange(i + 1, close)), close + 1))
    } else {
        None
    }
}

/// The number literal at `i`. Digits with a point and, it may be, more
/// digits behind it are a real, whose value is the literal as written.
/// Digits alone are an integer, unless they denote more than an `i64` holds:
/// then no value stands at `i`.
pub open spec fn number_at(s: Seq<char>, i: int) -> Option<(ValueView, int)> {
    let point = run_end(s, CharClass::Digit, i);
    if point <= i {
        None
    } else if mark_at(s, point, '.') {
        let end = run_end(s, CharClass::Digit, point + 1);
        Some((ValueView::Real(s.subrange(i, end)), end))
    } else if decimal(s.subrange(i, point)) <= i64::MAX {
        Some((ValueView::Integer(decimal(s.subrange(i, point)) as i64), point))
    } else {
        None
    }
}

/// The literal value at `i`.
pub open spec fn value_at(s: Seq<char>, i: int) -> Option<(ValueView, int)> {
    match text_literal_at(s, i) {
        Some(found) => Some(found),
        None => number_at(s, i),
    }
}

/// The column type at `i`.
pub open spec fn column_type_at(s: Seq<char>, i: int) -> Option<(ColumnType, int)> {
    if let Some(end) = keyword_end(s, i, "integer"@) {
        Some((ColumnType::Integer, end))
    } else if let Some(end) = keyword_end(s, i, "real"@) {
        Some((ColumnType::Real, end))
    } else if let Some(end) = keyword_end(s, i, "text"@) {
        Some((ColumnType::Text, end))
    } else if let Some(end) = keyword_end(s, i, "blob"@) {
        Some((ColumnType::Blob, end))
    } else {
        None
    }
}

/// A constraint of a column definition.
pub enum Constraint {
    PrimaryKey { autoincrement: bool },
    Default(ValueView),
    NotNull,
    Unique,
}

/// `PRIMARY KEY`, with or without `AUTOINCREMENT` behind it, at `i`.
pub open spec fn primary_key_at(s: Seq<char>, i: int) -> Option<(Constraint, int)> {
    match keyword_end(s, i, "primary"@) {
        Some(a) => match spaced_keyword_end(s, a, "key"@) {
            Some(b) => match spaced_keyword_end(s, b, "autoincrement"@) {
                Some(c) => Some((Constraint::PrimaryKey { autoincrement: true }, c)),
                None => Some((Constraint::PrimaryKey { autoincrement: false }, b)),
            },
            None => None,
        },
        None => None,
    }
}

/// `DEFAULT` and a value at `i`.
pub open spec fn default_at(s: Seq<char>, i: int) -> Option<(Constraint, int)> {
    match keyword_end(s, i, "default"@) {
        Some(a) => match gap_end(s, a) {
            Some(b) => match value_at(s, b) {
                Some((v, end)) => Some((Constraint::Default(v), end)),
                None => None,
            },
            None => None,
        },
        None => None,
    }
}

/// `NOT NULL` at `i`.
pub open spec fn not_null_at(s: Seq<char>, i: int) -> Option<(Constraint, int)> {
    match keyword_end(s, i, "not"@) {
        Some(a) => match spaced_keyword_end(s, a, "null"@) {
            Some(b) => Some((Constraint::NotNull, b)),
            None => None,
        },
        None => None,
    }
}

/// `UNIQUE` at `i`.
pub open spec fn unique_at(s: Seq<char>, i: int) -> Option<(Constraint, int)> {
    match keyword_end(s, i, "unique"@) {
        Some(a) => Some((Constraint::Unique, a)),
        None => None,
    }
}

/// The constraint at `i`.
pub open spec fn constraint_at(s: Seq<char>, i: int) -> Option<(Constraint, int)> {
    if primary_key_at(s, i) is Some {
        primary_key_at(s, i)
    } else if default_at(s, i) is Some {
        default_at(s, i)
    } else if not_null_at(s, i) is Some {
        not_null_at(s, i)
    } else {
        unique_at(s, i)
    }
}

/// A column definition as it is written: the column, whether it is marked
/// as the primary key, and whether that key is to count up by itself.
pub struct ColumnDef {
    pub column: ColumnView,
    pub primary_key: bool,
    pub autoincrement: bool,
}

/// The kinds of constraint that a column definition holds so far.
#[derive(Clone, Copy, Debug)]
pub struct Seen {
    pub primary_key: bool,
    pub default: bool,
    pub not_null: bool,
    pub unique: bool,
}

impl Seen {
    /// No kind is seen.
    pub open spec fn nothing() -> Seen {
        Seen { primary_key: false, default: false, not_null: false, unique: false }
    }

    /// Whether a constraint of the kind of `c` was seen.
    pub open spec fn has(self, c: Constraint) -> bool {
        match c {
            Constraint::PrimaryKey { .. } => self.primary_key,
            Constraint::Default(_) => self.default,
            Constraint::NotNull => self.not_null,
            Constraint::Unique => self.unique,
        }
    }

    /// What is seen once a constraint of the kind of `c` is.
    pub open spec fn with(self, c: Constraint) -> Seen {
        match c {
            Constraint::PrimaryKey { .. } => Seen { primary_key: true, ..self },
            Constraint::Default(_) => Seen { default: true, ..self },
            Constraint::NotNull => Seen { not_null: true, ..self },
            Constraint::Unique => Seen { unique: true, ..self },
        }
    }

    /// How many kinds are not seen yet.
    pub open spec fn unseen(self) -> nat {
        (if self.primary_key { 0nat } else { 1 }) + (if self.default { 0nat } else { 1 }) + (
        if self.not_null { 0nat } else { 1 }) + (if self.unique { 0nat } else { 1 })
    }
}

impl ColumnDef {
    /// The definition of a column without constraints: it has no default,
    /// may be empty, need not be unique, and is no primary key.
    pub open spec fn plain(name: Seq<char>, t: ColumnType) -> ColumnDef {
        ColumnDef {
            column: ColumnView { name, t, default: None, allow_null: true, unique: false },
            primary_key: false,
            autoincrement: false,
        }
    }

    /// The definition with one constraint more.
    pub open spec fn with(self, c: Constraint) -> ColumnDef {
        match c {
            Constraint::PrimaryKey { autoincrement } => ColumnDef {
                primary_key: true,
                autoincrement,
                ..self
            },
            Constraint::Default(v) => ColumnDef {
                column: ColumnView { default: Some(v), ..self.column },
                ..self
            },
            Constraint::NotNull => ColumnDef {
                column: ColumnView { allow_null: false, ..self.column },
                ..self
            },
            Constraint::Unique => ColumnDef {
                column: ColumnView { unique: true, ..self.column },
                ..self
            },
        }
    }
}

/// The constraints from `i` on, added to `def`: constraints in any order
/// with whitespace between them, each kind once at most. Whitespace behind
/// the last constraint belongs to the definition. A constraint of a kind in
/// `seen` makes the definition invalid.
pub open spec fn constraints_at(s: Seq<char>, i: int, def: ColumnDef, seen: Seen) -> Option<
    (ColumnDef, int),
>
    decreases seen.unseen(),
{
    match constraint_at(s, i) {
        None => Some((def, i)),
        Some((c, end)) => if seen.has(c) {
            None
        } else if spaces_end(s, end) > end {
            constraints_at(s, spaces_end(s, end), def.with(c), seen.with(c))
        } else {
            Some((def.with(c), end))
        },
    }
}

/// The column definition at `i`: an identifier, whitespace, a type, and the
/// constraints, which may follow the type directly. Whitespace behind the
/// type belongs to the definition, as that behind a constraint does.
pub open spec fn column_at(s: Seq<char>, i: int) -> Option<(ColumnDef, int)> {
    match ident_end(s, i) {
        Some(a) => match gap_end(s, a) {
            Some(b) => match column_type_at(s, b) {
                Some((t, c)) => constraints_at(
                    s,
                    spaces_end(s, c),
                    ColumnDef::plain(s.subrange(i, a), t),
                    Seen::nothing(),
                ),
                None => None,
            },
            None => None,
        },
        None => None,
    }
}

/// Where the comma that starts at `i` ends, with the whitespace around it.
pub open spec fn comma_end(s: Seq<char>, i: int) -> Option<int> {
    if mark_at(s, spaces_end(s, i), ',') {
        Some(spaces_end(s, spaces_end(s, i) + 1))
    } else {
        None
    }
}

/// The column definitions behind `found`, from `i` on: each has a comma in
/// front of it. A comma that no definition follows is no part of the list.
pub open spec fn more_columns(s: Seq<char>, i: int, found: Seq<ColumnDef>) -> (Seq<ColumnDef>, int)
    decreases s.len() - i,
{
    match comma_end(s, i) {
        Some(j) => match column_at(s, j) {
            Some((def, end)) => {
                proof {
                    lemma_comma_end(s, i);
                    lemma_column_at(s, j);
                }
                more_columns(s, end, found.push(def))
            },
            None => (found, i),
        },
        None => (found, i),
    }
}

/// The list of column definitions at `i`: one or more, with commas between
/// them.
pub open spec fn columns_at(s: Seq<char>, i: int) -> Option<(Seq<ColumnDef>, int)> {
    match column_at(s, i) {
        Some((def, end)) => Some(more_columns(s, end, seq![def])),
        None => None,
    }
}

/// The names behind `found`, from `i` on: each has a comma in front of it.
pub open spec fn more_names(s: Seq<char>, i: int, found: Seq<Seq<char>>) -> (Seq<Seq<char>>, int)
    decreases s.len() - i,
{
    match comma_end(s, i) {
        Some(j) => match quoted_ident_at(s, j) {
            Some((name, end)) => {
                proof {
                    lemma_comma_end(s, i);
                    lemma_quoted_ident_at(s, j);
                }
                more_names(s, end, found.push(name))
            },
            None => (found, i),
        },
        None => (found, i),
    }
}

/// The list of names at `i`: one or more, with commas between them.
pub open spec fn names_at(s: Seq<char>, i: int) -> Option<(Seq<Seq<char>>, int)> {
    match quoted_ident_at(s, i) {
        Some((name, end)) => Some(more_names(s, end, seq![name])),
        None => None,
    }
}

/// Where the `;` that may close a statement ends, with the whitespace in
/// front of it; `i` itself if none stands there.
pub open spec fn terminator_end(s: Seq<char>, i: int) -> int {
    if mark_at(s, spaces_end(s, i), ';') {
        spaces_end(s, i) + 1
    } else {
        i
    }
}

/// The columns that a `SELECT` asks for.
pub enum Fields {
    All,
    Named(Seq<Seq<char>>),
}

/// A parsed statement.
#[allow(inconsistent_fields)]
pub enum Statement {
    Create { table: TableView, if_not_exists: bool },
    Select { table: Seq<char>, fields: Fields, distinct: bool },
}

/// Why a statement was not parsed.
pub enum Failure {
    /// The text does not follow the grammar.
    Syntax,
    /// The text follows the grammar and breaks a rule of its statement.
    Validation(Seq<char>),
}

/// The positions of the definitions that are marked as the primary key, in
/// rising order.
pub open spec fn keys(defs: Seq<ColumnDef>) -> Seq<int>
    decreases defs.len(),
{
    if defs.len() == 0 {
        Seq::empty()
    } else if defs.last().primary_key {
        keys(defs.drop_last()).push(defs.len() - 1)
    } else {
        keys(defs.drop_last())
    }
}

/// The columns that a list of definitions declares.
pub open spec fn declared(defs: Seq<ColumnDef>) -> Seq<ColumnView> {
    Seq::new(defs.len(), |i: int| defs[i].column)
}

/// The message for a column list without a primary key.
pub open spec fn no_primary_key() -> Seq<char> {
    "no primary key specified"@
}

/// The message for a column list with more than one primary key.
pub open spec fn many_primary_keys() -> Seq<char> {
    "only one primary key may be specified"@
}

/// What a list of column definitions gives a table: its columns, the
/// position of its primary key, and whether that key counts up by itself.
/// Exactly one definition must be marked as the primary key.
pub open spec fn keyed(defs: Seq<ColumnDef>) -> Result<(Seq<ColumnView>, int, bool), Failure> {
    if keys(defs).len() == 0 {
        Err(Failure::Validation(no_primary_key()))
    } else if keys(defs).len() > 1 {
        Err(Failure::Validation(many_primary_keys()))
    } else {
        Ok((declared(defs), keys(defs)[0], defs[keys(defs)[0]].autoincrement))
    }
}

/// The column list of a `CREATE TABLE` at `i`, checked for its primary key.
pub open spec fn create_columns_at(s: Seq<char>, i: int) -> Result<
    ((Seq<ColumnView>, int, bool), int),
    Failure,
> {
    match columns_at(s, i) {
        Some((defs, end)) => match keyed(defs) {
            Ok(columns) => Ok((columns, end)),
            Err(failure) => Err(failure),
        },
        None => Err(Failure::Syntax),
    }
}

/// Where `IF NOT EXISTS` ends, with the whitespace behind it, if it stands
/// at `i`.
pub open spec fn if_not_exists_end(s: Seq<char>, i: int) -> Option<int> {
    match keyword_end(s, i, "if"@) {
        Some(a) => match spaced_keyword_end(s, a, "not"@) {
            Some(b) => match spaced_keyword_end(s, b, "exists"@) {
                Some(c) => gap_end(s, c),
                None => None,
            },
            None => None,
        },
        None => None,
    }
}

/// The head of a `CREATE TABLE` at `i`, up to the first column definition:
/// whether `IF NOT EXISTS` is there, the table's name, and where the column
/// list starts.
pub open spec fn create_head_at(s: Seq<char>, i: int) -> Option<(bool, Seq<char>, int)> {
    match keyword_end(s, i, "create"@) {
        Some(a) => match spaced_keyword_end(s, a, "table"@) {
            Some(b) => match gap_end(s, b) {
                Some(c) => {
                    let guarded = if_not_exists_end(s, c);
                    let at = match guarded {
                        Some(d) => d,
                        None => c,
                    };
                    match quoted_ident_at(s, at) {
                        Some((name, e)) => match gap_end(s, e) {
                            Some(f) => if mark_at(s, f, '(') {
                                Some((guarded is Some, name, spaces_end(s, f + 1)))
                            } else {
                                None
                            },
                            None => None,
                        },
                        None => None,
                    }
                },
                None => None,
            },
            None => None,
        },
        None => None,
    }
}

/// Where a `CREATE TABLE` ends whose column list ends at `i`: behind the
/// `)` and the `;` that may follow it.
pub open spec fn create_tail_end(s: Seq<char>, i: int) -> Option<int> {
    if mark_at(s, spaces_end(s, i), ')') {
        Some(terminator_end(s, spaces_end(s, i) + 1))
    } else {
        None
    }
}

/// The `CREATE TABLE` statement at `i`. The primary key is checked as soon
/// as the column list is read, before the rest of the statement.
pub open spec fn create_at(s: Seq<char>, i: int) -> Result<(Statement, int), Failure> {
    match create_head_at(s, i) {
        Some((if_not_exists, name, body)) => match create_columns_at(s, body) {
            Ok(((columns, primary_key, autoincrement), end)) => match create_tail_end(s, end) {
                Some(done) => Ok(
                    (
                        Statement::Create {
                            table: TableView {
                                name,
                                columns,
                                rows: Seq::empty(),
                                primary_key,
                                autoincrement,
                            },
                            if_not_exists,
                        },
                        done,
                    ),
                ),
                None => Err(Failure::Syntax),
            },
            Err(failure) => Err(failure),
        },
        None => Err(Failure::Syntax),
    }
}

/// The message for a `SELECT` that asks for `DISTINCT` and `*`.
pub open spec fn distinct_on_all() -> Seq<char> {
    "cannot select distinct on *"@
}

/// `ALL` or `DISTINCT` at `i`, with the whitespace behind it: whether rows
/// are to be distinct, and where the field list starts. Neither of the two
/// need be there.
pub open spec fn modifier_at(s: Seq<char>, i: int) -> (bool, int) {
    if let Some(a) = keyword_end(s, i, "all"@) {
        match gap_end(s, a) {
            Some(b) => (false, b),
            None => (false, i),
        }
    } else if let Some(a) = keyword_end(s, i, "distinct"@) {
        match gap_end(s, a) {
            Some(b) => (true, b),
            None => (false, i),
        }
    } else {
        (false, i)
    }
}

/// The field list at `i`: `*` or a list of names.
pub open spec fn fields_at(s: Seq<char>, i: int) -> Option<(Fields, int)> {
    if mark_at(s, i, '*') {
        Some((Fields::All, i + 1))
    } else {
        match names_at(s, i) {
            Some((names, end)) => Some((Fields::Named(names), end)),
            None => None,
        }
    }
}

/// `FROM` and the table's name at `i`, with the whitespace around `FROM`.
pub open spec fn from_at(s: Seq<char>, i: int) -> Option<(Seq<char>, int)> {
    match spaced_keyword_end(s, i, "from"@) {
        Some(a) => match gap_end(s, a) {
            Some(b) => quoted_ident_at(s, b),
            None => None,
        },
        None => None,
    }
}

/// The `SELECT` statement at `i`. That `DISTINCT` does not go with `*` is
/// checked when the whole statement is read.
pub open spec fn select_at(s: Seq<char>, i: int) -> Result<(Statement, int), Failure> {
    match keyword_end(s, i, "select"@) {
        Some(a) => match gap_end(s, a) {
            Some(b) => match fields_at(s, modifier_at(s, b).1) {
                Some((fields, c)) => match from_at(s, c) {
                    Some((table, d)) => if fields is All && modifier_at(s, b).0 {
                        Err(Failure::Validation(distinct_on_all()))
                    } else {
                        Ok(
                            (
                                Statement::Select { table, fields, distinct: modifier_at(s, b).0 },
                                terminator_end(s, d),
                            ),
                        )
                    },
                    None => Err(Failure::Syntax),
                },
                None => Err(Failure::Syntax),
            },
            None => Err(Failure::Syntax),
        },
        None => Err(Failure::Syntax),
    }
}

/// The message for text that starts with `SELECT` and is no `SELECT`
/// statement.
pub open spec fn select_usage() -> Seq<char> {
    "expected SELECT [ALL|DISTINCT] (* | name (, name)*) FROM name [;]"@
}

/// The message for text that starts with `CREATE` and is no `CREATE TABLE`
/// statement.
pub open spec fn create_usage() -> Seq<char> {
    "expected CREATE TABLE [IF NOT EXISTS] name ( column-def (, column-def)* ) [;]"@
}

/// The message for text that does not start with a letter.
pub open spec fn empty_input() -> Seq<char> {
    "empty input"@
}

/// The message for text that starts with a word that names no statement.
pub open spec fn unrecognized_input() -> Seq<char> {
    "unrecognized input"@
}

/// Whether the letters that `s` starts with are the keyword `word`, in any
/// mix of upper and lower case.
pub open spec fn starts_with_word(s: Seq<char>, word: Seq<char>) -> bool {
    keyword_end(s, 0, word) == Some(run_end(s, CharClass::Letter, 0))
}

/// What is made of a statement that was read up to some position: it must
/// end where `s` ends. The message of a failure is that of the rule that was
/// broken, or else `usage`.
pub open spec fn whole(s: Seq<char>, found: Result<(Statement, int), Failure>, usage: Seq<char>)
    -> Result<Statement, Seq<char>> {
    match found {
        Ok((statement, end)) => if end == s.len() {
            Ok(statement)
        } else {
            Err(usage)
        },
        Err(Failure::Validation(message)) => Err(message),
        Err(Failure::Syntax) => Err(usage),
    }
}

/// The statement that `s` is, or the message that says why it is none. The
/// letters that `s` starts with choose the kind of statement, and `s` must
/// be that statement from its first character to its last.
pub open spec fn statement(s: Seq<char>) -> Result<Statement, Seq<char>> {
    if run_end(s, CharClass::Letter, 0) <= 0 {
        Err(empty_input())
    } else if starts_with_word(s, "select"@) {
        whole(s, select_at(s, 0), select_usage())
    } else if starts_with_word(s, "create"@) {
        whole(s, create_at(s, 0), create_usage())
    } else {
        Err(unrecognized_input())
    }
}

// Where clauses end: inside the sequence, and behind their start unless they
// may be empty.

/// Whitespace ends inside the sequence.
pub proof fn lemma_spaces_end(s: Seq<char>, i: int)
    ensures
        0 <= i <= s.len() ==> i <= spaces_end(s, i) <= s.len(),
        spaces_end(s, i) > i ==> 0 <= i < spaces_end(s, i) <= s.len(),
{
    if 0 <= i <= s.len() {
        lemma_run_end(s, CharClass::Space, i);
    }
}

/// An identifier is not empty and ends inside the sequence.
pub proof fn lemma_ident_end(s: Seq<char>, i: int)
    ensures
        ident_end(s, i) matches Some(end) ==> 0 <= i < end <= s.len(),
{
    if 0 <= i <= s.len() {
        lemma_run_end(s, CharClass::Word, i);
    }
}

/// A name is not empty and ends inside the sequence.
pub proof fn lemma_quoted_ident_at(s: Seq<char>, i: int)
    ensures
        quoted_ident_at(s, i) matches Some((name, end)) ==> 0 <= i < end <= s.len(),
{
    lemma_ident_end(s, i);
    lemma_ident_end(s, i + 1);
}

/// A literal value is not empty and ends inside the sequence.
pub proof fn lemma_value_at(s: Seq<char>, i: int)
    ensures
        value_at(s, i) matches Some((v, end)) ==> 0 <= i < end <= s.len(),
{
    if 0 <= i <= s.len() {
        lemma_run_end(s, CharClass::Digit, i);
        let point = run_end(s, CharClass::Digit, i);
        if point + 1 <= s.len() {
            lemma_run_end(s, CharClass::Digit, point + 1);
        }
    }
}

/// A constraint ends inside the sequence.
pub proof fn lemma_constraint_at(s: Seq<char>, i: int)
    ensures
        constraint_at(s, i) matches Some((c, end)) ==> 0 <= i <= end <= s.len(),
{
    if let Some(a) = keyword_end(s, i, "primary"@) {
        lemma_spaces_end(s, a);
        if let Some(b) = spaced_keyword_end(s, a, "key"@) {
            lemma_spaces_end(s, b);
        }
    }
    if let Some(a) = keyword_end(s, i, "default"@) {
        lemma_spaces_end(s, a);
        if let Some(b) = gap_end(s, a) {
            lemma_value_at(s, b);
        }
    }
    if let Some(a) = keyword_end(s, i, "not"@) {
        lemma_spaces_end(s, a);
    }
}

/// The constraints of a column definition end inside the sequence.
pub proof fn lemma_constraints_at(s: Seq<char>, i: int, def: ColumnDef, seen: Seen)
    requires
        0 <= i <= s.len(),
    ensures
        constraints_at(s, i, def, seen) matches Some((d, end)) ==> i <= end <= s.len(),
    decreases seen.unseen(),
{
    lemma_constraint_at(s, i);
    if let Some((c, end)) = constraint_at(s, i) {
        lemma_spaces_end(s, end);
        if !seen.has(c) && spaces_end(s, end) > end {
            lemma_constraints_at(s, spaces_end(s, end), def.with(c), seen.with(c));
        }
    }
}

/// A column definition is not empty and ends inside the sequence.
pub proof fn lemma_column_at(s: Seq<char>, i: int)
    ensures
        column_at(s, i) matches Some((d, end)) ==> 0 <= i < end <= s.len(),
{
    lemma_ident_end(s, i);
    if let Some(a) = ident_end(s, i) {
        lemma_spaces_end(s, a);
        if let Some(b) = gap_end(s, a) {
            if let Some((t, c)) = column_type_at(s, b) {
                lemma_spaces_end(s, c);
                lemma_constraints_at(
                    s,
                    spaces_end(s, c),
                    ColumnDef::plain(s.subrange(i, a), t),
                    Seen::nothing(),
                );
            }
        }
    }
}

/// A comma is not empty and ends inside the sequence.
pub proof fn lemma_comma_end(s: Seq<char>, i: int)
    ensures
        comma_end(s, i) matches Some(end) ==> 0 <= i < end <= s.len(),
{
    lemma_spaces_end(s, i);
    if 0 <= i <= s.len() {
        lemma_spaces_end(s, spaces_end(s, i) + 1);
    }
}

/// More digits denote no smaller number: the number that the first `n`
/// digits denote is at most the number that all of them denote.
pub proof fn lemma_decimal_grows(digits: Seq<char>, n: int)
    requires
        0 <= n <= digits.len(),
    ensures
        decimal(digits.take(n)) <= decimal(digits),
    decreases digits.len() - n,
{
    if n < digits.len() {
        lemma_decimal_grows(digits, n + 1);
        assert(digits.take(n + 1).drop_last() =~= digits.take(n));
    } else {
        assert(digits.take(n) =~= digits);
    }
}

/// The primary keys among the first definitions are the first of the
/// primary keys among them all.
pub proof fn lemma_keys_of_prefix(defs: Seq<ColumnDef>, n: int)
    requires
        0 <= n <= defs.len(),
    ensures
        keys(defs.take(n)).is_prefix_of(keys(defs)),
    decreases defs.len() - n,
{
    if n < defs.len() {
        lemma_keys_of_prefix(defs, n + 1);
        assert(defs.take(n + 1).drop_last() =~= defs.take(n));
    } else {
        assert(defs.take(n) =~= defs);
    }
}

// What holds of every statement.

/// A name that is read is an identifier: it is not empty, and made of
/// letters, digits and `_`.
pub proof fn lemma_name_is_identifier(s: Seq<char>, i: int)
    ensures
        quoted_ident_at(s, i) matches Some((name, _)) ==> name.len() > 0 && forall|j: int|
            0 <= j < name.len() ==> is_ident_char(#[trigger] name[j]),
{
    let from = if mark_at(s, i, '"') {
        i + 1
    } else {
        i
    };
    if ident_end(s, from) is Some {
        lemma_ident_end(s, from);
        lemma_run_end(s, CharClass::Word, from);
    }
}

/// Whether `literal` is digits, a point, and digits again, of which the
/// first are one or more.
pub open spec fn is_real_literal(literal: Seq<char>) -> bool {
    exists|point: int|
        0 < point < literal.len() && literal[point] == '.' && forall|j: int|
            0 <= j < literal.len() && j != point ==> is_digit(#[trigger] literal[j])
}

/// A literal that is read is a text that is not empty and holds no `'`, a
/// real in decimal notation, or an integer that is not negative. No literal
/// is a blob.
pub proof fn lemma_value_is_literal(s: Seq<char>, i: int)
    ensures
        value_at(s, i) matches Some((v, _)) ==> match v {
            ValueView::Integer(n) => n >= 0,
            ValueView::Text(t) => t.len() > 0 && !t.contains('\''),
            ValueView::Real(r) => is_real_literal(r),
            ValueView::Blob(_) => false,
        },
{
    if let Some((v, end)) = value_at(s, i) {
        lemma_value_at(s, i);
        match v {
            ValueView::Text(t) => {
                lemma_run_end(s, CharClass::Unquoted, i + 1);
                if t.contains('\'') {
                    let j = choose|j: int| 0 <= j < t.len() && t[j] == '\'';
                    assert(in_class(CharClass::Unquoted, s[i + 1 + j]));
                }
            },
            ValueView::Real(r) => {
                lemma_run_end(s, CharClass::Digit, i);
                let point = run_end(s, CharClass::Digit, i);
                lemma_run_end(s, CharClass::Digit, point + 1);
                assert(r[point - i] == '.');
                assert forall|j: int| 0 <= j < r.len() && j != point - i implies is_digit(
                    #[trigger] r[j],
                ) by {
                    assert(in_class(CharClass::Digit, s[i + j]));
                }
            },
            _ => {},
        }
    }
}

/// The keys are the positions of the definitions that are marked as the
/// primary key, and no others.
pub proof fn lemma_keys_are_the_marked(defs: Seq<ColumnDef>)
    ensures
        forall|q: int|
            keys(defs).contains(q) <==> (0 <= q < defs.len() && (#[trigger] defs[q]).primary_key),
    decreases defs.len(),
{
    if defs.len() > 0 {
        let before = defs.drop_last();
        let last = defs.len() - 1;
        lemma_keys_are_the_marked(before);
        assert forall|q: int|
            keys(defs).contains(q) <==> (0 <= q < defs.len() && (#[trigger] defs[q]).primary_key) by {
            if 0 <= q < last {
                assert(before[q] == defs[q]);
            }
            if defs.last().primary_key {
                assert(keys(defs) == keys(before).push(last));
                if keys(before).contains(q) {
                    let k = choose|k: int| 0 <= k < keys(before).len() && keys(before)[k] == q;
                    assert(keys(defs)[k] == q);
                }
                if q == last {
                    assert(keys(defs)[keys(before).len() as int] == q);
                }
                if keys(defs).contains(q) && q != last {
                    let k = choose|k: int| 0 <= k < keys(defs).len() && keys(defs)[k] == q;
                    assert(keys(before)[k] == q);
                }
            }
        }
    }
}

/// Where no definition is marked as the primary key, there are no keys.
pub proof fn lemma_keys_none(defs: Seq<ColumnDef>)
    requires
        forall|q: int| 0 <= q < defs.len() ==> !(#[trigger] defs[q]).primary_key,
    ensures
        keys(defs) == Seq::<int>::empty(),
    decreases defs.len(),
{
    if defs.len() > 0 {
        lemma_keys_none(defs.drop_last());
    }
}

/// A definition that is marked as the primary key is among the keys.
pub proof fn lemma_keys_holds(defs: Seq<ColumnDef>, p: int)
    requires
        0 <= p < defs.len(),
        defs[p].primary_key,
    ensures
        keys(defs).len() >= 1,
    decreases defs.len(),
{
    if p < defs.len() - 1 {
        lemma_keys_holds(defs.drop_last(), p);
    }
}

/// Where the definition at `p` is marked as the primary key and no other is,
/// `p` is the one key.
pub proof fn lemma_keys_one(defs: Seq<ColumnDef>, p: int)
    requires
        0 <= p < defs.len(),
        forall|q: int| 0 <= q < defs.len() ==> ((#[trigger] defs[q]).primary_key <==> q == p),
    ensures
        keys(defs) == seq![p],
    decreases defs.len(),
{
    if p == defs.len() - 1 {
        lemma_keys_none(defs.drop_last());
    } else {
        lemma_keys_one(defs.drop_last(), p);
    }
}

/// Where two definitions are marked as the primary key, there are two keys
/// or more.
pub proof fn lemma_keys_two(defs: Seq<ColumnDef>, p: int, q: int)
    requires
        0 <= p < q < defs.len(),
        defs[p].primary_key,
        defs[q].primary_key,
    ensures
        keys(defs).len() >= 2,
    decreases defs.len(),
{
    lemma_keys_holds(defs.drop_last(), p);
    if q < defs.len() - 1 {
        lemma_keys_two(defs.drop_last(), p, q);
    }
}

/// A keyword made of letters that stands at the start of `s`, with no letter
/// behind it, is the word that `s` starts with.
pub proof fn lemma_starts_with_word(s: Seq<char>, word: Seq<char>)
    requires
        keyword_end(s, 0, word) is Some,
        word.len() > 0,
        forall|j: int| 0 <= j < word.len() ==> is_letter(#[trigger] word[j]),
        word.len() < s.len() ==> !is_letter(s[word.len() as int]),
    ensures
        starts_with_word(s, word),
        run_end(s, CharClass::Letter, 0) > 0,
{
    let n = word.len() as int;
    assert forall|j: int| 0 <= j < n implies in_class(CharClass::Letter, #[trigger] s[j]) by {
        assert(lowered(s.subrange(0, n))[j] == lowered(word)[j]);
        assert(lower(s[j]) == lower(word[j]));
        assert(is_letter(word[j]));
    }
    lemma_run_end_is(s, CharClass::Letter, 0, n);
}

/// A statement that has the head of a `CREATE TABLE` starts with the word
/// `CREATE`, and not with `SELECT`.
pub proof fn lemma_create_is_chosen(s: Seq<char>)
    requires
        create_head_at(s, 0) is Some,
    ensures
        run_end(s, CharClass::Letter, 0) > 0,
        starts_with_word(s, "create"@),
        !starts_with_word(s, "select"@),
{
    reveal_strlit("create");
    reveal_strlit("select");
    let a = keyword_end(s, 0, "create"@).unwrap();
    lemma_spaces_end(s, a);
    assert(in_class(CharClass::Space, s[a]));
    lemma_starts_with_word(s, "create"@);
    if keyword_end(s, 0, "select"@) is Some {
        assert(lowered(s.subrange(0, 6))[0] == lowered("select"@)[0]);
        assert(lowered(s.subrange(0, 6))[0] == lowered("create"@)[0]);
    }
}

/// A statement that starts with `SELECT` and whitespace starts with the word
/// `SELECT`.
pub proof fn lemma_select_is_chosen(s: Seq<char>)
    requires
        keyword_end(s, 0, "select"@) matches Some(a) && gap_end(s, a) is Some,
    ensures
        run_end(s, CharClass::Letter, 0) > 0,
        starts_with_word(s, "select"@),
{
    reveal_strlit("select");
    let a = keyword_end(s, 0, "select"@).unwrap();
    lemma_spaces_end(s, a);
    assert(in_class(CharClass::Space, s[a]));
    lemma_starts_with_word(s, "select"@);
}

/// A `CREATE TABLE` statement in which exactly one column definition is
/// marked as the primary key is parsed, and the primary key of its table is
/// the position of that definition. Here `p` is that position.
pub proof fn lemma_one_primary_key(s: Seq<char>, p: int)
    requires
        create_head_at(s, 0) matches Some((_, _, body)) && columns_at(s, body) matches Some(
            (defs, end),
        ) && create_tail_end(s, end) == Some(s.len() as int) && 0 <= p < defs.len() && forall|
            q: int,
        |
            0 <= q < defs.len() ==> ((#[trigger] defs[q]).primary_key <==> q == p),
    ensures
        statement(s) matches Ok(Statement::Create { table, if_not_exists }) && table.primary_key
            == p && table.has_primary_key() && ({
            let (guarded, name, body) = create_head_at(s, 0).unwrap();
            let defs = columns_at(s, body).unwrap().0;
            &&& if_not_exists == guarded
            &&& table.name == name
            &&& table.columns == declared(defs)
            &&& table.autoincrement == defs[p].autoincrement
            &&& table.rows.len() == 0
        }),
{
    let (guarded, name, body) = create_head_at(s, 0).unwrap();
    let (defs, end) = columns_at(s, body).unwrap();
    lemma_create_is_chosen(s);
    lemma_keys_one(defs, p);
}

/// A `CREATE TABLE` statement in which no column definition is marked as the
/// primary key is not parsed, whatever follows its column list.
pub proof fn lemma_no_primary_key(s: Seq<char>)
    requires
        create_head_at(s, 0) matches Some((_, _, body)) && columns_at(s, body) matches Some(
            (defs, _),
        ) && forall|q: int| 0 <= q < defs.len() ==> !(#[trigger] defs[q]).primary_key,
    ensures
        statement(s) == Err::<Statement, Seq<char>>(no_primary_key()),
{
    let (guarded, name, body) = create_head_at(s, 0).unwrap();
    let (defs, end) = columns_at(s, body).unwrap();
    lemma_create_is_chosen(s);
    lemma_keys_none(defs);
}

/// A `CREATE TABLE` statement in which two column definitions or more are
/// marked as the primary key is not parsed, whatever follows its column
/// list. Here `p` and `q` are the positions of two of them.
pub proof fn lemma_many_primary_keys(s: Seq<char>, p: int, q: int)
    requires
        create_head_at(s, 0) matches Some((_, _, body)) && columns_at(s, body) matches Some(
            (defs, _),
        ) && 0 <= p < q < defs.len() && defs[p].primary_key && defs[q].primary_key,
    ensures
        statement(s) == Err::<Statement, Seq<char>>(many_primary_keys()),
{
    let (guarded, name, body) = create_head_at(s, 0).unwrap();
    let (defs, end) = columns_at(s, body).unwrap();
    lemma_create_is_chosen(s);
    lemma_keys_two(defs, p, q);
}

/// The table of a parsed `CREATE TABLE` has no rows, and its primary key is
/// the one column whose definition is marked as the primary key.
pub proof fn lemma_created_table(s: Seq<char>)
    requires
        statement(s) matches Ok(Statement::Create { .. }),
    ensures
        statement(s) matches Ok(Statement::Create { table, .. }) && table.has_primary_key()
            && table.rows.len() == 0 && table.rows_fit() && ({
            let defs = columns_at(s, create_head_at(s, 0).unwrap().2).unwrap().0;
            &&& table.columns == declared(defs)
            &&& forall|q: int|
                0 <= q < defs.len() ==> ((#[trigger] defs[q]).primary_key <==> q
                    == table.primary_key)
        }),
{
    if !starts_with_word(s, "select"@) {
        let defs = columns_at(s, create_head_at(s, 0).unwrap().2).unwrap().0;
        lemma_keys_are_the_marked(defs);
        assert(keys(defs).contains(keys(defs)[0]));
        assert forall|q: int| 0 <= q < defs.len() && (#[trigger] defs[q]).primary_key implies q
            == keys(defs)[0] by {
            assert(keys(defs).contains(q));
        }
    }
}

/// A parsed `SELECT` does not ask for `DISTINCT` and `*` at once.
pub proof fn lemma_selected_fields(s: Seq<char>)
    requires
        statement(s) matches Ok(Statement::Select { .. }),
    ensures
        statement(s) matches Ok(Statement::Select { fields, distinct, .. }) && !(fields is All
            && distinct),
{
}

/// A column definition holds each kind of constraint once at most: where a
/// constraint of a kind that was seen stands next, there is no definition.
pub proof fn lemma_repeated_constraint(s: Seq<char>, i: int, def: ColumnDef, seen: Seen)
    requires
        constraint_at(s, i) matches Some((c, _)) && seen.has(c),
    ensures
        constraints_at(s, i, def, seen) is None,
{
}

/// A `SELECT` that asks for `DISTINCT` and `*` is not parsed, whatever
/// follows the name of its table.
pub proof fn lemma_distinct_on_all(s: Seq<char>)
    requires
        keyword_end(s, 0, "select"@) matches Some(a) && gap_end(s, a) matches Some(b)
            && modifier_at(s, b).0 && (fields_at(s, modifier_at(s, b).1) matches Some((fields, c))
            && fields is All && from_at(s, c) is Some),
    ensures
        statement(s) == Err::<Statement, Seq<char>>(distinct_on_all()),
{
    lemma_select_is_chosen(s);
}

/// A statement is parsed only if it ends where the input ends: text behind
/// a statement makes the parse fail.
pub proof fn lemma_whole_input(s: Seq<char>)
    requires
        statement(s) is Ok,
    ensures
        (select_at(s, 0) matches Ok((_, end)) && end == s.len()) || (create_at(s, 0) matches Ok(
            (_, end),
        ) && end == s.len()),
{
}

} // verus!
