//! The parser: executable recognizers for the clauses of the grammar, each
//! proved to find what the grammar says stands at a position, and the
//! statements they make up.

use crate::database::{columns_view, Column, ColumnType, ColumnView, Table, Value};
use crate::error::SQLitError;
use crate::grammar::{
    column_at, column_type_at, columns_at, comma_end, constraint_at, constraints_at, create_at,
    create_columns_at, create_head_at, create_tail_end, decimal, declared, digit_value, fields_at,
    from_at, gap_end, ident_end, if_not_exists_end, keys, keyword_end, lemma_column_at,
    lemma_comma_end, lemma_decimal_grows, lemma_keys_of_prefix, lemma_quoted_ident_at, mark_at,
    modifier_at, more_columns, more_names, names_at, quoted_ident_at, select_at,
    spaced_keyword_end, statement, terminator_end, value_at, ColumnDef, Constraint, Failure,
    Fields, Seen, Statement,
};
use crate::text::{
    is_digit, lemma_run_end, lowered, scan, text_of, to_chars, to_lower, trim_bounds, trimmed,
    CharClass,
};
use vstd::prelude::*;
use vstd::slice::slice_subrange;
use vstd::string::StrSliceExecFns;

verus! {

/// Why a statement was not parsed.
#[derive(Debug, PartialEq)]
pub enum QueryError {
    /// The text follows the grammar and breaks a rule of its statement; the
    /// message names the rule.
    Validation(String),
    /// The text does not follow the grammar.
    Syntax,
}

impl View for QueryError {
    type V = Failure;

    open spec fn view(&self) -> Failure {
        match self {
            QueryError::Validation(message) => Failure::Validation(message@),
            QueryError::Syntax => Failure::Syntax,
        }
    }
}

/// The position that a recognizer found, as the grammar counts it.
pub open spec fn place(found: Option<usize>) -> Option<int> {
    match found {
        Some(end) => Some(end as int),
        None => None,
    }
}

/// Matches `word` at `start` without regard to case, and yields its lower-case
/// form and where the match ends.
pub fn keyword(input: &[char], start: usize, word: &str) -> (found: Option<(String, usize)>)
    ensures
        match found {
            Some((canonical, end)) => keyword_end(input@, start as int, word@) == Some(end as int)
                && canonical@ == lowered(word@),
            None => keyword_end(input@, start as int, word@) is None,
        },
{
    let n = word.unicode_len();
    if start > input.len() || input.len() - start < n {
        return None;
    }
    let ghost matched = input@.subrange(start as int, start + n);
    let mut canonical = String::new();
    let mut j: usize = 0;
    while j < n
        invariant
            j <= n,
            n == word@.len(),
            start + n <= input@.len() <= usize::MAX,
            matched == input@.subrange(start as int, start + n),
            canonical@ == lowered(word@.take(j as int)),
            lowered(matched.take(j as int)) == lowered(word@.take(j as int)),
        decreases n - j,
    {
        let low = to_lower(word.get_char(j));
        if to_lower(input[start + j]) != low {
            assert(lowered(matched)[j as int] != lowered(word@)[j as int]);
            return None;
        }
        canonical.push(low);
        proof {
            assert(lowered(word@.take(j + 1)) =~= lowered(word@.take(j as int)).push(low));
            assert(lowered(matched.take(j + 1)) =~= lowered(matched.take(j as int)).push(low));
        }
        j += 1;
    }
    proof {
        assert(word@.take(n as int) =~= word@);
        assert(matched.take(n as int) =~= matched);
    }
    Some((canonical, start + n))
}

/// Matches one or more characters of whitespace at `start`.
pub fn gap(input: &[char], start: usize) -> (found: Option<usize>)
    ensures
        place(found) == gap_end(input@, start as int),
{
    let end = scan(input, CharClass::Space, start);
    if end > start {
        Some(end)
    } else {
        None
    }
}

/// Matches whitespace at `start` and `word` behind it.
pub fn spaced_keyword(input: &[char], start: usize, word: &str) -> (found: Option<usize>)
    ensures
        place(found) == spaced_keyword_end(input@, start as int, word@),
{
    match gap(input, start) {
        Some(at) => match keyword(input, at, word) {
            Some((_, end)) => Some(end),
            None => None,
        },
        None => None,
    }
}

/// Matches an identifier at `start`: letters, digits and `_`, one or more.
pub fn ident(input: &[char], start: usize) -> (found: Option<usize>)
    ensures
        place(found) == ident_end(input@, start as int),
{
    let end = scan(input, CharClass::Word, start);
    if end > start {
        Some(end)
    } else {
        None
    }
}

/// Whether `c` stands at `at`.
pub fn mark(input: &[char], at: usize, c: char) -> (there: bool)
    ensures
        there == mark_at(input@, at as int, c),
        there ==> at < usize::MAX,
{
    at < input.len() && input[at] == c
}

/// Matches a name at `start`: an identifier that may have a `"` in front of
/// it and may have one behind it. Yields the identifier and where the match
/// ends.
pub fn quoted_ident(input: &[char], start: usize) -> (found: Option<(String, usize)>)
    ensures
        match found {
            Some((name, end)) => quoted_ident_at(input@, start as int) == Some(
                (name@, end as int),
            ),
            None => quoted_ident_at(input@, start as int) is None,
        },
{
    let from = if mark(input, start, '"') {
        start + 1
    } else {
        start
    };
    match ident(input, from) {
        Some(to) => {
            proof {
                lemma_run_end(input@, CharClass::Word, from as int);
            }
            let name = text_of(input, from, to);
            let end = if mark(input, to, '"') {
                to + 1
            } else {
                to
            };
            Some((name, end))
        },
        None => None,
    }
}

/// Reads the digits from `from` up to `to` as a decimal number, if an `i64`
/// holds it.
pub fn integer(input: &[char], from: usize, to: usize) -> (number: Option<i64>)
    requires
        from <= to <= input@.len(),
        forall|i: int| from <= i < to ==> is_digit(#[trigger] input@[i]),
    ensures
        match number {
            Some(n) => n == decimal(input@.subrange(from as int, to as int)),
            None => decimal(input@.subrange(from as int, to as int)) > i64::MAX,
        },
{
    let ghost digits = input@.subrange(from as int, to as int);
    let mut n: i64 = 0;
    let mut i: usize = from;
    while i < to
        invariant
            from <= i <= to <= input@.len(),
            digits == input@.subrange(from as int, to as int),
            forall|k: int| from <= k < to ==> is_digit(#[trigger] input@[k]),
            0 <= n,
            n == decimal(digits.take(i - from)),
        decreases to - i,
    {
        let c = input[i];
        assert(is_digit(c));
        let digit: i64 = ((c as u8) - 48) as i64;
        proof {
            assert(digits.take(i - from + 1).drop_last() =~= digits.take(i - from));
            assert(digits.take(i - from + 1).last() == c);
            assert(digit == digit_value(c));
            lemma_decimal_grows(digits, i - from + 1);
        }
        if n > 922337203685477580 || (n == 922337203685477580 && digit > 7) {
            return None;
        }
        n = n * 10 + digit;
        i += 1;
    }
    proof {
        assert(digits.take(to - from) =~= digits);
    }
    Some(n)
}

/// Matches a literal value at `start`: a text between single quotes, a real
/// or an integer.
pub fn value(input: &[char], start: usize) -> (found: Option<(Value, usize)>)
    ensures
        match found {
            Some((v, end)) => value_at(input@, start as int) == Some((v@, end as int)),
            None => value_at(input@, start as int) is None,
        },
{
    if mark(input, start, '\'') {
        let close = scan(input, CharClass::Unquoted, start + 1);
        proof {
            lemma_run_end(input@, CharClass::Unquoted, start + 1);
            lemma_run_end(input@, CharClass::Digit, start as int);
        }
        if close > start + 1 && mark(input, close, '\'') {
            Some((Value::Text(text_of(input, start + 1, close)), close + 1))
        } else {
            None
        }
    } else {
        let point = scan(input, CharClass::Digit, start);
        if point <= start {
            return None;
        }
        proof {
            lemma_run_end(input@, CharClass::Digit, start as int);
        }
        if mark(input, point, '.') {
            let end = scan(input, CharClass::Digit, point + 1);
            proof {
                lemma_run_end(input@, CharClass::Digit, point + 1);
            }
            Some((Value::Real(text_of(input, start, end)), end))
        } else {
            match integer(input, start, point) {
                Some(n) => Some((Value::Integer(n), point)),
                None => None,
            }
        }
    }
}

/// Matches the type of a column at `start`.
pub fn column_type(input: &[char], start: usize) -> (found: Option<(ColumnType, usize)>)
    ensures
        match found {
            Some((t, end)) => column_type_at(input@, start as int) == Some((t, end as int)),
            None => column_type_at(input@, start as int) is None,
        },
{
    if let Some((_, end)) = keyword(input, start, "integer") {
        Some((ColumnType::Integer, end))
    } else if let Some((_, end)) = keyword(input, start, "real") {
        Some((ColumnType::Real, end))
    } else if let Some((_, end)) = keyword(input, start, "text") {
        Some((ColumnType::Text, end))
    } else if let Some((_, end)) = keyword(input, start, "blob") {
        Some((ColumnType::Blob, end))
    } else {
        None
    }
}

/// A constraint of a column definition, as the parser finds it.
#[derive(Debug)]
pub enum ColumnConstraint {
    PrimaryKey { autoincrement: bool },
    Default(Value),
    NotNull,
    Unique,
}

impl View for ColumnConstraint {
    type V = Constraint;

    open spec fn view(&self) -> Constraint {
        match self {
            ColumnConstraint::PrimaryKey { autoincrement } => Constraint::PrimaryKey {
                autoincrement: *autoincrement,
            },
            ColumnConstraint::Default(v) => Constraint::Default(v@),
            ColumnConstraint::NotNull => Constraint::NotNull,
            ColumnConstraint::Unique => Constraint::Unique,
        }
    }
}

/// Matches one constraint at `start`.
pub fn constraint(input: &[char], start: usize) -> (found: Option<(ColumnConstraint, usize)>)
    ensures
        match found {
            Some((c, end)) => constraint_at(input@, start as int) == Some((c@, end as int)),
            None => constraint_at(input@, start as int) is None,
        },
{
    if let Some((_, a)) = keyword(input, start, "primary") {
        if let Some(b) = spaced_keyword(input, a, "key") {
            return match spaced_keyword(input, b, "autoincrement") {
                Some(c) => Some((ColumnConstraint::PrimaryKey { autoincrement: true }, c)),
                None => Some((ColumnConstraint::PrimaryKey { autoincrement: false }, b)),
            };
        }
    }
    if let Some((_, a)) = keyword(input, start, "default") {
        if let Some(b) = gap(input, a) {
            if let Some((v, end)) = value(input, b) {
                return Some((ColumnConstraint::Default(v), end));
            }
        }
    }
    if let Some((_, a)) = keyword(input, start, "not") {
        if let Some(b) = spaced_keyword(input, a, "null") {
            return Some((ColumnConstraint::NotNull, b));
        }
    }
    if let Some((_, a)) = keyword(input, start, "unique") {
        return Some((ColumnConstraint::Unique, a));
    }
    None
}

/// Matches a column definition at `start`: a name, a type, and constraints
/// in any order, each kind once at most. Yields the column, whether it is
/// marked as the primary key, and whether that key counts up by itself.
pub fn column(input: &[char], start: usize) -> (found: Option<((Column, bool, bool), usize)>)
    ensures
        match found {
            Some(((column, primary_key, autoincrement), end)) => column_at(input@, start as int)
                == Some((ColumnDef { column: column@, primary_key, autoincrement }, end as int)),
            None => column_at(input@, start as int) is None,
        },
{
    let name_end = match ident(input, start) {
        Some(end) => end,
        None => return None,
    };
    let type_start = match gap(input, name_end) {
        Some(end) => end,
        None => return None,
    };
    let (t, type_end) = match column_type(input, type_start) {
        Some(found) => found,
        None => return None,
    };
    proof {
        lemma_run_end(input@, CharClass::Word, start as int);
    }
    let mut column = Column {
        name: text_of(input, start, name_end),
        t,
        default: None,
        allow_null: true,
        unique: false,
    };
    let mut primary_key = false;
    let mut autoincrement = false;
    let mut seen = Seen { primary_key: false, default: false, not_null: false, unique: false };
    let mut at = scan(input, CharClass::Space, type_end);
    loop
        invariant
            column_at(input@, start as int) == constraints_at(
                input@,
                at as int,
                ColumnDef { column: column@, primary_key, autoincrement },
                seen,
            ),
        decreases seen.unseen(),
    {
        let (c, end) = match constraint(input, at) {
            Some(found) => found,
            None => return Some(((column, primary_key, autoincrement), at)),
        };
        let ghost def = ColumnDef { column: column@, primary_key, autoincrement };
        let ghost before = seen;
        match c {
            ColumnConstraint::PrimaryKey { autoincrement: counts } => {
                if seen.primary_key {
                    return None;
                }
                seen.primary_key = true;
                primary_key = true;
                autoincrement = counts;
            },
            ColumnConstraint::Default(v) => {
                if seen.default {
                    return None;
                }
                seen.default = true;
                column.default = Some(v);
            },
            ColumnConstraint::NotNull => {
                if seen.not_null {
                    return None;
                }
                seen.not_null = true;
                column.allow_null = false;
            },
            ColumnConstraint::Unique => {
                if seen.unique {
                    return None;
                }
                seen.unique = true;
                column.unique = true;
            },
        }
        assert(ColumnDef { column: column@, primary_key, autoincrement } == def.with(c@));
        assert(seen == before.with(c@));
        let next = scan(input, CharClass::Space, end);
        if next > end {
            at = next;
        } else {
            return Some(((column, primary_key, autoincrement), end));
        }
    }
}

/// Matches a comma at `start`, with the whitespace around it.
pub fn comma(input: &[char], start: usize) -> (found: Option<usize>)
    ensures
        place(found) == comma_end(input@, start as int),
{
    let at = scan(input, CharClass::Space, start);
    if mark(input, at, ',') {
        Some(scan(input, CharClass::Space, at + 1))
    } else {
        None
    }
}

/// Matches the `;` that may close a statement at `start`, with the
/// whitespace in front of it.
pub fn terminator(input: &[char], start: usize) -> (end: usize)
    ensures
        end == terminator_end(input@, start as int),
{
    let at = scan(input, CharClass::Space, start);
    if mark(input, at, ';') {
        at + 1
    } else {
        start
    }
}

/// The definitions that a list of columns and a list of their marks stand
/// for: a mark says whether the column is a primary key, and whether that
/// key counts up by itself.
pub open spec fn defs_of(columns: Seq<Column>, marks: Seq<(bool, bool)>) -> Seq<ColumnDef> {
    Seq::new(
        columns.len(),
        |i: int|
            ColumnDef { column: columns[i]@, primary_key: marks[i].0, autoincrement: marks[i].1 },
    )
}

/// Matches the column list of a `CREATE TABLE` at `start`, and checks that
/// exactly one column is marked as the primary key. Yields the columns, the
/// position of the primary key among them, and whether it counts up by
/// itself.
pub fn parse_create_columns(input: &[char], start: usize) -> (found: Result<
    ((Vec<Column>, usize, bool), usize),
    QueryError,
>)
    ensures
        match found {
            Ok(((columns, primary_key, autoincrement), end)) => create_columns_at(
                input@,
                start as int,
            ) == Ok::<((Seq<ColumnView>, int, bool), int), Failure>(
                ((columns_view(columns@), primary_key as int, autoincrement), end as int),
            ),
            Err(failure) => create_columns_at(input@, start as int) == Err::<
                ((Seq<ColumnView>, int, bool), int),
                Failure,
            >(failure@),
        },
{
    let ((first, first_key, first_counts), first_end) = match column(input, start) {
        Some(found) => found,
        None => return Err(QueryError::Syntax),
    };
    let mut columns: Vec<Column> = Vec::new();
    let mut marks: Vec<(bool, bool)> = Vec::new();
    columns.push(first);
    marks.push((first_key, first_counts));
    let mut at = first_end;
    proof {
        lemma_column_at(input@, start as int);
        assert(defs_of(columns@, marks@) =~= seq![
            ColumnDef { column: first@, primary_key: first_key, autoincrement: first_counts },
        ]);
    }
    loop
        invariant_except_break
            at <= input@.len(),
            columns@.len() == marks@.len(),
            columns_at(input@, start as int) == Some(
                more_columns(input@, at as int, defs_of(columns@, marks@)),
            ),
        ensures
            columns@.len() == marks@.len(),
            columns_at(input@, start as int) == Some((defs_of(columns@, marks@), at as int)),
        decreases input@.len() - at,
    {
        let next = match comma(input, at) {
            Some(next) => next,
            None => break ,
        };
        let ((c, key, counts), end) = match column(input, next) {
            Some(found) => found,
            None => break ,
        };
        proof {
            lemma_comma_end(input@, at as int);
            lemma_column_at(input@, next as int);
            assert(defs_of(columns@.push(c), marks@.push((key, counts))) =~= defs_of(
                columns@,
                marks@,
            ).push(ColumnDef { column: c@, primary_key: key, autoincrement: counts }));
        }
        columns.push(c);
        marks.push((key, counts));
        at = end;
    }
    let ghost defs = defs_of(columns@, marks@);
    let mut primary_key: Option<usize> = None;
    let mut autoincrement = false;
    let mut k: usize = 0;
    while k < marks.len()
        invariant
            k <= marks@.len() == columns@.len(),
            defs == defs_of(columns@, marks@),
            columns_at(input@, start as int) == Some((defs, at as int)),
            match primary_key {
                Some(p) => p < k && keys(defs.take(k as int)) == seq![p as int] && autoincrement
                    == defs[p as int].autoincrement,
                None => keys(defs.take(k as int)) == Seq::<int>::empty(),
            },
        decreases marks@.len() - k,
    {
        proof {
            assert(defs.take(k + 1).drop_last() =~= defs.take(k as int));
            lemma_keys_of_prefix(defs, k + 1);
        }
        if marks[k].0 {
            if primary_key.is_some() {
                return Err(
                    QueryError::Validation("only one primary key may be specified".to_owned()),
                );
            }
            primary_key = Some(k);
            autoincrement = marks[k].1;
        }
        k += 1;
    }
    proof {
        assert(defs.take(k as int) =~= defs);
        assert(columns_view(columns@) =~= declared(defs));
    }
    match primary_key {
        Some(p) => Ok(((columns, p, autoincrement), at)),
        None => Err(QueryError::Validation("no primary key specified".to_owned())),
    }
}

/// The columns that a `SELECT` asks for.
#[derive(Debug, PartialEq)]
pub enum SelectFields {
    /// `*`: every column.
    All,
    /// The columns named, in the order in which the statement names them.
    Named(Vec<String>),
}

/// What a list of names is to the contracts.
pub open spec fn names_view(names: Seq<String>) -> Seq<Seq<char>> {
    Seq::new(names.len(), |i: int| names[i]@)
}

impl View for SelectFields {
    type V = Fields;

    open spec fn view(&self) -> Fields {
        match self {
            SelectFields::All => Fields::All,
            SelectFields::Named(names) => Fields::Named(names_view(names@)),
        }
    }
}

/// A parsed statement.
#[derive(Debug)]
#[allow(inconsistent_fields)]
pub enum Query {
    /// `CREATE TABLE`: the table, without rows, and whether the statement
    /// holds `IF NOT EXISTS`.
    Create { table: Table, if_not_exists: bool },
    /// `SELECT`: the name of the table, the columns asked for, and whether
    /// the statement holds `DISTINCT`.
    Select { table: String, fields: SelectFields, distinct: bool },
}

impl View for Query {
    type V = Statement;

    open spec fn view(&self) -> Statement {
        match self {
            Query::Create { table, if_not_exists } => Statement::Create {
                table: table@,
                if_not_exists: *if_not_exists,
            },
            Query::Select { table, fields, distinct } => Statement::Select {
                table: table@,
                fields: fields@,
                distinct: *distinct,
            },
        }
    }
}

/// Matches `IF NOT EXISTS` at `start`, with the whitespace behind it.
pub fn if_not_exists(input: &[char], start: usize) -> (found: Option<usize>)
    ensures
        place(found) == if_not_exists_end(input@, start as int),
{
    let a = match keyword(input, start, "if") {
        Some((_, end)) => end,
        None => return None,
    };
    let b = match spaced_keyword(input, a, "not") {
        Some(end) => end,
        None => return None,
    };
    let c = match spaced_keyword(input, b, "exists") {
        Some(end) => end,
        None => return None,
    };
    gap(input, c)
}

/// Matches a `CREATE TABLE` statement at `start` and builds its table. The
/// statement may end before the input does.
pub fn parse_create(input: &[char], start: usize) -> (found: Result<(Query, usize), QueryError>)
    ensures
        match found {
            Ok((query, end)) => create_at(input@, start as int) == Ok::<(Statement, int), Failure>(
                (query@, end as int),
            ),
            Err(failure) => create_at(input@, start as int) == Err::<(Statement, int), Failure>(
                failure@,
            ),
        },
{
    let a = match keyword(input, start, "create") {
        Some((_, end)) => end,
        None => return Err(QueryError::Syntax),
    };
    let b = match spaced_keyword(input, a, "table") {
        Some(end) => end,
        None => return Err(QueryError::Syntax),
    };
    let c = match gap(input, b) {
        Some(end) => end,
        None => return Err(QueryError::Syntax),
    };
    let guarded = if_not_exists(input, c);
    let at = match guarded {
        Some(end) => end,
        None => c,
    };
    let (name, e) = match quoted_ident(input, at) {
        Some(found) => found,
        None => return Err(QueryError::Syntax),
    };
    let f = match gap(input, e) {
        Some(end) => end,
        None => return Err(QueryError::Syntax),
    };
    if !mark(input, f, '(') {
        return Err(QueryError::Syntax);
    }
    let body = scan(input, CharClass::Space, f + 1);
    assert(create_head_at(input@, start as int) == Some((guarded is Some, name@, body as int)));
    let ((columns, primary_key, autoincrement), end) = match parse_create_columns(input, body) {
        Ok(found) => found,
        Err(failure) => return Err(failure),
    };
    let close = scan(input, CharClass::Space, end);
    if !mark(input, close, ')') {
        return Err(QueryError::Syntax);
    }
    let done = terminator(input, close + 1);
    assert(create_tail_end(input@, end as int) == Some(done as int));
    let table = Table::new(name, columns, primary_key, autoincrement);
    Ok((Query::Create { table, if_not_exists: guarded.is_some() }, done))
}

/// Matches `ALL` or `DISTINCT` at `start`, with the whitespace behind it.
/// Yields whether rows are to be distinct, and where the field list starts.
pub fn modifier(input: &[char], start: usize) -> (found: (bool, usize))
    ensures
        modifier_at(input@, start as int) == (found.0, found.1 as int),
{
    if let Some((_, a)) = keyword(input, start, "all") {
        match gap(input, a) {
            Some(b) => (false, b),
            None => (false, start),
        }
    } else if let Some((_, a)) = keyword(input, start, "distinct") {
        match gap(input, a) {
            Some(b) => (true, b),
            None => (false, start),
        }
    } else {
        (false, start)
    }
}

/// Matches a list of names at `start`: one or more, with commas between
/// them.
pub fn names(input: &[char], start: usize) -> (found: Option<(Vec<String>, usize)>)
    ensures
        match found {
            Some((names, end)) => names_at(input@, start as int) == Some(
                (names_view(names@), end as int),
            ),
            None => names_at(input@, start as int) is None,
        },
{
    let (first, first_end) = match quoted_ident(input, start) {
        Some(found) => found,
        None => return None,
    };
    let mut names: Vec<String> = Vec::new();
    names.push(first);
    let mut at = first_end;
    proof {
        lemma_quoted_ident_at(input@, start as int);
        assert(names_view(names@) =~= seq![first@]);
    }
    loop
        invariant_except_break
            at <= input@.len(),
            names_at(input@, start as int) == Some(
                more_names(input@, at as int, names_view(names@)),
            ),
        ensures
            names_at(input@, start as int) == Some((names_view(names@), at as int)),
        decreases input@.len() - at,
    {
        let next = match comma(input, at) {
            Some(next) => next,
            None => break ,
        };
        let (name, end) = match quoted_ident(input, next) {
            Some(found) => found,
            None => break ,
        };
        proof {
            lemma_comma_end(input@, at as int);
            lemma_quoted_ident_at(input@, next as int);
            assert(names_view(names@.push(name)) =~= names_view(names@).push(name@));
        }
        names.push(name);
        at = end;
    }
    Some((names, at))
}

/// Matches the field list of a `SELECT` at `start`: `*` or a list of names.
pub fn fields(input: &[char], start: usize) -> (found: Option<(SelectFields, usize)>)
    ensures
        match found {
            Some((fields, end)) => fields_at(input@, start as int) == Some((fields@, end as int)),
            None => fields_at(input@, start as int) is None,
        },
{
    if mark(input, start, '*') {
        Some((SelectFields::All, start + 1))
    } else {
        match names(input, start) {
            Some((names, end)) => Some((SelectFields::Named(names), end)),
            None => None,
        }
    }
}

/// Matches `FROM` and the name of a table at `start`, with the whitespace
/// around `FROM`.
pub fn from_table(input: &[char], start: usize) -> (found: Option<(String, usize)>)
    ensures
        match found {
            Some((table, end)) => from_at(input@, start as int) == Some((table@, end as int)),
            None => from_at(input@, start as int) is None,
        },
{
    let a = match spaced_keyword(input, start, "from") {
        Some(end) => end,
        None => return None,
    };
    match gap(input, a) {
        Some(b) => quoted_ident(input, b),
        None => None,
    }
}

/// Matches a `SELECT` statement at `start`, and checks that `DISTINCT` does
/// not stand with `*`. The statement may end before the input does.
pub fn parse_select(input: &[char], start: usize) -> (found: Result<(Query, usize), QueryError>)
    ensures
        match found {
            Ok((query, end)) => select_at(input@, start as int) == Ok::<(Statement, int), Failure>(
                (query@, end as int),
            ),
            Err(failure) => select_at(input@, start as int) == Err::<(Statement, int), Failure>(
                failure@,
            ),
        },
{
    let a = match keyword(input, start, "select") {
        Some((_, end)) => end,
        None => return Err(QueryError::Syntax),
    };
    let b = match gap(input, a) {
        Some(end) => end,
        None => return Err(QueryError::Syntax),
    };
    let (distinct, at) = modifier(input, b);
    let (fields, c) = match fields(input, at) {
        Some(found) => found,
        None => return Err(QueryError::Syntax),
    };
    let (table, d) = match from_table(input, c) {
        Some(found) => found,
        None => return Err(QueryError::Syntax),
    };
    let end = terminator(input, d);
    let all = match &fields {
        SelectFields::All => true,
        SelectFields::Named(_) => false,
    };
    if all && distinct {
        return Err(QueryError::Validation("cannot select distinct on *".to_owned()));
    }
    Ok((Query::Select { table, fields, distinct }, end))
}

/// Makes the result of a parse out of a statement that was matched up to
/// some position: the statement must end where the input ends. The message
/// of a failure is that of the rule that was broken, or else `usage`.
pub fn whole_input(input: &[char], found: Result<(Query, usize), QueryError>, usage: &str) -> (parsed:
    Result<Query, SQLitError>)
    ensures
        match parsed {
            Ok(query) => found matches Ok((q, end)) && q == query && end == input@.len(),
            Err(SQLitError::InvalidQuery(message)) => match found {
                Ok((_, end)) => end != input@.len() && message@ == usage@,
                Err(QueryError::Validation(rule)) => message@ == rule@,
                Err(QueryError::Syntax) => message@ == usage@,
            },
            Err(_) => false,
        },
{
    match found {
        Ok((query, end)) => if end == input.len() {
            Ok(query)
        } else {
            Err(SQLitError::InvalidQuery(usage.to_owned()))
        },
        Err(QueryError::Validation(rule)) => Err(SQLitError::InvalidQuery(rule)),
        Err(QueryError::Syntax) => Err(SQLitError::InvalidQuery(usage.to_owned())),
    }
}

impl Query {
    /// Parses one statement that fills `input` from its first character to
    /// its last. The letters that the input starts with choose the kind of
    /// statement; a failure carries a message that says what was expected.
    pub fn parse_chars(input: &[char]) -> (parsed: Result<Query, SQLitError>)
        ensures
            match parsed {
                Ok(query) => statement(input@) == Ok::<Statement, Seq<char>>(query@),
                Err(SQLitError::InvalidQuery(message)) => statement(input@) == Err::<
                    Statement,
                    Seq<char>,
                >(message@),
                Err(_) => false,
            },
    {
        let word_end = scan(input, CharClass::Letter, 0);
        if word_end == 0 {
            return Err(SQLitError::InvalidQuery("empty input".to_owned()));
        }
        let select = match keyword(input, 0, "select") {
            Some((_, end)) => end == word_end,
            None => false,
        };
        if select {
            return whole_input(
                input,
                parse_select(input, 0),
                "expected SELECT [ALL|DISTINCT] (* | name (, name)*) FROM name [;]",
            );
        }
        let create = match keyword(input, 0, "create") {
            Some((_, end)) => end == word_end,
            None => false,
        };
        if create {
            return whole_input(
                input,
                parse_create(input, 0),
                "expected CREATE TABLE [IF NOT EXISTS] name ( column-def (, column-def)* ) [;]",
            );
        }
        Err(SQLitError::InvalidQuery("unrecognized input".to_owned()))
    }

    /// Parses one statement. Whitespace at the two ends of `input` is left
    /// out; what is between must be one statement and nothing more.
    pub fn parse(input: &str) -> (parsed: Result<Query, SQLitError>)
        ensures
            match parsed {
                Ok(query) => statement(trimmed(input@)) == Ok::<Statement, Seq<char>>(query@),
                Err(SQLitError::InvalidQuery(message)) => statement(trimmed(input@)) == Err::<
                    Statement,
                    Seq<char>,
                >(message@),
                Err(_) => false,
            },
    {
        let chars = to_chars(input);
        let (from, to) = trim_bounds(chars.as_slice());
        Query::parse_chars(slice_subrange(chars.as_slice(), from, to))
    }
}

} // verus!
