use sqlit::database::{ColumnType, Value};
use sqlit::error::SQLitError;
use sqlit::query;
use sqlit::query::{
    column_type, comma, constraint, gap, ident, integer, keyword, parse_create,
    parse_create_columns, parse_select, quoted_ident, terminator, value, ColumnConstraint, Query,
    QueryError, SelectFields,
};

fn chars(s: &str) -> Vec<char> {
    s.chars().collect()
}

fn invalid(input: &str) -> String {
    match Query::parse(input) {
        Err(SQLitError::InvalidQuery(message)) => message,
        other => panic!("unexpected: {:?}", other),
    }
}

fn select_of(input: &str) -> (String, SelectFields, bool) {
    match Query::parse(input) {
        Ok(Query::Select { table, fields, distinct }) => (table, fields, distinct),
        other => panic!("unexpected: {:?}", other),
    }
}

fn named(names: &[&str]) -> SelectFields {
    SelectFields::Named(names.iter().map(|n| n.to_string()).collect())
}

const SELECT_USAGE: &str = "expected SELECT [ALL|DISTINCT] (* | name (, name)*) FROM name [;]";

const CREATE_USAGE: &str =
    "expected CREATE TABLE [IF NOT EXISTS] name ( column-def (, column-def)* ) [;]";

#[test]
fn create_table_round_trip() {
    let parsed = Query::parse(
        "CREATE TABLE \"t\" (id INTEGER PRIMARY KEY AUTOINCREMENT, name TEXT DEFAULT 'x')",
    );
    match parsed {
        Ok(Query::Create { table, if_not_exists }) => {
            assert!(!if_not_exists);
            assert_eq!(table.name, "t");
            assert_eq!(table.columns.len(), 2);
            assert_eq!(table.primary_key, 0);
            assert!(table.autoincrement);
            assert_eq!(table.columns[0].name, "id");
            assert_eq!(table.columns[0].t, ColumnType::Integer);
            assert_eq!(table.columns[0].default, None);
            assert!(table.columns[0].allow_null);
            assert!(!table.columns[0].unique);
            assert_eq!(table.columns[1].name, "name");
            assert_eq!(table.columns[1].t, ColumnType::Text);
            assert_eq!(table.columns[1].default, Some(Value::Text("x".to_string())));
            assert!(table.rows.0.is_empty());
        },
        other => panic!("unexpected: {:?}", other),
    }
}

#[test]
fn primary_key_index_is_the_position_of_the_marked_column() {
    for (input, position, counts) in [
        ("CREATE TABLE t (a INTEGER PRIMARY KEY, b TEXT, c REAL)", 0usize, false),
        ("CREATE TABLE t (a INTEGER, b TEXT PRIMARY KEY, c REAL)", 1, false),
        ("CREATE TABLE t (a INTEGER, b TEXT, c REAL PRIMARY KEY AUTOINCREMENT)", 2, true),
    ] {
        match Query::parse(input) {
            Ok(Query::Create { table, .. }) => {
                assert_eq!(table.columns.len(), 3);
                assert_eq!(table.primary_key, position);
                assert_eq!(table.autoincrement, counts);
            },
            other => panic!("unexpected: {:?}", other),
        }
    }
}

#[test]
fn create_without_primary_key_fails() {
    assert_eq!(invalid("CREATE TABLE t (a INTEGER)"), "no primary key specified");
    assert_eq!(invalid("CREATE TABLE t (a INTEGER, b TEXT UNIQUE)"), "no primary key specified");
    // the key is checked before the rest of the statement is read
    assert_eq!(invalid("CREATE TABLE t (a INTEGER"), "no primary key specified");
}

#[test]
fn create_with_two_primary_keys_fails() {
    assert_eq!(
        invalid("CREATE TABLE t (a INTEGER PRIMARY KEY, b TEXT PRIMARY KEY)"),
        "only one primary key may be specified"
    );
    assert_eq!(
        invalid("CREATE TABLE t (a INTEGER PRIMARY KEY, b TEXT, c BLOB PRIMARY KEY, d REAL PRIMARY KEY)"),
        "only one primary key may be specified"
    );
}

#[test]
fn a_constraint_repeated_in_one_column_fails() {
    assert_eq!(invalid("CREATE TABLE t (a INTEGER PRIMARY KEY PRIMARY KEY)"), CREATE_USAGE);
    assert_eq!(invalid("CREATE TABLE t (a INTEGER PRIMARY KEY UNIQUE UNIQUE)"), CREATE_USAGE);
    assert_eq!(invalid("CREATE TABLE t (a INTEGER PRIMARY KEY NOT NULL not null)"), CREATE_USAGE);
    assert_eq!(invalid("CREATE TABLE t (a INTEGER PRIMARY KEY DEFAULT 1 DEFAULT 2)"), CREATE_USAGE);
    assert!(query::column(&chars("a INTEGER UNIQUE UNIQUE"), 0).is_none());
}

#[test]
fn autoincrement_counts_only_on_the_primary_key() {
    match Query::parse("CREATE TABLE t (a INTEGER PRIMARY KEY, b TEXT)") {
        Ok(Query::Create { table, .. }) => assert!(!table.autoincrement),
        other => panic!("unexpected: {:?}", other),
    }
    // AUTOINCREMENT is no constraint of its own
    assert_eq!(invalid("CREATE TABLE t (a INTEGER PRIMARY KEY, b TEXT AUTOINCREMENT)"), CREATE_USAGE);
}

#[test]
fn if_not_exists_is_recorded() {
    match Query::parse("create table if not exists t (a integer primary key)") {
        Ok(Query::Create { table, if_not_exists }) => {
            assert!(if_not_exists);
            assert_eq!(table.name, "t");
        },
        other => panic!("unexpected: {:?}", other),
    }
    match Query::parse("create table t (a integer primary key)") {
        Ok(Query::Create { if_not_exists, .. }) => assert!(!if_not_exists),
        other => panic!("unexpected: {:?}", other),
    }
    // a table may be called `if`
    match Query::parse("create table if (a integer primary key)") {
        Ok(Query::Create { table, if_not_exists }) => {
            assert!(!if_not_exists);
            assert_eq!(table.name, "if");
        },
        other => panic!("unexpected: {:?}", other),
    }
}

#[test]
fn create_needs_whitespace_where_the_grammar_says_so() {
    assert_eq!(invalid("CREATE TABLE t(a INTEGER PRIMARY KEY)"), CREATE_USAGE);
    assert_eq!(invalid("CREATETABLE t (a INTEGER PRIMARY KEY)"), "unrecognized input");
    assert_eq!(invalid("CREATE TABLE t (aINTEGER PRIMARY KEY)"), CREATE_USAGE);
    assert_eq!(invalid("CREATE TABLE t (a INTEGER PRIMARY KEYUNIQUE)"), CREATE_USAGE);
    assert!(Query::parse("CREATE  TABLE\tt\n(\n a   INTEGER   PRIMARY\tKEY ,b TEXT\n)\n;").is_ok());
    assert!(Query::parse("CREATE TABLE t (a INTEGER PRIMARY KEY,b TEXT)").is_ok());
}

#[test]
fn constraints_come_in_any_order() {
    let orders = [
        "PRIMARY KEY AUTOINCREMENT DEFAULT 7 NOT NULL UNIQUE",
        "UNIQUE NOT NULL DEFAULT 7 PRIMARY KEY AUTOINCREMENT",
        "NOT NULL PRIMARY KEY AUTOINCREMENT UNIQUE DEFAULT 7",
        "DEFAULT 7 UNIQUE PRIMARY KEY AUTOINCREMENT NOT NULL",
        "not null unique default 7 primary key autoincrement",
    ];
    for order in orders {
        let text = format!("n INTEGER {}", order);
        let input = chars(&text);
        let ((column, primary_key, autoincrement), end) = query::column(&input, 0).unwrap();
        assert_eq!(end, input.len());
        assert_eq!(column.name, "n");
        assert_eq!(column.t, ColumnType::Integer);
        assert_eq!(column.default, Some(Value::Integer(7)));
        assert!(!column.allow_null);
        assert!(column.unique);
        assert!(primary_key);
        assert!(autoincrement);
    }
}

#[test]
fn column_without_constraints_has_the_defaults() {
    let input = chars("name TEXT");
    let ((column, primary_key, autoincrement), end) = query::column(&input, 0).unwrap();
    assert_eq!(end, 9);
    assert_eq!(column.name, "name");
    assert_eq!(column.t, ColumnType::Text);
    assert_eq!(column.default, None);
    assert!(column.allow_null);
    assert!(!column.unique);
    assert!(!primary_key);
    assert!(!autoincrement);
}

#[test]
fn column_takes_the_whitespace_behind_it() {
    let input = chars("a REAL   , b");
    let (_, end) = query::column(&input, 0).unwrap();
    assert_eq!(end, 9);
    let input = chars("a REAL UNIQUE  )");
    let ((found, _, _), end) = query::column(&input, 0).unwrap();
    assert!(found.unique);
    assert_eq!(end, 15);
    // what is no constraint ends the column
    let input = chars("a REAL UNIQUE CHECK");
    let (_, end) = query::column(&input, 0).unwrap();
    assert_eq!(end, 14);
}

#[test]
fn column_starts_where_it_is_asked_to() {
    let input = chars("(x BLOB NOT NULL)");
    let ((found, _, _), end) = query::column(&input, 1).unwrap();
    assert_eq!(found.name, "x");
    assert_eq!(found.t, ColumnType::Blob);
    assert!(!found.allow_null);
    assert_eq!(end, 16);
    assert!(query::column(&input, 0).is_none());
    assert!(query::column(&input, 99).is_none());
}

#[test]
fn column_needs_a_name_and_a_type() {
    assert!(query::column(&chars(""), 0).is_none());
    assert!(query::column(&chars("a"), 0).is_none());
    assert!(query::column(&chars("a "), 0).is_none());
    assert!(query::column(&chars("a NUMBER"), 0).is_none());
    assert!(query::column(&chars(" a TEXT"), 0).is_none());
}

#[test]
fn column_type_knows_the_four_types() {
    assert_eq!(column_type(&chars("INTEGER"), 0), Some((ColumnType::Integer, 7)));
    assert_eq!(column_type(&chars("real"), 0), Some((ColumnType::Real, 4)));
    assert_eq!(column_type(&chars("Text,"), 0), Some((ColumnType::Text, 4)));
    assert_eq!(column_type(&chars("x bLoB"), 2), Some((ColumnType::Blob, 6)));
    assert_eq!(column_type(&chars("INT"), 0), None);
    assert_eq!(column_type(&chars("varchar"), 0), None);
    assert_eq!(column_type(&chars(""), 0), None);
}

#[test]
fn constraint_reads_one_constraint() {
    match constraint(&chars("PRIMARY KEY"), 0) {
        Some((ColumnConstraint::PrimaryKey { autoincrement: false }, 11)) => {},
        other => panic!("unexpected: {:?}", other),
    }
    match constraint(&chars("primary   key\tautoincrement"), 0) {
        Some((ColumnConstraint::PrimaryKey { autoincrement: true }, 27)) => {},
        other => panic!("unexpected: {:?}", other),
    }
    match constraint(&chars("PRIMARY KEY AUTO"), 0) {
        Some((ColumnConstraint::PrimaryKey { autoincrement: false }, 11)) => {},
        other => panic!("unexpected: {:?}", other),
    }
    match constraint(&chars("DEFAULT 'a b'"), 0) {
        Some((ColumnConstraint::Default(Value::Text(text)), 13)) => assert_eq!(text, "a b"),
        other => panic!("unexpected: {:?}", other),
    }
    match constraint(&chars("NOT NULL"), 0) {
        Some((ColumnConstraint::NotNull, 8)) => {},
        other => panic!("unexpected: {:?}", other),
    }
    match constraint(&chars("UNIQUE"), 0) {
        Some((ColumnConstraint::Unique, 6)) => {},
        other => panic!("unexpected: {:?}", other),
    }
    assert!(constraint(&chars("PRIMARY"), 0).is_none());
    assert!(constraint(&chars("PRIMARYKEY"), 0).is_none());
    assert!(constraint(&chars("DEFAULT"), 0).is_none());
    assert!(constraint(&chars("DEFAULT x"), 0).is_none());
    assert!(constraint(&chars("NOT"), 0).is_none());
    assert!(constraint(&chars("NULL"), 0).is_none());
    assert!(constraint(&chars(""), 0).is_none());
}

#[test]
fn parse_create_columns_checks_the_primary_key() {
    let input = chars("a INTEGER, b TEXT PRIMARY KEY AUTOINCREMENT, c REAL)");
    let ((columns, primary_key, autoincrement), end) = parse_create_columns(&input, 0).unwrap();
    assert_eq!(columns.len(), 3);
    assert_eq!(columns[2].name, "c");
    assert_eq!(primary_key, 1);
    assert!(autoincrement);
    assert_eq!(end, input.len() - 1);

    assert_eq!(
        parse_create_columns(&chars("a INTEGER, b TEXT"), 0).unwrap_err(),
        QueryError::Validation("no primary key specified".to_string())
    );
    assert_eq!(
        parse_create_columns(&chars("a INTEGER PRIMARY KEY, b TEXT PRIMARY KEY"), 0).unwrap_err(),
        QueryError::Validation("only one primary key may be specified".to_string())
    );
    assert_eq!(parse_create_columns(&chars(", a INTEGER"), 0).unwrap_err(), QueryError::Syntax);
    assert_eq!(parse_create_columns(&chars(""), 0).unwrap_err(), QueryError::Syntax);
}

#[test]
fn parse_create_columns_stops_before_a_comma_that_no_column_follows() {
    let input = chars("a INTEGER PRIMARY KEY, )");
    let ((columns, _, _), end) = parse_create_columns(&input, 0).unwrap();
    assert_eq!(columns.len(), 1);
    assert_eq!(end, 21);
    assert_eq!(invalid("CREATE TABLE t (a INTEGER PRIMARY KEY, )"), CREATE_USAGE);
}

#[test]
fn parse_create_may_stop_before_the_input_ends() {
    let input = chars("CREATE TABLE t (a INTEGER PRIMARY KEY) ; and more");
    let (query, end) = parse_create(&input, 0).unwrap();
    assert_eq!(end, 40);
    match query {
        Query::Create { table, .. } => assert_eq!(table.name, "t"),
        other => panic!("unexpected: {:?}", other),
    }
    assert_eq!(parse_create(&chars("SELECT * FROM t"), 0).unwrap_err(), QueryError::Syntax);
}

#[test]
fn select_distinct_on_star_fails() {
    assert_eq!(invalid("SELECT DISTINCT * FROM t"), "cannot select distinct on *");
    // the rule is checked before the end of the input is
    assert_eq!(invalid("SELECT DISTINCT * FROM t GARBAGE"), "cannot select distinct on *");
    assert_eq!(
        parse_select(&chars("select distinct * from t"), 0).unwrap_err(),
        QueryError::Validation("cannot select distinct on *".to_string())
    );
}

#[test]
fn select_distinct_on_a_column_succeeds() {
    assert_eq!(select_of("SELECT DISTINCT id FROM t"), ("t".to_string(), named(&["id"]), true));
}

#[test]
fn select_all_is_not_distinct() {
    assert_eq!(select_of("SELECT ALL id FROM t"), ("t".to_string(), named(&["id"]), false));
    assert_eq!(select_of("SELECT ALL * FROM t"), ("t".to_string(), SelectFields::All, false));
    assert_eq!(select_of("SELECT id FROM t"), ("t".to_string(), named(&["id"]), false));
    assert_eq!(select_of("SELECT * FROM t"), ("t".to_string(), SelectFields::All, false));
}

#[test]
fn select_a_column_called_like_a_modifier() {
    assert_eq!(select_of("SELECT distinct_id FROM t"), ("t".to_string(), named(&["distinct_id"]), false));
    assert_eq!(select_of("SELECT all, distinct FROM t"), ("t".to_string(), named(&["all", "distinct"]), false));
}

#[test]
fn trailing_garbage_fails() {
    assert_eq!(invalid("SELECT * FROM t GARBAGE"), SELECT_USAGE);
    assert_eq!(invalid("SELECT * FROM t;;"), SELECT_USAGE);
    assert_eq!(invalid("SELECT * FROM t; SELECT * FROM t"), SELECT_USAGE);
    assert_eq!(invalid("CREATE TABLE t (a INTEGER PRIMARY KEY) x"), CREATE_USAGE);
}

#[test]
fn a_semicolon_at_the_end_changes_nothing() {
    assert_eq!(select_of("SELECT * FROM t;"), select_of("SELECT * FROM t"));
    assert_eq!(select_of("SELECT * FROM t;"), ("t".to_string(), SelectFields::All, false));
    assert_eq!(select_of("SELECT a, b FROM t  ;"), select_of("SELECT a, b FROM t"));
    assert_eq!(
        format!("{:?}", Query::parse("CREATE TABLE t (a INTEGER PRIMARY KEY);").unwrap()),
        format!("{:?}", Query::parse("CREATE TABLE t (a INTEGER PRIMARY KEY)").unwrap())
    );
}

#[test]
fn select_keeps_the_order_of_the_names() {
    assert_eq!(
        select_of("select c ,a,  \"b\"  ,\"d from \"tab\""),
        ("tab".to_string(), named(&["c", "a", "b", "d"]), false)
    );
}

#[test]
fn select_needs_whitespace_where_the_grammar_says_so() {
    assert_eq!(invalid("SELECT*FROM t"), SELECT_USAGE);
    assert_eq!(invalid("SELECT *FROM t"), SELECT_USAGE);
    assert_eq!(invalid("SELECT * FROMt"), SELECT_USAGE);
    assert_eq!(invalid("SELECT * FROM"), SELECT_USAGE);
    assert_eq!(invalid("SELECT FROM t"), SELECT_USAGE);
    assert_eq!(invalid("SELECT a b FROM t"), SELECT_USAGE);
    assert_eq!(invalid("SELECT a, FROM t"), SELECT_USAGE);
    assert_eq!(invalid("SELECT"), SELECT_USAGE);
}

#[test]
fn parse_select_may_stop_before_the_input_ends() {
    let input = chars("SELECT a FROM t WHERE a");
    let (query, end) = parse_select(&input, 0).unwrap();
    assert_eq!(end, 15);
    match query {
        Query::Select { table, fields, distinct } => {
            assert_eq!(table, "t");
            assert_eq!(fields, named(&["a"]));
            assert!(!distinct);
        },
        other => panic!("unexpected: {:?}", other),
    }
    assert_eq!(parse_select(&chars("CREATE"), 0).unwrap_err(), QueryError::Syntax);
}

#[test]
fn empty_input_fails() {
    assert_eq!(invalid(""), "empty input");
    assert_eq!(invalid("   \n\t "), "empty input");
    assert_eq!(invalid("42"), "empty input");
    assert_eq!(invalid("; SELECT * FROM t"), "empty input");
    assert_eq!(invalid("*"), "empty input");
}

#[test]
fn unrecognized_input_fails() {
    assert_eq!(invalid("DROP TABLE t"), "unrecognized input");
    assert_eq!(invalid("INSERT INTO t (a) VALUES (1)"), "unrecognized input");
    assert_eq!(invalid("SELECTED * FROM t"), "unrecognized input");
    assert_eq!(invalid("selec"), "unrecognized input");
    assert_eq!(invalid("x"), "unrecognized input");
}

#[test]
fn keywords_are_matched_in_any_case() {
    assert_eq!(select_of("select * from t"), ("t".to_string(), SelectFields::All, false));
    assert_eq!(select_of("SeLeCt DiStInCt a FrOm T"), ("T".to_string(), named(&["a"]), true));
    assert!(Query::parse("cReAtE tAbLe If NoT eXiStS t (a InTeGeR pRiMaRy KeY aUtOiNcReMeNt)").is_ok());
}

#[test]
fn whitespace_around_a_statement_is_left_out() {
    assert_eq!(select_of("  \n SELECT * FROM t \t\r\n"), ("t".to_string(), SelectFields::All, false));
    // the ends are trimmed of every kind of whitespace
    assert_eq!(
        select_of("\u{2003}\u{a0}\u{b}SELECT * FROM t\u{c}\u{3000}"),
        ("t".to_string(), SelectFields::All, false)
    );
    // between tokens only blank, tab, carriage return and line feed count
    assert_eq!(invalid("SELECT\u{a0}* FROM t"), SELECT_USAGE);
    assert_eq!(invalid("SELECT *\u{2003}FROM t"), SELECT_USAGE);
    assert_eq!(invalid("SELECT * FROM\u{b}t"), SELECT_USAGE);
}

#[test]
fn parse_chars_does_not_trim() {
    assert!(Query::parse_chars(&chars("SELECT * FROM t")).is_ok());
    match Query::parse_chars(&chars(" SELECT * FROM t")) {
        Err(SQLitError::InvalidQuery(message)) => assert_eq!(message, "empty input"),
        other => panic!("unexpected: {:?}", other),
    }
    match Query::parse_chars(&chars("SELECT * FROM t ")) {
        Err(SQLitError::InvalidQuery(message)) => assert_eq!(message, SELECT_USAGE),
        other => panic!("unexpected: {:?}", other),
    }
}

#[test]
fn keyword_yields_the_lower_case_form() {
    assert_eq!(keyword(&chars("SeLeCt *"), 0, "select"), Some(("select".to_string(), 6)));
    assert_eq!(keyword(&chars("select"), 0, "SELECT"), Some(("select".to_string(), 6)));
    assert_eq!(keyword(&chars("a KEYS"), 2, "key"), Some(("key".to_string(), 5)));
    assert_eq!(keyword(&chars("selec"), 0, "select"), None);
    assert_eq!(keyword(&chars("selecT"), 1, "select"), None);
    assert_eq!(keyword(&chars("s\u{212a}"), 1, "k"), None);
    assert_eq!(keyword(&chars("abc"), 3, ""), Some((String::new(), 3)));
    assert_eq!(keyword(&chars("abc"), 4, ""), None);
    assert_eq!(keyword(&chars("abc"), usize::MAX, "a"), None);
}

#[test]
fn ident_is_a_run_of_letters_digits_and_underscores() {
    assert_eq!(ident(&chars("user_id2 x"), 0), Some(8));
    assert_eq!(ident(&chars("_"), 0), Some(1));
    assert_eq!(ident(&chars("9lives"), 0), Some(6));
    assert_eq!(ident(&chars("a-b"), 0), Some(1));
    assert_eq!(ident(&chars("a-b"), 2), Some(3));
    assert_eq!(ident(&chars("-b"), 0), None);
    assert_eq!(ident(&chars(""), 0), None);
    assert_eq!(ident(&chars("abc"), 3), None);
    assert_eq!(ident(&chars("abc"), 7), None);
    assert_eq!(ident(&chars("caf\u{e9}"), 0), Some(3));
    assert_eq!(ident(&chars("\u{141}"), 0), None);
}

#[test]
fn quoted_ident_takes_a_quote_on_either_side() {
    assert_eq!(quoted_ident(&chars("\"t\" x"), 0), Some(("t".to_string(), 3)));
    assert_eq!(quoted_ident(&chars("\"t x"), 0), Some(("t".to_string(), 2)));
    assert_eq!(quoted_ident(&chars("t\" x"), 0), Some(("t".to_string(), 2)));
    assert_eq!(quoted_ident(&chars("tab x"), 0), Some(("tab".to_string(), 3)));
    assert_eq!(quoted_ident(&chars("\"\""), 0), None);
    assert_eq!(quoted_ident(&chars("\""), 0), None);
    assert_eq!(quoted_ident(&chars("\"\"t\""), 0), None);
    assert_eq!(quoted_ident(&chars(""), 0), None);
}

#[test]
fn value_reads_text_reals_and_integers() {
    assert_eq!(value(&chars("'hello world' x"), 0), Some((Value::Text("hello world".to_string()), 13)));
    assert_eq!(value(&chars("'\"\u{e9}\n'"), 0), Some((Value::Text("\"\u{e9}\n".to_string()), 5)));
    assert_eq!(value(&chars("42,"), 0), Some((Value::Integer(42), 2)));
    assert_eq!(value(&chars("007"), 0), Some((Value::Integer(7), 3)));
    assert_eq!(value(&chars("0"), 0), Some((Value::Integer(0), 1)));
    assert_eq!(value(&chars("3.25)"), 0), Some((Value::Real("3.25".to_string()), 4)));
    assert_eq!(value(&chars("3. "), 0), Some((Value::Real("3.".to_string()), 2)));
    assert_eq!(value(&chars("1.2.3"), 0), Some((Value::Real("1.2".to_string()), 3)));
    assert_eq!(value(&chars("x 12"), 2), Some((Value::Integer(12), 4)));
}

#[test]
fn value_rejects_what_is_no_literal() {
    assert_eq!(value(&chars(""), 0), None);
    assert_eq!(value(&chars("''"), 0), None);
    assert_eq!(value(&chars("'open"), 0), None);
    assert_eq!(value(&chars("'"), 0), None);
    assert_eq!(value(&chars(".5"), 0), None);
    assert_eq!(value(&chars("-1"), 0), None);
    assert_eq!(value(&chars("abc"), 0), None);
    assert_eq!(value(&chars("12"), 2), None);
    assert_eq!(value(&chars("\u{663}"), 0), None);
}

#[test]
fn integers_stop_at_the_largest_i64() {
    assert_eq!(
        value(&chars("9223372036854775807"), 0),
        Some((Value::Integer(9223372036854775807), 19))
    );
    assert_eq!(value(&chars("9223372036854775808"), 0), None);
    assert_eq!(value(&chars("9223372036854775810"), 0), None);
    assert_eq!(value(&chars("10000000000000000000"), 0), None);
    assert_eq!(value(&chars("99999999999999999999999999"), 0), None);
    assert_eq!(
        value(&chars("0000000000000000000000009223372036854775807"), 0),
        Some((Value::Integer(9223372036854775807), 43))
    );
    assert_eq!(integer(&chars("a123b"), 1, 4), Some(123));
    assert_eq!(integer(&chars("a123b"), 2, 2), Some(0));
    assert_eq!(invalid("CREATE TABLE t (a INTEGER PRIMARY KEY DEFAULT 9223372036854775808)"), CREATE_USAGE);
}

#[test]
fn gap_comma_and_terminator() {
    assert_eq!(gap(&chars("a \t\r\nb"), 1), Some(5));
    assert_eq!(gap(&chars("ab"), 1), None);
    assert_eq!(gap(&chars("a\u{a0}b"), 1), None);
    assert_eq!(gap(&chars("a "), 2), None);
    assert_eq!(comma(&chars("a , b"), 1), Some(4));
    assert_eq!(comma(&chars("a,b"), 1), Some(2));
    assert_eq!(comma(&chars("a ,"), 1), Some(3));
    assert_eq!(comma(&chars("a  b"), 1), None);
    assert_eq!(terminator(&chars("t ;"), 1), 3);
    assert_eq!(terminator(&chars("t;"), 1), 2);
    assert_eq!(terminator(&chars("t  "), 1), 1);
    assert_eq!(terminator(&chars("t"), 1), 1);
}

#[test]
fn default_values_of_each_kind() {
    let parsed = Query::parse(
        "CREATE TABLE m (k INTEGER PRIMARY KEY, i INTEGER DEFAULT 12, r REAL DEFAULT 0.5, t TEXT DEFAULT 'it''s')",
    );
    assert!(parsed.is_err());
    match Query::parse(
        "CREATE TABLE m (k INTEGER PRIMARY KEY, i INTEGER DEFAULT 12, r REAL DEFAULT 0.5, t TEXT DEFAULT 'its', b BLOB NOT NULL UNIQUE)",
    ) {
        Ok(Query::Create { table, .. }) => {
            assert_eq!(table.columns[1].default, Some(Value::Integer(12)));
            assert_eq!(table.columns[2].default, Some(Value::Real("0.5".to_string())));
            assert_eq!(table.columns[3].default, Some(Value::Text("its".to_string())));
            assert_eq!(table.columns[4].default, None);
            assert!(!table.columns[4].allow_null);
            assert!(table.columns[4].unique);
            assert_eq!(table.columns[4].t, ColumnType::Blob);
        },
        other => panic!("unexpected: {:?}", other),
    }
}
