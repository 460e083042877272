//! The `;` that may close a statement: a statement that is not closed and the
//! same statement with a `;` behind it are parsed alike.
//!
//! A `;` is no part of any token but the statement's terminator, so no clause
//! of a statement reads differently when a `;` is put behind the input.

use crate::grammar::{
    column_at, column_type_at, columns_at, comma_end, constraint_at, constraints_at,
    create_columns_at, create_head_at, default_at, fields_at, from_at, gap_end, ident_end,
    if_not_exists_end, keyword_end, lemma_column_at, lemma_comma_end, lemma_constraint_at,
    lemma_quoted_ident_at, lemma_spaces_end, mark_at, modifier_at, more_columns, more_names,
    names_at, not_null_at, number_at, primary_key_at, quoted_ident_at, spaced_keyword_end,
    spaces_end, starts_with_word, statement, terminator_end, text_literal_at, unique_at, value_at,
    ColumnDef, Seen,
};
use crate::text::{
    in_class, is_letter, lemma_run_end, lemma_run_end_is, lowered, run_end, CharClass,
};
use vstd::prelude::*;

verus! {

/// `s` with a `;` behind it.
pub open spec fn closed(s: Seq<char>) -> Seq<char> {
    s.push(';')
}

/// Whether `word` is made of letters, and of one at least.
pub open spec fn is_word(word: Seq<char>) -> bool {
    word.len() > 0 && forall|j: int| 0 <= j < word.len() ==> is_letter(#[trigger] word[j])
}

/// The keywords of the grammar are made of letters.
proof fn lemma_keywords_are_words()
    ensures
        is_word("select"@),
        is_word("all"@),
        is_word("distinct"@),
        is_word("from"@),
        is_word("create"@),
        is_word("table"@),
        is_word("if"@),
        is_word("not"@),
        is_word("exists"@),
        is_word("primary"@),
        is_word("key"@),
        is_word("autoincrement"@),
        is_word("default"@),
        is_word("null"@),
        is_word("unique"@),
        is_word("integer"@),
        is_word("real"@),
        is_word("text"@),
        is_word("blob"@),
{
    reveal_strlit("select");
    reveal_strlit("all");
    reveal_strlit("distinct");
    reveal_strlit("from");
    reveal_strlit("create");
    reveal_strlit("table");
    reveal_strlit("if");
    reveal_strlit("not");
    reveal_strlit("exists");
    reveal_strlit("primary");
    reveal_strlit("key");
    reveal_strlit("autoincrement");
    reveal_strlit("default");
    reveal_strlit("null");
    reveal_strlit("unique");
    reveal_strlit("integer");
    reveal_strlit("real");
    reveal_strlit("text");
    reveal_strlit("blob");
}

// Clause by clause: what stands at a position of `s` stands there in
// `closed(s)` too, and ends at the same place.

proof fn lemma_run(s: Seq<char>, class: CharClass, i: int)
    requires
        0 <= i <= s.len(),
        !in_class(class, ';'),
    ensures
        run_end(closed(s), class, i) == run_end(s, class, i),
    decreases s.len() - i,
{
    if i < s.len() {
        assert(closed(s)[i] == s[i]);
        if in_class(class, s[i]) {
            lemma_run(s, class, i + 1);
        }
    }
}

proof fn lemma_mark(s: Seq<char>, i: int, c: char)
    requires
        0 <= i <= s.len(),
        c != ';',
    ensures
        mark_at(closed(s), i, c) == mark_at(s, i, c),
{
}

proof fn lemma_keyword(s: Seq<char>, i: int, word: Seq<char>)
    requires
        0 <= i <= s.len(),
        is_word(word),
    ensures
        keyword_end(closed(s), i, word) == keyword_end(s, i, word),
{
    let n = word.len() as int;
    if i + n <= s.len() {
        assert(closed(s).subrange(i, i + n) =~= s.subrange(i, i + n));
    } else if i + n == s.len() + 1 {
        assert(lowered(closed(s).subrange(i, i + n))[n - 1] == ';');
        assert(is_letter(word[n - 1]));
        assert(lowered(word)[n - 1] != ';');
    }
}

proof fn lemma_spaces(s: Seq<char>, i: int)
    requires
        0 <= i <= s.len(),
    ensures
        spaces_end(closed(s), i) == spaces_end(s, i),
        gap_end(closed(s), i) == gap_end(s, i),
        i <= spaces_end(s, i) <= s.len(),
{
    lemma_run(s, CharClass::Space, i);
    lemma_spaces_end(s, i);
}

proof fn lemma_spaced_keyword(s: Seq<char>, i: int, word: Seq<char>)
    requires
        0 <= i <= s.len(),
        is_word(word),
    ensures
        spaced_keyword_end(closed(s), i, word) == spaced_keyword_end(s, i, word),
{
    lemma_spaces(s, i);
    lemma_keyword(s, spaces_end(s, i), word);
}

proof fn lemma_quoted_ident(s: Seq<char>, i: int)
    requires
        0 <= i <= s.len(),
    ensures
        ident_end(closed(s), i) == ident_end(s, i),
        quoted_ident_at(closed(s), i) == quoted_ident_at(s, i),
{
    lemma_run(s, CharClass::Word, i);
    lemma_run_end(s, CharClass::Word, i);
    if mark_at(s, i, '"') {
        lemma_run(s, CharClass::Word, i + 1);
        lemma_run_end(s, CharClass::Word, i + 1);
    }
    let from = if mark_at(s, i, '"') {
        i + 1
    } else {
        i
    };
    if let Some(to) = ident_end(s, from) {
        assert(closed(s).subrange(from, to) =~= s.subrange(from, to));
    }
}

proof fn lemma_value(s: Seq<char>, i: int)
    requires
        0 <= i <= s.len(),
    ensures
        value_at(closed(s), i) == value_at(s, i),
{
    let t = closed(s);
    // a text literal
    if mark_at(s, i, '\'') {
        lemma_run_end(s, CharClass::Unquoted, i + 1);
        lemma_run_end(t, CharClass::Unquoted, i + 1);
        let close = run_end(s, CharClass::Unquoted, i + 1);
        if close < s.len() {
            assert forall|j: int| i + 1 <= j < close implies in_class(
                CharClass::Unquoted,
                #[trigger] t[j],
            ) by {
                assert(t[j] == s[j]);
            }
            assert(t[close] == s[close]);
            lemma_run_end_is(t, CharClass::Unquoted, i + 1, close);
            assert(t.subrange(i + 1, close) =~= s.subrange(i + 1, close));
        } else {
            assert forall|j: int| i + 1 <= j < t.len() implies in_class(
                CharClass::Unquoted,
                #[trigger] t[j],
            ) by {
                if j < s.len() {
                    assert(t[j] == s[j]);
                }
            }
            lemma_run_end_is(t, CharClass::Unquoted, i + 1, t.len() as int);
        }
    }
    assert(text_literal_at(t, i) == text_literal_at(s, i));
    // a number
    lemma_run(s, CharClass::Digit, i);
    lemma_run_end(s, CharClass::Digit, i);
    let point = run_end(s, CharClass::Digit, i);
    if point > i {
        if mark_at(s, point, '.') {
            lemma_run(s, CharClass::Digit, point + 1);
            lemma_run_end(s, CharClass::Digit, point + 1);
            let end = run_end(s, CharClass::Digit, point + 1);
            assert(t.subrange(i, end) =~= s.subrange(i, end));
        } else {
            assert(t.subrange(i, point) =~= s.subrange(i, point));
        }
    }
    assert(number_at(t, i) == number_at(s, i));
}

proof fn lemma_column_type(s: Seq<char>, i: int)
    requires
        0 <= i <= s.len(),
    ensures
        column_type_at(closed(s), i) == column_type_at(s, i),
{
    lemma_keywords_are_words();
    lemma_keyword(s, i, "integer"@);
    lemma_keyword(s, i, "real"@);
    lemma_keyword(s, i, "text"@);
    lemma_keyword(s, i, "blob"@);
}

proof fn lemma_constraint(s: Seq<char>, i: int)
    requires
        0 <= i <= s.len(),
    ensures
        constraint_at(closed(s), i) == constraint_at(s, i),
{
    lemma_keywords_are_words();
    lemma_keyword(s, i, "primary"@);
    if let Some(a) = keyword_end(s, i, "primary"@) {
        lemma_spaced_keyword(s, a, "key"@);
        lemma_spaces(s, a);
        if let Some(b) = spaced_keyword_end(s, a, "key"@) {
            lemma_spaced_keyword(s, b, "autoincrement"@);
        }
    }
    assert(primary_key_at(closed(s), i) == primary_key_at(s, i));
    lemma_keyword(s, i, "default"@);
    if let Some(a) = keyword_end(s, i, "default"@) {
        lemma_spaces(s, a);
        if let Some(b) = gap_end(s, a) {
            lemma_value(s, b);
        }
    }
    assert(default_at(closed(s), i) == default_at(s, i));
    lemma_keyword(s, i, "not"@);
    if let Some(a) = keyword_end(s, i, "not"@) {
        lemma_spaced_keyword(s, a, "null"@);
    }
    assert(not_null_at(closed(s), i) == not_null_at(s, i));
    lemma_keyword(s, i, "unique"@);
    assert(unique_at(closed(s), i) == unique_at(s, i));
}

proof fn lemma_constraints(s: Seq<char>, i: int, def: ColumnDef, seen: Seen)
    requires
        0 <= i <= s.len(),
    ensures
        constraints_at(closed(s), i, def, seen) == constraints_at(s, i, def, seen),
    decreases seen.unseen(),
{
    lemma_constraint(s, i);
    lemma_constraint_at(s, i);
    if let Some((c, end)) = constraint_at(s, i) {
        lemma_spaces(s, end);
        if !seen.has(c) && spaces_end(s, end) > end {
            lemma_constraints(s, spaces_end(s, end), def.with(c), seen.with(c));
        }
    }
}

proof fn lemma_column(s: Seq<char>, i: int)
    requires
        0 <= i <= s.len(),
    ensures
        column_at(closed(s), i) == column_at(s, i),
{
    lemma_quoted_ident(s, i);
    lemma_run_end(s, CharClass::Word, i);
    if let Some(a) = ident_end(s, i) {
        lemma_spaces(s, a);
        assert(closed(s).subrange(i, a) =~= s.subrange(i, a));
        if let Some(b) = gap_end(s, a) {
            lemma_column_type(s, b);
            if let Some((t, c)) = column_type_at(s, b) {
                lemma_keywords_are_words();
                lemma_spaces(s, c);
                lemma_constraints(
                    s,
                    spaces_end(s, c),
                    ColumnDef::plain(s.subrange(i, a), t),
                    Seen::nothing(),
                );
            }
        }
    }
}

proof fn lemma_comma(s: Seq<char>, i: int)
    requires
        0 <= i <= s.len(),
    ensures
        comma_end(closed(s), i) == comma_end(s, i),
{
    lemma_spaces(s, i);
    lemma_mark(s, spaces_end(s, i), ',');
    if mark_at(s, spaces_end(s, i), ',') {
        lemma_spaces(s, spaces_end(s, i) + 1);
    }
}

proof fn lemma_more_columns(s: Seq<char>, i: int, found: Seq<ColumnDef>)
    requires
        0 <= i <= s.len(),
    ensures
        more_columns(closed(s), i, found) == more_columns(s, i, found),
    decreases s.len() - i,
{
    lemma_comma(s, i);
    lemma_comma_end(s, i);
    if let Some(j) = comma_end(s, i) {
        lemma_column(s, j);
        lemma_column_at(s, j);
        if let Some((def, end)) = column_at(s, j) {
            lemma_more_columns(s, end, found.push(def));
        }
    }
}

proof fn lemma_more_names(s: Seq<char>, i: int, found: Seq<Seq<char>>)
    requires
        0 <= i <= s.len(),
    ensures
        more_names(closed(s), i, found) == more_names(s, i, found),
    decreases s.len() - i,
{
    lemma_comma(s, i);
    lemma_comma_end(s, i);
    if let Some(j) = comma_end(s, i) {
        lemma_quoted_ident(s, j);
        lemma_quoted_ident_at(s, j);
        if let Some((name, end)) = quoted_ident_at(s, j) {
            lemma_more_names(s, end, found.push(name));
        }
    }
}

proof fn lemma_create_columns(s: Seq<char>, i: int)
    requires
        0 <= i <= s.len(),
    ensures
        columns_at(closed(s), i) == columns_at(s, i),
        create_columns_at(closed(s), i) == create_columns_at(s, i),
{
    lemma_column(s, i);
    lemma_column_at(s, i);
    if let Some((def, end)) = column_at(s, i) {
        lemma_more_columns(s, end, seq![def]);
    }
}

proof fn lemma_names(s: Seq<char>, i: int)
    requires
        0 <= i <= s.len(),
    ensures
        names_at(closed(s), i) == names_at(s, i),
        fields_at(closed(s), i) == fields_at(s, i),
{
    lemma_quoted_ident(s, i);
    lemma_quoted_ident_at(s, i);
    if let Some((name, end)) = quoted_ident_at(s, i) {
        lemma_more_names(s, end, seq![name]);
    }
    lemma_mark(s, i, '*');
}

proof fn lemma_if_not_exists(s: Seq<char>, i: int)
    requires
        0 <= i <= s.len(),
    ensures
        if_not_exists_end(closed(s), i) == if_not_exists_end(s, i),
        if_not_exists_end(s, i) matches Some(end) ==> i <= end <= s.len(),
{
    lemma_keywords_are_words();
    lemma_keyword(s, i, "if"@);
    if let Some(a) = keyword_end(s, i, "if"@) {
        lemma_spaced_keyword(s, a, "not"@);
        lemma_spaces(s, a);
        if let Some(b) = spaced_keyword_end(s, a, "not"@) {
            lemma_spaced_keyword(s, b, "exists"@);
            lemma_spaces(s, b);
            if let Some(c) = spaced_keyword_end(s, b, "exists"@) {
                lemma_spaces(s, c);
            }
        }
    }
}

proof fn lemma_create_head(s: Seq<char>)
    ensures
        create_head_at(closed(s), 0) == create_head_at(s, 0),
        create_head_at(s, 0) matches Some((_, _, body)) ==> 0 <= body <= s.len(),
{
    lemma_keywords_are_words();
    lemma_keyword(s, 0, "create"@);
    if let Some(a) = keyword_end(s, 0, "create"@) {
        lemma_spaced_keyword(s, a, "table"@);
        lemma_spaces(s, a);
        if let Some(b) = spaced_keyword_end(s, a, "table"@) {
            lemma_spaces(s, b);
            if let Some(c) = gap_end(s, b) {
                lemma_if_not_exists(s, c);
                let at = match if_not_exists_end(s, c) {
                    Some(d) => d,
                    None => c,
                };
                lemma_quoted_ident(s, at);
                lemma_quoted_ident_at(s, at);
                if let Some((name, e)) = quoted_ident_at(s, at) {
                    lemma_spaces(s, e);
                    if let Some(f) = gap_end(s, e) {
                        lemma_mark(s, f, '(');
                        if mark_at(s, f, '(') {
                            lemma_spaces(s, f + 1);
                        }
                    }
                }
            }
        }
    }
}

proof fn lemma_modifier(s: Seq<char>, i: int)
    requires
        0 <= i <= s.len(),
    ensures
        modifier_at(closed(s), i) == modifier_at(s, i),
        i <= modifier_at(s, i).1 <= s.len(),
{
    lemma_keywords_are_words();
    lemma_keyword(s, i, "all"@);
    lemma_keyword(s, i, "distinct"@);
    if let Some(a) = keyword_end(s, i, "all"@) {
        lemma_spaces(s, a);
    }
    if let Some(a) = keyword_end(s, i, "distinct"@) {
        lemma_spaces(s, a);
    }
}

proof fn lemma_from(s: Seq<char>, i: int)
    requires
        0 <= i <= s.len(),
    ensures
        from_at(closed(s), i) == from_at(s, i),
        from_at(s, i) matches Some((_, end)) ==> i <= end <= s.len(),
{
    lemma_keywords_are_words();
    lemma_spaced_keyword(s, i, "from"@);
    lemma_spaces(s, i);
    if let Some(a) = spaced_keyword_end(s, i, "from"@) {
        lemma_spaces(s, a);
        if let Some(b) = gap_end(s, a) {
            lemma_quoted_ident(s, b);
            lemma_quoted_ident_at(s, b);
        }
    }
}

/// A list of column definitions ends inside the sequence.
proof fn lemma_more_columns_end(s: Seq<char>, i: int, found: Seq<ColumnDef>)
    requires
        0 <= i <= s.len(),
    ensures
        i <= more_columns(s, i, found).1 <= s.len(),
    decreases s.len() - i,
{
    lemma_comma_end(s, i);
    if let Some(j) = comma_end(s, i) {
        lemma_column_at(s, j);
        if let Some((def, end)) = column_at(s, j) {
            lemma_more_columns_end(s, end, found.push(def));
        }
    }
}

/// The column list of a statement ends inside the sequence.
proof fn lemma_columns_end(s: Seq<char>, i: int)
    requires
        0 <= i <= s.len(),
    ensures
        columns_at(s, i) matches Some((_, end)) ==> i <= end <= s.len(),
{
    lemma_column_at(s, i);
    if let Some((def, end)) = column_at(s, i) {
        lemma_more_columns_end(s, end, seq![def]);
    }
}

/// A list of names ends inside the sequence.
proof fn lemma_more_names_end(s: Seq<char>, i: int, found: Seq<Seq<char>>)
    requires
        0 <= i <= s.len(),
    ensures
        i <= more_names(s, i, found).1 <= s.len(),
    decreases s.len() - i,
{
    lemma_comma_end(s, i);
    if let Some(j) = comma_end(s, i) {
        lemma_quoted_ident_at(s, j);
        if let Some((name, end)) = quoted_ident_at(s, j) {
            lemma_more_names_end(s, end, found.push(name));
        }
    }
}

/// The field list of a statement ends inside the sequence.
proof fn lemma_fields_end(s: Seq<char>, i: int)
    requires
        0 <= i <= s.len(),
    ensures
        fields_at(s, i) matches Some((_, end)) ==> i <= end <= s.len(),
{
    lemma_quoted_ident_at(s, i);
    if let Some((name, end)) = quoted_ident_at(s, i) {
        lemma_more_names_end(s, end, seq![name]);
    }
}

/// The end of a statement that is not closed is the end of the same
/// statement with a `;` behind it, less the `;`.
proof fn lemma_terminator(s: Seq<char>, i: int)
    requires
        0 <= i <= s.len(),
        s.len() > 0,
        s.last() != ';',
        terminator_end(s, i) == s.len(),
    ensures
        terminator_end(closed(s), i) == s.len() + 1,
{
    lemma_spaces(s, i);
}

/// A statement that is parsed and does not end in `;` is parsed alike with a
/// `;` behind it.
pub proof fn lemma_closing_semicolon(s: Seq<char>)
    requires
        statement(s) is Ok,
        s.last() != ';',
    ensures
        statement(closed(s)) == statement(s),
{
    let t = closed(s);
    lemma_keywords_are_words();
    lemma_run(s, CharClass::Letter, 0);
    lemma_keyword(s, 0, "select"@);
    lemma_keyword(s, 0, "create"@);
    assert(starts_with_word(t, "select"@) == starts_with_word(s, "select"@));
    assert(starts_with_word(t, "create"@) == starts_with_word(s, "create"@));
    if starts_with_word(s, "select"@) {
        let a = keyword_end(s, 0, "select"@).unwrap();
        lemma_spaces(s, a);
        let b = gap_end(s, a).unwrap();
        lemma_modifier(s, b);
        lemma_names(s, modifier_at(s, b).1);
        lemma_quoted_ident_at(s, modifier_at(s, b).1);
        let (fields, c) = fields_at(s, modifier_at(s, b).1).unwrap();
        lemma_fields_end(s, modifier_at(s, b).1);
        lemma_from(s, c);
        let (table, d) = from_at(s, c).unwrap();
        lemma_terminator(s, d);
    } else {
        lemma_create_head(s);
        let (guarded, name, body) = create_head_at(s, 0).unwrap();
        lemma_create_columns(s, body);
        lemma_columns_end(s, body);
        let (defs, end) = columns_at(s, body).unwrap();
        lemma_spaces(s, end);
        lemma_mark(s, spaces_end(s, end), ')');
        lemma_terminator(s, spaces_end(s, end) + 1);
    }
}

} // verus!
