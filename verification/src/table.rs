use vstd::prelude::*;
use vstd::string::StrSliceExecFns;

use crate::batch::{batch_spec, lemma_batch_count, Outcome};
use crate::model::{views_of, Lookup, LookupV};
use prettytable::{Cell, Row, Table};

verus! {

#[verifier::external_type_specification]
#[verifier::external_body]
pub struct ExTable(Table);

/// One table row as it is handed in: the four cell texts, left to right.
pub type RowV = (Seq<char>, Seq<char>, Seq<char>, Seq<char>);

/// One table row as the table stores it: each cell as the lines of its text.
pub type RowLinesV = (Seq<Seq<char>>, Seq<Seq<char>>, Seq<Seq<char>>, Seq<Seq<char>>);

/// Whether a text is free of the ANSI escape character.
pub open spec fn plain_text(s: Seq<char>) -> bool {
    !s.contains('\u{001b}')
}

/// The position of the first newline, or the length when there is none.
pub open spec fn first_newline(s: Seq<char>) -> nat
    decreases s.len(),
{
    if s.len() == 0 {
        0
    } else if s[0] == '\n' {
        0
    } else {
        1 + first_newline(s.skip(1))
    }
}

/// A line with the carriage return of a CR-LF pair removed.
pub open spec fn strip_cr(line: Seq<char>) -> Seq<char> {
    if line.len() > 0 && line[line.len() - 1] == '\r' {
        line.take(line.len() - 1)
    } else {
        line
    }
}

/// The lines of a text, as `str::lines` reads them: split at newlines, the
/// carriage return of a CR-LF pair removed, no line after a final
/// terminator, and a line without a terminator kept as it stands.
pub open spec fn lines_of(s: Seq<char>) -> Seq<Seq<char>>
    decreases s.len(),
{
    if s.len() == 0 {
        Seq::empty()
    } else {
        let i = first_newline(s) as int;
        if i < s.len() {
            seq![strip_cr(s.take(i))] + lines_of(s.skip(i + 1))
        } else {
            seq![s]
        }
    }
}

proof fn lemma_first_newline(s: Seq<char>)
    ensures
        first_newline(s) <= s.len(),
        forall|k: int| 0 <= k < first_newline(s) ==> s[k] != '\n',
        first_newline(s) < s.len() ==> s[first_newline(s) as int] == '\n',
    decreases s.len(),
{
    if s.len() == 0 {
    } else if s[0] == '\n' {
    } else {
        lemma_first_newline(s.skip(1));
        assert forall|k: int| 0 <= k < first_newline(s) implies s[k] != '\n' by {
            if k >= 1 {
                assert(s.skip(1)[k - 1] == s[k]);
                assert(s.skip(1)[k - 1] != '\n');
            }
        }
        assert(first_newline(s) < s.len() ==> s[first_newline(s) as int] == '\n') by {
            if first_newline(s) < s.len() {
                assert(s.skip(1)[first_newline(s.skip(1)) as int] == s[first_newline(s) as int]);
            }
        }
    }
}

/// Law: a text without a newline fills exactly one line, itself; an empty
/// text fills none.
pub proof fn lemma_lines_of_single(s: Seq<char>)
    requires
        !s.contains('\n'),
    ensures
        s.len() > 0 ==> lines_of(s) == seq![s],
        s.len() == 0 ==> lines_of(s) == Seq::<Seq<char>>::empty(),
{
    lemma_first_newline(s);
    if s.len() > 0 {
        if first_newline(s) < s.len() {
            assert(s.contains('\n')) by {
                assert(s[first_newline(s) as int] == '\n');
            }
        }
        assert(first_newline(s) == s.len());
    }
}

/// The rows a table holds, top to bottom, each cell as the lines of the
/// text it was made from (what the cell reads back, joined with newlines).
pub uninterp spec fn table_rows(t: Table) -> Seq<RowLinesV>;

/// Relies on prettytable's `Table::new`: a new table holds no rows.
#[verifier::external_body]
fn table_new() -> (t: Table)
    ensures
        table_rows(t) == Seq::<RowLinesV>::empty(),
{
    Table::new()
}

/// Relies on prettytable's `Table::add_row` and `Cell::new`: the row is
/// appended after the existing rows, and each cell stores the lines of the
/// text handed to it — `str::lines` drops a final line terminator and the
/// carriage return of a CR-LF pair. `Cell::new` also measures display
/// widths and asserts that an ANSI escape sequence never hides more
/// characters than the text's width; a text without the escape character
/// keeps that measurement's hidden count at zero and cannot trip it.
#[verifier::external_body]
fn table_add_row(t: &mut Table, kind: &str, name: &str, value: &str, state: &str)
    requires
        plain_text(kind@),
        plain_text(name@),
        plain_text(value@),
        plain_text(state@),
    ensures
        table_rows(*final(t)) == table_rows(*old(t)).push(
            (lines_of(kind@), lines_of(name@), lines_of(value@), lines_of(state@)),
        ),
{
    t.add_row(Row::new(vec![Cell::new(kind), Cell::new(name), Cell::new(value), Cell::new(state)]));
}

/// The fixed header texts of every rendered table.
pub open spec fn header_row() -> RowV {
    ("KIND"@, "NAME"@, "VALUE"@, "STATE"@)
}

/// The table row texts of one entry: its kind, name, value and state.
pub open spec fn row_of(l: LookupV) -> RowV {
    (l.kind, l.name, l.value, l.state)
}

/// A row as the table stores it: each cell text as its lines.
pub open spec fn row_lines(r: RowV) -> RowLinesV {
    (lines_of(r.0), lines_of(r.1), lines_of(r.2), lines_of(r.3))
}

/// The body of the rendered table: one row of texts per entry, in order.
pub open spec fn table_body_spec(ls: Seq<LookupV>) -> Seq<RowV> {
    ls.map_values(|l: LookupV| row_of(l))
}

/// The whole rendered table as stored: the fixed header, then one row per
/// entry, each cell as the lines of its text.
pub open spec fn table_spec(ls: Seq<LookupV>) -> Seq<RowLinesV> {
    seq![row_lines(header_row())] + table_body_spec(ls).map_values(|r: RowV| row_lines(r))
}

/// Whether an entry's four fields are free of the ANSI escape character.
pub open spec fn plain_lookup(l: LookupV) -> bool {
    plain_text(l.kind) && plain_text(l.name) && plain_text(l.value) && plain_text(l.state)
}

fn is_plain_text(s: &str) -> (r: bool)
    ensures
        r == plain_text(s@),
{
    let n = s.unicode_len();
    let mut i: usize = 0;
    while i < n
        invariant
            n == s@.len(),
            i <= n,
            forall|k: int| 0 <= k < i ==> s@[k] != '\u{001b}',
        decreases n - i,
    {
        if s.get_char(i) == '\u{001b}' {
            proof {
                assert(s@.contains('\u{001b}')) by {
                    assert(s@[i as int] == '\u{001b}');
                }
            }
            return false;
        }
        i += 1;
    }
    proof {
        assert(!s@.contains('\u{001b}'));
    }
    true
}

fn lookup_is_plain(l: &Lookup) -> (r: bool)
    ensures
        r == plain_lookup(l@),
{
    is_plain_text(l.kind.as_str()) && is_plain_text(l.name.as_str()) && is_plain_text(
        l.value.as_str(),
    ) && is_plain_text(l.state.as_str())
}

/// Build the four-column table: the header row, then one body row per
/// entry, in sequence order. The fields must be free of the ANSI escape
/// character, which `try_build_table` checks for arbitrary input.
pub fn build_table(lookups: &Vec<Lookup>) -> (t: Table)
    requires
        forall|k: int| 0 <= k < lookups@.len() ==> #[trigger] plain_lookup(lookups@[k]@),
    ensures
        table_rows(t) == table_spec(views_of(lookups@)),
{
    proof {
        reveal_strlit("KIND");
        reveal_strlit("NAME");
        reveal_strlit("VALUE");
        reveal_strlit("STATE");
        assert(plain_text("KIND"@)) by {
            assert forall|k: int| 0 <= k < "KIND"@.len() implies "KIND"@[k] != '\u{001b}' by {
                assert(k == 0 || k == 1 || k == 2 || k == 3);
            }
        }
        assert(plain_text("NAME"@)) by {
            assert forall|k: int| 0 <= k < "NAME"@.len() implies "NAME"@[k] != '\u{001b}' by {
                assert(k == 0 || k == 1 || k == 2 || k == 3);
            }
        }
        assert(plain_text("VALUE"@)) by {
            assert forall|k: int| 0 <= k < "VALUE"@.len() implies "VALUE"@[k] != '\u{001b}' by {
                assert(k == 0 || k == 1 || k == 2 || k == 3 || k == 4);
            }
        }
        assert(plain_text("STATE"@)) by {
            assert forall|k: int| 0 <= k < "STATE"@.len() implies "STATE"@[k] != '\u{001b}' by {
                assert(k == 0 || k == 1 || k == 2 || k == 3 || k == 4);
            }
        }
    }
    let mut t = table_new();
    table_add_row(&mut t, "KIND", "NAME", "VALUE", "STATE");
    let mut i: usize = 0;
    while i < lookups.len()
        invariant
            i <= lookups.len(),
            forall|k: int| 0 <= k < lookups@.len() ==> #[trigger] plain_lookup(lookups@[k]@),
            table_rows(t).len() == i + 1,
            table_rows(t)[0] == row_lines(header_row()),
            forall|k: int|
                1 <= k <= i ==> #[trigger] table_rows(t)[k] == row_lines(row_of(lookups@[k - 1]@)),
        decreases lookups.len() - i,
    {
        let l = &lookups[i];
        proof {
            assert(plain_lookup(lookups@[i as int]@));
        }
        table_add_row(&mut t, l.kind.as_str(), l.name.as_str(), l.value.as_str(), l.state.as_str());
        i += 1;
    }
    proof {
        assert(table_rows(t) =~= table_spec(views_of(lookups@)));
    }
    t
}

/// Build the table when every field is free of the ANSI escape character;
/// hand back nothing, and say so, when one is not.
pub fn try_build_table(lookups: &Vec<Lookup>) -> (r: Option<Table>)
    ensures
        match r {
            Some(t) => (forall|k: int|
                0 <= k < lookups@.len() ==> #[trigger] plain_lookup(lookups@[k]@)) && table_rows(t)
                == table_spec(views_of(lookups@)),
            None => !(forall|k: int|
                0 <= k < lookups@.len() ==> #[trigger] plain_lookup(lookups@[k]@)),
        },
{
    let mut i: usize = 0;
    while i < lookups.len()
        invariant
            i <= lookups.len(),
            forall|k: int| 0 <= k < i ==> #[trigger] plain_lookup(lookups@[k]@),
        decreases lookups.len() - i,
    {
        if !lookup_is_plain(&lookups[i]) {
            return None;
        }
        i += 1;
    }
    Some(build_table(lookups))
}

/// Law: the rendered table has exactly one body row per entry; so, when
/// every successful resolution carried at least one record, it has at
/// least one body row per subject — no subject is silently dropped — and
/// exactly one per subject when each carried exactly one record.
pub proof fn lemma_table_rows_per_subject(subjects: Seq<String>, outcomes: Seq<Outcome>)
    requires
        subjects.len() == outcomes.len(),
        forall|i: int|
            0 <= i < outcomes.len() ==> ((#[trigger] outcomes[i]) matches Outcome::Resolved(records)
                ==> records@.len() >= 1),
    ensures
        table_spec(batch_spec(subjects, outcomes)).len() == 1 + batch_spec(
            subjects,
            outcomes,
        ).len(),
        batch_spec(subjects, outcomes).len() >= subjects.len(),
        (forall|i: int|
            0 <= i < outcomes.len() ==> ((#[trigger] outcomes[i]) matches Outcome::Resolved(records)
                ==> records@.len() == 1)) ==> batch_spec(subjects, outcomes).len()
            == subjects.len(),
{
    lemma_batch_count(subjects, outcomes);
}

} // verus!
