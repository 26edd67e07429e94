use vstd::prelude::*;
use vstd::string::StringExecFns;

use crate::model::{views_of, Lookup, LookupV};
use crate::table::{table_body_spec, RowV};
use crate::text::{chars_to_string, push_chars};

verus! {

/// The output a run renders: the default table, a JSON array, or the bare
/// value list.
#[derive(Clone, Copy, Debug, PartialEq, Eq, Structural)]
pub enum OutputFormat {
    Table,
    Json,
    Limited,
}

/// Parse the output selector: exactly "table", "json" and "limited" are
/// recognized; anything else is a fatal configuration error.
pub fn parse_format(s: &String) -> (r: Option<OutputFormat>)
    ensures
        s@ == "table"@ ==> r == Some(OutputFormat::Table),
        s@ == "json"@ ==> r == Some(OutputFormat::Json),
        s@ == "limited"@ ==> r == Some(OutputFormat::Limited),
        (s@ != "table"@ && s@ != "json"@ && s@ != "limited"@) ==> r is None,
{
    proof {
        reveal_strlit("table");
        reveal_strlit("json");
        reveal_strlit("limited");
        assert("table"@.len() == 5);
        assert("json"@.len() == 4);
        assert("limited"@.len() == 7);
        assert("table"@ != "json"@ && "table"@ != "limited"@ && "json"@ != "limited"@);
    }
    if *s == String::from_str("table") {
        Some(OutputFormat::Table)
    } else if *s == String::from_str("json") {
        Some(OutputFormat::Json)
    } else if *s == String::from_str("limited") {
        Some(OutputFormat::Limited)
    } else {
        None
    }
}

/// The limited rendering: every entry's value, one per line, in order.
pub open spec fn limited_spec(ls: Seq<LookupV>) -> Seq<char>
    decreases ls.len(),
{
    if ls.len() == 0 {
        Seq::empty()
    } else {
        ls[0].value + seq!['\n'] + limited_spec(ls.skip(1))
    }
}

/// Extending the entries by one appends exactly its value and a newline.
proof fn lemma_limited_snoc(ls: Seq<LookupV>, i: int)
    requires
        0 <= i < ls.len(),
    ensures
        limited_spec(ls.take(i + 1)) == limited_spec(ls.take(i)) + ls[i].value + seq!['\n'],
    decreases i,
{
    if i == 0 {
        assert(ls.take(1).skip(1) =~= Seq::<LookupV>::empty());
        assert(limited_spec(Seq::<LookupV>::empty()) =~= Seq::<char>::empty());
        assert(limited_spec(ls.take(0)) =~= Seq::<char>::empty());
        assert(limited_spec(ls.take(1)) == ls.take(1)[0].value + seq!['\n'] + limited_spec(
            ls.take(1).skip(1),
        ));
        assert(limited_spec(ls.take(1)) =~= limited_spec(ls.take(0)) + ls[0].value + seq!['\n']);
    } else {
        lemma_limited_snoc(ls.skip(1), i - 1);
        assert(ls.take(i + 1).skip(1) =~= ls.skip(1).take(i));
        assert(ls.take(i).skip(1) =~= ls.skip(1).take(i - 1));
        assert(ls.skip(1)[i - 1] == ls[i]);
        assert(limited_spec(ls.take(i + 1)) =~= limited_spec(ls.take(i)) + ls[i].value + seq![
            '\n',
        ]);
    }
}

/// Render the limited output: the value of each entry, one per line.
pub fn render_limited(lookups: &Vec<Lookup>) -> (r: String)
    ensures
        r@ == limited_spec(views_of(lookups@)),
{
    let ghost vs = views_of(lookups@);
    let mut buf: Vec<char> = Vec::new();
    let mut i: usize = 0;
    while i < lookups.len()
        invariant
            i <= lookups.len(),
            vs == views_of(lookups@),
            vs.len() == lookups@.len(),
            buf@ == limited_spec(vs.take(i as int)),
        decreases lookups.len() - i,
    {
        push_chars(&mut buf, lookups[i].value.as_str());
        buf.push('\n');
        proof {
            lemma_limited_snoc(vs, i as int);
            assert(vs[i as int] == lookups@[i as int]@);
            assert(buf@ =~= limited_spec(vs.take(i as int)) + vs[i as int].value + seq!['\n']);
        }
        i += 1;
    }
    proof {
        assert(vs.take(vs.len() as int) =~= vs);
    }
    chars_to_string(&buf)
}

/// The value column of a sequence of table rows, one value per line.
pub open spec fn value_lines(rows: Seq<RowV>) -> Seq<char>
    decreases rows.len(),
{
    if rows.len() == 0 {
        Seq::empty()
    } else {
        rows[0].2 + seq!['\n'] + value_lines(rows.skip(1))
    }
}

/// Law: the limited rendering is exactly the value column of the rendered
/// table's body rows — one value per line, in the same order, the header
/// excluded.
pub proof fn lemma_limited_is_value_column(ls: Seq<LookupV>)
    ensures
        table_body_spec(ls).len() == ls.len(),
        limited_spec(ls) == value_lines(table_body_spec(ls)),
    decreases ls.len(),
{
    if ls.len() == 0 {
    } else {
        lemma_limited_is_value_column(ls.skip(1));
        assert(table_body_spec(ls).skip(1) =~= table_body_spec(ls.skip(1)));
        assert(table_body_spec(ls)[0].2 == ls[0].value);
        assert(limited_spec(ls) =~= value_lines(table_body_spec(ls)));
    }
}

} // verus!
