//! Server-formatted tables: column definitions and the display widths of
//! their columns.
use unicode_width::UnicodeWidthStr;
use vstd::prelude::*;

verus! {

/// The display width, in terminal columns, of a string: a double-width glyph
/// counts as two columns.
pub uninterp spec fn display_width(s: Seq<char>) -> usize;

/// Relies on unicode-width's `UnicodeWidthStr::width`, the displayed width
/// of a string in columns (zero for the empty string).
#[verifier::external_body]
fn str_width(s: &str) -> (r: usize)
    ensures
        r == display_width(s@),
        s@.len() == 0 ==> r == 0,
{
    s.width()
}

/// One column of a server-formatted table.
#[derive(Debug, Clone)]
pub struct ColumnDefinition {
    /// Header of the column.
    pub name: String,
    /// Type of the column's values, as the server declares it.
    pub column_type: String,
    /// What the column holds.
    pub description: String,
    /// Format hint for the column's values.
    pub format: String,
    /// Importance of the column; 0 is the most important.
    pub priority: u8,
}

/// Deep view of a table's rendered rows.
pub open spec fn rows_view(rows: Seq<Vec<String>>) -> Seq<Seq<Seq<char>>> {
    rows.map_values(|r: Vec<String>| r@.map_values(|s: String| s@))
}

/// Width of column `i` with header `header` over `rows`: the widest of the
/// header and of cell `i` of each row that has one.
pub open spec fn column_width(header: Seq<char>, rows: Seq<Seq<Seq<char>>>, i: int) -> usize
    decreases rows.len(),
{
    if rows.len() == 0 {
        display_width(header)
    } else {
        let prev = column_width(header, rows.drop_last(), i);
        let last = rows.last();
        if 0 <= i < last.len() && display_width(last[i]) > prev {
            display_width(last[i])
        } else {
            prev
        }
    }
}

/// The widths of the columns headed by `headers` over `rows`, one per header.
pub open spec fn column_widths_spec(headers: Seq<Seq<char>>, rows: Seq<Seq<Seq<char>>>) -> Seq<
    usize,
> {
    Seq::new(headers.len(), |i: int| column_width(headers[i], rows, i))
}

/// Display width of each column: the widest of its header and of its cell in
/// every row. A row with fewer cells than headers contributes the cells it
/// has; cells beyond the last header are not shown and do not count.
pub fn column_widths(headers: &Vec<String>, rows: &Vec<Vec<String>>) -> (r: Vec<usize>)
    ensures
        r@ == column_widths_spec(headers@.map_values(|s: String| s@), rows_view(rows@)),
{
    let ghost hs = headers@.map_values(|s: String| s@);
    let ghost rs = rows_view(rows@);
    let mut widths: Vec<usize> = Vec::new();
    let mut c: usize = 0;
    while c < headers.len()
        invariant
            c <= headers.len(),
            hs == headers@.map_values(|s: String| s@),
            widths@.len() == c,
            forall|j: int| 0 <= j < c ==> widths@[j] == column_width(hs[j], rs.take(0), j),
        decreases headers.len() - c,
    {
        widths.push(str_width(headers[c].as_str()));
        c += 1;
    }
    let mut r: usize = 0;
    while r < rows.len()
        invariant
            r <= rows.len(),
            hs == headers@.map_values(|s: String| s@),
            rs == rows_view(rows@),
            widths@.len() == headers@.len(),
            forall|j: int| 0 <= j < widths@.len() ==> widths@[j] == column_width(hs[j], rs.take(r as int), j),
        decreases rows.len() - r,
    {
        let row = &rows[r];
        let ghost before = widths@;
        proof {
            assert(rs.take(r + 1).drop_last() =~= rs.take(r as int));
            assert(rs.take(r + 1).last() == rs[r as int]);
            assert(rs[r as int] == row@.map_values(|s: String| s@));
        }
        let mut j: usize = 0;
        while j < widths.len()
            invariant
                r < rows.len(),
                rs == rows_view(rows@),
                rs.len() == rows@.len(),
                hs == headers@.map_values(|s: String| s@),
                before.len() == hs.len(),
                j <= widths@.len(),
                widths@.len() == before.len(),
                row@.map_values(|s: String| s@) == rs.take(r + 1).last(),
                rs.take(r + 1).drop_last() == rs.take(r as int),
                forall|k: int| 0 <= k < before.len() ==> before[k] == column_width(hs[k], rs.take(r as int), k),
                forall|k: int| 0 <= k < j ==> widths@[k] == column_width(hs[k], rs.take(r + 1), k),
                forall|k: int| j <= k < widths@.len() ==> widths@[k] == before[k],
            decreases widths@.len() - j,
        {
            let ghost t = rs.take(r + 1);
            let ghost prev = widths@[j as int];
            assert(prev == before[j as int]);
            assert(before[j as int] == column_width(hs[j as int], rs.take(r as int), j as int));
            assert(t.drop_last() == rs.take(r as int));
            if j < row.len() {
                let w = str_width(row[j].as_str());
                proof {
                    assert(t.last()[j as int] == row@[j as int]@);
                }
                if w > widths[j] {
                    widths.set(j, w);
                }
            }
            proof {
                assert(t.len() > 0);
                assert(column_width(hs[j as int], t, j as int) == widths@[j as int]);
            }
            j += 1;
        }
        r += 1;
    }
    proof {
        assert(rs.take(r as int) =~= rs);
        assert(widths@ =~= column_widths_spec(hs, rs));
    }
    widths
}

/// The header of each column, in order.
pub fn header_strings(columns: &Vec<ColumnDefinition>) -> (r: Vec<String>)
    ensures
        r@.len() == columns@.len(),
        forall|i: int| 0 <= i < r@.len() ==> #[trigger] r@[i]@ == columns@[i].name@,
{
    let mut r: Vec<String> = Vec::new();
    let mut i: usize = 0;
    while i < columns.len()
        invariant
            i <= columns.len(),
            r@.len() == i,
            forall|k: int| 0 <= k < i ==> #[trigger] r@[k]@ == columns@[k].name@,
        decreases columns.len() - i,
    {
        r.push(columns[i].name.clone());
        i += 1;
    }
    r
}

/// Without rows, the widths are exactly the display widths of the headers.
pub proof fn lemma_widths_without_rows(headers: Seq<Seq<char>>)
    ensures
        column_widths_spec(headers, Seq::empty()) == headers.map_values(|h: Seq<char>| display_width(h)),
{
    assert(column_widths_spec(headers, Seq::empty()) =~= headers.map_values(
        |h: Seq<char>| display_width(h),
    ));
}

/// A column is never narrower than its header, nor than its cell in any
/// row that has one.
pub proof fn lemma_width_covers_cells(header: Seq<char>, rows: Seq<Seq<Seq<char>>>, i: int)
    ensures
        column_width(header, rows, i) >= display_width(header),
        forall|r: int|
            0 <= r < rows.len() && 0 <= i < rows[r].len() ==> column_width(header, rows, i)
                >= display_width(#[trigger] rows[r][i]),
    decreases rows.len(),
{
    if rows.len() > 0 {
        lemma_width_covers_cells(header, rows.drop_last(), i);
        assert forall|r: int|
            0 <= r < rows.len() && 0 <= i < rows[r].len() implies column_width(header, rows, i)
                >= display_width(#[trigger] rows[r][i]) by {
            if r < rows.len() - 1 {
                assert(rows.drop_last()[r] == rows[r]);
            }
        }
    }
}

} // verus!
