use vstd::prelude::*;
use crate::outside::{string_of, table_json_of, table_value};
use crate::text::{
    copy_range, find_char, find_char_from, has_char, lemma_find_char, lines_of, split_lines,
    texts, trim, trimmed,
};

verus! {

/// The texts of a sequence of strings.
pub open spec fn strs(v: Seq<String>) -> Seq<Seq<char>> {
    v.map_values(|x: String| x@)
}

/// The cells of a table line from position `i` on: the segments between
/// pipes, trimmed, with the empty ones left out.
pub open spec fn cells_from(l: Seq<char>, i: int) -> Seq<Seq<char>>
    decreases l.len() - i,
    via cells_from_decreases
{
    if i < 0 || i > l.len() {
        seq![]
    } else {
        let e = find_char(l, '|', i);
        let seg = trim(l.subrange(i, e));
        let rest = if e < l.len() {
            cells_from(l, e + 1)
        } else {
            seq![]
        };
        if seg.len() == 0 {
            rest
        } else {
            seq![seg] + rest
        }
    }
}

#[via_fn]
proof fn cells_from_decreases(l: Seq<char>, i: int) {
    if 0 <= i <= l.len() {
        lemma_find_char(l, '|', i);
    }
}

/// The cells of a table line.
pub open spec fn cells(l: Seq<char>) -> Seq<Seq<char>> {
    cells_from(l, 0)
}

/// The first line at or after `i` that holds a pipe and is followed by a
/// line that holds a dash, or the number of lines.
pub open spec fn header_from(ls: Seq<Seq<char>>, i: int) -> int
    decreases ls.len() - i,
{
    if i < 0 || i + 1 >= ls.len() {
        ls.len() as int
    } else if ls[i].contains('|') && ls[i + 1].contains('-') {
        i
    } else {
        header_from(ls, i + 1)
    }
}

/// The data rows from line `i` on: lines are read until one without a pipe,
/// and a line whose cell count is not `n` is passed over.
pub open spec fn rows_from(ls: Seq<Seq<char>>, n: int, i: int) -> Seq<Seq<Seq<char>>>
    decreases ls.len() - i,
{
    if i < 0 || i >= ls.len() || !ls[i].contains('|') {
        seq![]
    } else {
        let c = cells(ls[i]);
        let rest = rows_from(ls, n, i + 1);
        if c.len() == n {
            seq![c] + rest
        } else {
            rest
        }
    }
}

/// The Markdown table in a text, as its header cells and its rows of cells,
/// if it has at least one header cell and one row.
pub open spec fn table_of(s: Seq<char>) -> Option<(Seq<Seq<char>>, Seq<Seq<Seq<char>>>)> {
    let ls = lines_of(s);
    let h = header_from(ls, 0);
    if h >= ls.len() {
        None
    } else {
        let headers = cells(ls[h]);
        let rows = rows_from(ls, headers.len() as int, h + 2);
        if headers.len() == 0 || rows.len() == 0 {
            None
        } else {
            Some((headers, rows))
        }
    }
}

/// A table read from Markdown: the header cells, and for each accepted row
/// its cells, one per header.
pub struct MarkdownTable {
    pub headers: Vec<String>,
    pub rows: Vec<Vec<String>>,
}

impl View for MarkdownTable {
    type V = (Seq<Seq<char>>, Seq<Seq<Seq<char>>>);

    open spec fn view(&self) -> Self::V {
        (strs(self.headers@), self.rows@.map_values(|r: Vec<String>| strs(r@)))
    }
}

fn push_cell(out: &mut Vec<String>, l: &Vec<char>, i: usize, e: usize)
    requires
        i <= e <= l.len(),
    ensures
        strs(final(out)@) == strs(old(out)@) + (if trim(l@.subrange(i as int, e as int)).len()
            == 0 {
            seq![]
        } else {
            seq![trim(l@.subrange(i as int, e as int))]
        }),
{
    let seg = trimmed(&copy_range(l, i, e));
    if seg.len() > 0 {
        let ghost before = out@;
        out.push(string_of(&seg));
        assert(strs(out@) =~= strs(before) + seq![seg@]);
    } else {
        assert(strs(out@) =~= strs(out@) + seq![]);
    }
}

/// The cells of one table line.
pub fn split_cells(l: &Vec<char>) -> (r: Vec<String>)
    ensures
        strs(r@) == cells(l@),
{
    let mut out: Vec<String> = Vec::new();
    let mut i: usize = 0;
    let mut e = find_char_from(l, '|', 0);
    while e < l.len()
        invariant
            i <= e <= l.len(),
            e as int == find_char(l@, '|', i as int),
            strs(out@) + cells_from(l@, i as int) == cells(l@),
        decreases l.len() - i,
    {
        let ghost before = strs(out@);
        push_cell(&mut out, l, i, e);
        assert(strs(out@) + cells_from(l@, (e + 1) as int) =~= before + cells_from(l@, i as int));
        i = e + 1;
        e = find_char_from(l, '|', i);
    }
    let ghost before = strs(out@);
    push_cell(&mut out, l, i, e);
    assert(strs(out@) =~= before + cells_from(l@, i as int));
    out
}

/// Reads the first Markdown table of a text.
pub fn markdown_table_rows(s: &Vec<char>) -> (r: Option<MarkdownTable>)
    ensures
        match r {
            None => table_of(s@) is None,
            Some(t) => table_of(s@) == Some(t@),
        },
{
    let ls = split_lines(s);
    let ghost lv = lines_of(s@);
    assert(forall|k: int| 0 <= k < ls.len() ==> #[trigger] ls@[k]@ == lv[k]);
    let mut h: usize = 0;
    while h < ls.len() && ls.len() - h > 1 && !(has_char(&ls[h], '|') && has_char(&ls[h + 1], '-'))
        invariant
            h <= ls.len(),
            texts(ls@) == lv,
            header_from(lv, h as int) == header_from(lv, 0),
        decreases ls.len() - h,
    {
        h = h + 1;
    }
    if ls.len() - h <= 1 {
        return None;
    }
    let headers = split_cells(&ls[h]);
    if headers.len() == 0 {
        return None;
    }
    let ghost n = headers.len() as int;
    let mut rows: Vec<Vec<String>> = Vec::new();
    let mut i: usize = h + 2;
    while i < ls.len() && has_char(&ls[i], '|')
        invariant
            h + 2 <= i <= ls.len(),
            n == headers.len(),
            texts(ls@) == lv,
            rows@.map_values(|r: Vec<String>| strs(r@)) + rows_from(lv, n, i as int) == rows_from(
                lv,
                n,
                h + 2,
            ),
        decreases ls.len() - i,
    {
        let c = split_cells(&ls[i]);
        let ghost before = rows@.map_values(|r: Vec<String>| strs(r@));
        if c.len() == headers.len() {
            rows.push(c);
            assert(rows@.map_values(|r: Vec<String>| strs(r@)) =~= before.push(strs(c@)));
        }
        assert(rows@.map_values(|r: Vec<String>| strs(r@)) + rows_from(lv, n, i + 1) =~= before
            + rows_from(lv, n, i as int));
        i = i + 1;
    }
    assert(rows_from(lv, n, i as int) =~= seq![]);
    assert(rows@.map_values(|r: Vec<String>| strs(r@)) =~= rows@.map_values(
        |r: Vec<String>| strs(r@),
    ) + rows_from(lv, n, i as int));
    if rows.len() == 0 {
        return None;
    }
    let t = MarkdownTable { headers, rows };
    assert(t@ == table_of(s@)->Some_0);
    Some(t)
}

/// The first Markdown table of a text as an array with one object per row,
/// from each header to the row's cell under it.
pub fn markdown_table_to_json(s: &Vec<char>) -> (r: Option<serde_json::Value>)
    ensures
        r == match table_of(s@) {
            Some(t) => Some(table_json_of(t)),
            None => None::<serde_json::Value>,
        },
{
    match markdown_table_rows(s) {
        Some(t) => Some(table_value(&t)),
        None => None,
    }
}

} // verus!
