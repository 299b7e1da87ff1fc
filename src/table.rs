//! A table of text cells with a header row, for the command-line listing.

use vstd::prelude::*;
use crate::command::{strs_view, lemma_strs_view_push};
use crate::text::owned;

verus! {

pub struct Table {
    pub headers: Vec<String>,
    pub lines: Vec<Vec<String>>,
}

pub open spec fn lines_view(lines: Seq<Vec<String>>) -> Seq<Seq<Seq<char>>> {
    lines.map_values(|l: Vec<String>| strs_view(l@))
}

pub open spec fn refs_view(v: Seq<&str>) -> Seq<Seq<char>> {
    v.map_values(|s: &str| s@)
}

pub proof fn lemma_lines_view_push(v: Seq<Vec<String>>, l: Vec<String>)
    ensures
        lines_view(v.push(l)) == lines_view(v).push(strs_view(l@)),
{
    assert(lines_view(v.push(l)) =~= lines_view(v).push(strs_view(l@)));
}

pub fn copy_strings(v: &[String]) -> (r: Vec<String>)
    ensures
        strs_view(r@) == strs_view(v@),
{
    let mut r: Vec<String> = Vec::new();
    let mut i: usize = 0;
    while i < v.len()
        invariant
            i <= v@.len(),
            strs_view(r@) == strs_view(v@).take(i as int),
        decreases v.len() - i,
    {
        let s = v[i].clone();
        proof {
            lemma_strs_view_push(r@, s);
        }
        r.push(s);
        assert(strs_view(r@) =~= strs_view(v@).take(i + 1));
        i = i + 1;
    }
    assert(strs_view(v@).take(i as int) =~= strs_view(v@));
    r
}

/// The width of column `c` over the header and the first `k` lines: its
/// longest cell, in characters.
pub open spec fn col_width(headers: Seq<Seq<char>>, lines: Seq<Seq<Seq<char>>>, c: int, k: int) -> nat
    decreases k,
{
    if k <= 0 {
        headers[c].len()
    } else {
        let w = col_width(headers, lines, c, k - 1);
        if c < lines[k - 1].len() && lines[k - 1][c].len() > w {
            lines[k - 1][c].len()
        } else {
            w
        }
    }
}

pub open spec fn repeat(c: char, n: nat) -> Seq<char> {
    Seq::new(n, |i: int| c)
}

/// A cell right-aligned in its column's width plus two.
pub open spec fn padded(cell: Seq<char>, width: nat) -> Seq<char> {
    repeat(' ', (width + 2 - cell.len()) as nat) + cell
}

pub open spec fn row_text(cells: Seq<Seq<char>>, widths: Seq<nat>) -> Seq<char>
    decreases cells.len(),
{
    if cells.len() == 0 {
        Seq::empty()
    } else {
        row_text(cells.drop_last(), widths) + padded(cells.last(), widths[cells.len() - 1])
    }
}

/// The rule under the header: as long as the columns with their gaps.
pub open spec fn rule(widths: Seq<nat>) -> Seq<char>
    decreases widths.len(),
{
    if widths.len() == 0 {
        Seq::empty()
    } else {
        rule(widths.drop_last()) + repeat('-', widths.last() + 2)
    }
}

pub open spec fn body_text(lines: Seq<Seq<Seq<char>>>, widths: Seq<nat>) -> Seq<char>
    decreases lines.len(),
{
    if lines.len() == 0 {
        Seq::empty()
    } else {
        body_text(lines.drop_last(), widths) + row_text(lines.last(), widths) + seq!['\n']
    }
}

pub open spec fn widths_of(headers: Seq<Seq<char>>, lines: Seq<Seq<Seq<char>>>) -> Seq<nat> {
    Seq::new(headers.len(), |c: int| col_width(headers, lines, c, lines.len() as int))
}

/// The table as text: the header row, a rule, and the lines, each cell
/// right-aligned in its column.
pub open spec fn table_text(headers: Seq<Seq<char>>, lines: Seq<Seq<Seq<char>>>) -> Seq<char> {
    let widths = widths_of(headers, lines);
    row_text(headers, widths) + seq!['\n'] + rule(widths) + seq!['\n'] + body_text(lines, widths)
}

proof fn lemma_col_width_bound(headers: Seq<Seq<char>>, lines: Seq<Seq<Seq<char>>>, c: int, k: int, j: int)
    requires
        0 <= j < k <= lines.len(),
        c < lines[j].len(),
    ensures
        lines[j][c].len() <= col_width(headers, lines, c, k),
    decreases k,
{
    if j < k - 1 {
        lemma_col_width_bound(headers, lines, c, k - 1, j);
    }
}

proof fn lemma_col_width_header(headers: Seq<Seq<char>>, lines: Seq<Seq<Seq<char>>>, c: int, k: int)
    ensures
        headers[c].len() <= col_width(headers, lines, c, k),
    decreases k,
{
    if k > 0 {
        lemma_col_width_header(headers, lines, c, k - 1);
    }
}

fn append_repeat(text: &mut String, piece: &str, n: usize)
    requires
        piece@.len() == 1,
    ensures
        final(text)@ == old(text)@ + repeat(piece@[0], n as nat),
{
    let mut i: usize = 0;
    while i < n
        invariant
            piece@.len() == 1,
            i <= n,
            text@ == old(text)@ + repeat(piece@[0], i as nat),
        decreases n - i,
    {
        text.append(piece);
        assert(text@ =~= old(text)@ + repeat(piece@[0], (i + 1) as nat));
        i = i + 1;
    }
}

fn append_padded(text: &mut String, cell: &str, width: usize)
    requires
        cell@.len() <= width,
    ensures
        final(text)@ == old(text)@ + padded(cell@, width as nat),
{
    let len = cell.unicode_len();
    proof {
        reveal_strlit(" ");
    }
    append_repeat(text, " ", width - len);
    append_repeat(text, " ", 2);
    text.append(cell);
    assert(repeat(' ', (width - len) as nat) + repeat(' ', 2) =~= repeat(' ', (width + 2 - len) as nat));
    assert(text@ =~= old(text)@ + padded(cell@, width as nat));
}

fn append_row(text: &mut String, cells: &Vec<String>, widths: &Vec<usize>)
    requires
        cells@.len() <= widths@.len(),
        forall|c: int| 0 <= c < cells@.len() ==> (#[trigger] cells@[c])@.len() <= widths@[c],
    ensures
        final(text)@ == old(text)@ + row_text(strs_view(cells@), widths@.map_values(|w: usize| w as nat)),
{
    let ghost ws = widths@.map_values(|w: usize| w as nat);
    let mut c: usize = 0;
    while c < cells.len()
        invariant
            c <= cells@.len(),
            cells@.len() <= widths@.len(),
            ws == widths@.map_values(|w: usize| w as nat),
            forall|c: int| 0 <= c < cells@.len() ==> (#[trigger] cells@[c])@.len() <= widths@[c],
            text@ == old(text)@ + row_text(strs_view(cells@).take(c as int), ws),
        decreases cells.len() - c,
    {
        append_padded(text, cells[c].as_str(), widths[c]);
        assert(strs_view(cells@).take(c + 1).drop_last() == strs_view(cells@).take(c as int));
        assert(text@ =~= old(text)@ + row_text(strs_view(cells@).take(c + 1), ws));
        c = c + 1;
    }
    assert(strs_view(cells@).take(c as int) == strs_view(cells@));
}

impl Table {
    /// Every line has at most as many cells as there are headers.
    pub open spec fn fits(self) -> bool {
        forall|k: int| 0 <= k < self.lines@.len() ==> (#[trigger] self.lines@[k])@.len() <= self.headers@.len()
    }

    /// The table as text, each cell right-aligned in its column.
    pub fn render(&self) -> (r: String)
        requires
            self.fits(),
        ensures
            r@ == table_text(self.headers_view(), self.lines_view()),
    {
        let ghost hv = self.headers_view();
        let ghost lv = self.lines_view();
        let mut widths: Vec<usize> = Vec::new();
        let mut c: usize = 0;
        while c < self.headers.len()
            invariant
                c <= self.headers@.len(),
                hv == self.headers_view(),
                lv == self.lines_view(),
                widths@.len() == c,
                forall|j: int| 0 <= j < c ==> #[trigger] widths@[j] == col_width(hv, lv, j, lv.len() as int),
            decreases self.headers.len() - c,
        {
            let mut w = self.headers[c].as_str().unicode_len();
            let mut k: usize = 0;
            while k < self.lines.len()
                invariant
                    k <= self.lines@.len(),
                    c < self.headers@.len(),
                    hv == self.headers_view(),
                    lv == self.lines_view(),
                    w == col_width(hv, lv, c as int, k as int),
                decreases self.lines.len() - k,
            {
                let line = &self.lines[k];
                assert(lv[k as int] == strs_view(line@));
                if c < line.len() {
                    let n = line[c].as_str().unicode_len();
                    if n > w {
                        w = n;
                    }
                }
                k = k + 1;
            }
            widths.push(w);
            c = c + 1;
        }
        let ghost ws = widths@.map_values(|w: usize| w as nat);
        assert(ws =~= widths_of(hv, lv));
        proof {
            reveal_strlit("\n");
            reveal_strlit("-");
        }
        let mut text = String::new();
        assert forall|c: int| 0 <= c < self.headers@.len() implies (#[trigger] self.headers@[c])@.len() <= widths@[c] by {
            lemma_col_width_header(hv, lv, c, lv.len() as int);
        }
        append_row(&mut text, &self.headers, &widths);
        text.append("\n");
        let mut c: usize = 0;
        while c < widths.len()
            invariant
                c <= widths@.len(),
                ws == widths@.map_values(|w: usize| w as nat),
                text@ == row_text(hv, ws) + seq!['\n'] + rule(ws.take(c as int)),
            decreases widths.len() - c,
        {
            proof {
                reveal_strlit("-");
            }
            append_repeat(&mut text, "-", widths[c]);
            append_repeat(&mut text, "-", 2);
            assert(ws.take(c + 1).drop_last() == ws.take(c as int));
            assert(repeat('-', ws[c as int]) + repeat('-', 2) =~= repeat('-', ws[c as int] + 2));
            assert(text@ =~= row_text(hv, ws) + seq!['\n'] + rule(ws.take(c + 1)));
            c = c + 1;
        }
        assert(ws.take(c as int) == ws);
        text.append("\n");
        let ghost head = text@;
        let mut k: usize = 0;
        while k < self.lines.len()
            invariant
                k <= self.lines@.len(),
                self.fits(),
                hv == self.headers_view(),
                lv == self.lines_view(),
                widths@.len() == self.headers@.len(),
                ws == widths@.map_values(|w: usize| w as nat),
                forall|j: int| 0 <= j < widths@.len() ==> #[trigger] widths@[j] == col_width(hv, lv, j, lv.len() as int),
                text@ == head + body_text(lv.take(k as int), ws),
            decreases self.lines.len() - k,
        {
            let line = &self.lines[k];
            assert(lv[k as int] == strs_view(line@));
            assert forall|c: int| 0 <= c < line@.len() implies (#[trigger] line@[c])@.len() <= widths@[c] by {
                assert(lv[k as int][c] == line@[c]@);
                lemma_col_width_bound(hv, lv, c, lv.len() as int, k as int);
            }
            append_row(&mut text, line, &widths);
            proof {
                reveal_strlit("\n");
            }
            text.append("\n");
            assert(lv.take(k + 1).drop_last() == lv.take(k as int));
            assert(text@ =~= head + body_text(lv.take(k + 1), ws));
            k = k + 1;
        }
        assert(lv.take(k as int) == lv);
        text
    }

    pub open spec fn headers_view(self) -> Seq<Seq<char>> {
        strs_view(self.headers@)
    }

    pub open spec fn lines_view(self) -> Seq<Seq<Seq<char>>> {
        lines_view(self.lines@)
    }

    /// A table with the given rows and headers.
    pub fn new(data: &[Vec<String>], headers: &[&str]) -> (r: Table)
        ensures
            r.headers_view() == refs_view(headers@),
            r.lines_view() == lines_view(data@),
    {
        let mut header_cells: Vec<String> = Vec::new();
        let mut i: usize = 0;
        while i < headers.len()
            invariant
                i <= headers@.len(),
                strs_view(header_cells@) == refs_view(headers@).take(i as int),
            decreases headers.len() - i,
        {
            let s = owned(headers[i]);
            proof {
                lemma_strs_view_push(header_cells@, s);
            }
            header_cells.push(s);
            assert(strs_view(header_cells@) =~= refs_view(headers@).take(i + 1));
            i = i + 1;
        }
        assert(refs_view(headers@).take(i as int) =~= refs_view(headers@));
        let mut lines: Vec<Vec<String>> = Vec::new();
        let mut k: usize = 0;
        while k < data.len()
            invariant
                k <= data@.len(),
                lines_view(lines@) == lines_view(data@).take(k as int),
            decreases data.len() - k,
        {
            let line = copy_strings(data[k].as_slice());
            proof {
                lemma_lines_view_push(lines@, line);
            }
            lines.push(line);
            assert(lines_view(lines@) =~= lines_view(data@).take(k + 1));
            k = k + 1;
        }
        assert(lines_view(data@).take(k as int) =~= lines_view(data@));
        Table { headers: header_cells, lines }
    }

    /// Inserts a column at `index`: the header, and the `k`-th entry of
    /// `column` into the `k`-th line, for the lines that have an entry.
    pub fn insert_column(&mut self, index: usize, header: &str, column: &[String])
        requires
            index <= old(self).headers@.len(),
            forall|k: int|
                0 <= k < old(self).lines@.len() && k < column@.len() ==> index <= (
                #[trigger] old(self).lines@[k])@.len(),
        ensures
            final(self).headers_view() == old(self).headers_view().insert(index as int, header@),
            final(self).lines@.len() == old(self).lines@.len(),
            forall|k: int|
                0 <= k < old(self).lines@.len() ==> #[trigger] final(self).lines_view()[k] == if k
                    < column@.len() {
                    old(self).lines_view()[k].insert(index as int, column@[k]@)
                } else {
                    old(self).lines_view()[k]
                },
    {
        let ghost old_headers = self.headers@;
        self.headers.insert(index, owned(header));
        assert(strs_view(self.headers@) =~= strs_view(old_headers).insert(index as int, header@));
        let n = self.lines.len();
        let mut k: usize = 0;
        while k < n && k < column.len()
            invariant
                n == self.lines@.len(),
                n == old(self).lines@.len(),
                k <= n,
                k <= column@.len(),
                index <= old(self).headers@.len(),
                forall|k: int|
                    0 <= k < old(self).lines@.len() && k < column@.len() ==> index <= (
                    #[trigger] old(self).lines@[k])@.len(),
                self.headers_view() == old(self).headers_view().insert(index as int, header@),
                forall|j: int|
                    0 <= j < n ==> #[trigger] self.lines_view()[j] == if j < k {
                        old(self).lines_view()[j].insert(index as int, column@[j]@)
                    } else {
                        old(self).lines_view()[j]
                    },
            decreases n - k,
        {
            let ghost before = self.lines@;
            let ghost before_view = self.lines_view();
            assert(self.lines_view()[k as int] == strs_view(before[k as int]@));
            proof {
                before.remove_ensures(k as int);
            }
            let mut line = self.lines.remove(k);
            assert(strs_view(line@) == old(self).lines_view()[k as int]);
            let ghost removed = self.lines@;
            let ghost old_line = line@;
            line.insert(index, column[k].clone());
            assert(strs_view(line@) =~= strs_view(old_line).insert(index as int, column@[k as int]@));
            self.lines.insert(k, line);
            proof {
                removed.insert_ensures(k as int, line);
                assert forall|j: int| 0 <= j < n implies #[trigger] self.lines_view()[j] == if j
                    < k + 1 {
                    old(self).lines_view()[j].insert(index as int, column@[j]@)
                } else {
                    old(self).lines_view()[j]
                } by {
                    assert(before_view[j] == if j < k {
                        old(self).lines_view()[j].insert(index as int, column@[j]@)
                    } else {
                        old(self).lines_view()[j]
                    });
                    assert(before_view[j] == strs_view(before[j]@));
                    if j < k {
                        assert(self.lines@[j] == before[j]);
                        assert(self.lines_view()[j] == strs_view(self.lines@[j]@));
                    } else if j > k {
                        assert(self.lines@[j] == removed[j - 1]);
                        assert(self.lines@[j] == before[j]);
                        assert(self.lines_view()[j] == strs_view(self.lines@[j]@));
                    } else {
                        assert(self.lines_view()[j] == strs_view(self.lines@[j]@));
                    }
                }
            }
            k = k + 1;
        }
        assert forall|j: int| 0 <= j < old(self).lines@.len() implies #[trigger] self.lines_view()[j] == if j
            < column@.len() {
            old(self).lines_view()[j].insert(index as int, column@[j]@)
        } else {
            old(self).lines_view()[j]
        } by {
            assert(self.lines_view()[j] == if j < k {
                old(self).lines_view()[j].insert(index as int, column@[j]@)
            } else {
                old(self).lines_view()[j]
            });
        }
    }
}

} // verus!
