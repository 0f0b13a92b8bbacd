//! The result renderer: a deterministic, aligned tabular text report.
//! Row order is kept exactly as given; a row whose cell count does not
//! match the header is rejected outright rather than truncated or
//! padded.

use vstd::prelude::*;
use vstd::string::*;

use crate::text::chars_to_string;
use crate::text::str_chars;
use crate::text::strs_of;

verus! {

/// Horizontal alignment of one column.
#[derive(Clone, Copy, PartialEq, Eq, Structural)]
pub enum CellAlignment {
    Left,
    Center,
    Right,
}

/// `n` space characters.
pub open spec fn spaces(n: int) -> Seq<char>
    decreases n,
{
    if n <= 0 {
        Seq::<char>::empty()
    } else {
        spaces(n - 1).push(' ')
    }
}

/// One cell padded to `width` under alignment `a`.
pub open spec fn pad_cell(text: Seq<char>, width: int, a: CellAlignment) -> Seq<char> {
    let fill = width - text.len();
    match a {
        CellAlignment::Left => text + spaces(fill),
        CellAlignment::Right => spaces(fill) + text,
        CellAlignment::Center => spaces(fill / 2) + text + spaces(fill - fill / 2),
    }
}

/// The alignment of column `j`: the first entry for `j`, or left.
pub open spec fn align_of(aligns: Seq<(usize, CellAlignment)>, j: int) -> CellAlignment
    decreases aligns.len(),
{
    if aligns.len() == 0 {
        CellAlignment::Left
    } else if aligns[0].0 == j {
        aligns[0].1
    } else {
        align_of(aligns.drop_first(), j)
    }
}

/// The text of the first `k` cells of one row, separated by ` | `.
pub open spec fn row_take(
    cells: Seq<Seq<char>>,
    widths: Seq<usize>,
    aligns: Seq<(usize, CellAlignment)>,
    k: int,
) -> Seq<char>
    decreases k,
{
    if k <= 0 {
        Seq::<char>::empty()
    } else {
        row_take(cells, widths, aligns, k - 1) + (if k == 1 {
            Seq::<char>::empty()
        } else {
            " | "@
        }) + pad_cell(cells[k - 1], widths[k - 1] as int, align_of(aligns, k - 1))
    }
}

/// The text of one full table row.
pub open spec fn row_text(
    cells: Seq<Seq<char>>,
    widths: Seq<usize>,
    aligns: Seq<(usize, CellAlignment)>,
) -> Seq<char> {
    row_take(cells, widths, aligns, cells.len() as int)
}

/// Width of column `j` over the header and the first `i` rows.
pub open spec fn width_take(
    header: Seq<Seq<char>>,
    rows: Seq<Seq<Seq<char>>>,
    j: int,
    i: int,
) -> int
    decreases i,
{
    if i <= 0 {
        header[j].len() as int
    } else {
        let w = width_take(header, rows, j, i - 1);
        if rows[i - 1][j].len() > w {
            rows[i - 1][j].len() as int
        } else {
            w
        }
    }
}

/// Width of column `j` over the header and all rows.
pub open spec fn col_width(header: Seq<Seq<char>>, rows: Seq<Seq<Seq<char>>>, j: int) -> int {
    width_take(header, rows, j, rows.len() as int)
}

/// The view of one row of strings as character sequences.
pub open spec fn row_view(row: Seq<String>) -> Seq<Seq<char>> {
    strs_of(row)
}

/// The views of all rows.
pub open spec fn rows_view(rows: Seq<Vec<String>>) -> Seq<Seq<Seq<char>>> {
    Seq::new(rows.len(), |i: int| strs_of(rows[i]@))
}

/// Looks up the alignment of column `j`.
fn alignment_for(aligns: &Vec<(usize, CellAlignment)>, j: usize) -> (r: CellAlignment)
    ensures
        r == align_of(aligns@, j as int),
{
    let mut i: usize = 0;
    proof {
        assert(aligns@.skip(0) =~= aligns@);
    }
    loop
        invariant
            i <= aligns@.len(),
            align_of(aligns@, j as int) == align_of(aligns@.skip(i as int), j as int),
        decreases aligns@.len() - i,
    {
        if i == aligns.len() {
            return CellAlignment::Left;
        }
        let (col, a) = aligns[i];
        if col == j {
            proof {
                assert(aligns@.skip(i as int)[0] == aligns@[i as int]);
            }
            return a;
        }
        proof {
            assert(aligns@.skip(i as int)[0] == aligns@[i as int]);
            assert(aligns@.skip(i as int).drop_first() =~= aligns@.skip(i + 1));
        }
        i += 1;
    }
}

/// Appends `n` spaces to `out`.
fn push_spaces(out: &mut Vec<char>, n: usize)
    ensures
        final(out)@ == old(out)@ + spaces(n as int),
{
    let mut k: usize = 0;
    while k < n
        invariant
            k <= n,
            out@ == old(out)@ + spaces(k as int),
        decreases n - k,
    {
        out.push(' ');
        k += 1;
    }
}

/// Appends one cell padded to `width` under `a` to `out`.
fn push_padded(out: &mut Vec<char>, text: &String, width: usize, a: CellAlignment)
    requires
        text@.len() <= width,
    ensures
        final(out)@ == old(out)@ + pad_cell(text@, width as int, a),
{
    let chars = str_chars(text.as_str());
    let fill = width - chars.len();
    match a {
        CellAlignment::Left => {
            let mut k: usize = 0;
            while k < chars.len()
                invariant
                    chars@ == text@,
                    k <= chars.len(),
                    out@ == old(out)@ + text@.take(k as int),
                decreases chars.len() - k,
            {
                out.push(chars[k]);
                proof {
                    assert(text@.take(k + 1) =~= text@.take(k as int).push(text@[k as int]));
                }
                k += 1;
            }
            proof {
                assert(text@.take(text@.len() as int) =~= text@);
            }
            push_spaces(out, fill);
        },
        CellAlignment::Right => {
            push_spaces(out, fill);
            let mut k: usize = 0;
            while k < chars.len()
                invariant
                    chars@ == text@,
                    fill == width - text@.len(),
                    k <= chars.len(),
                    out@ == old(out)@ + spaces(fill as int) + text@.take(k as int),
                decreases chars.len() - k,
            {
                out.push(chars[k]);
                proof {
                    assert(text@.take(k + 1) =~= text@.take(k as int).push(text@[k as int]));
                }
                k += 1;
            }
            proof {
                assert(text@.take(text@.len() as int) =~= text@);
            }
        },
        CellAlignment::Center => {
            let left = fill / 2;
            push_spaces(out, left);
            let mut k: usize = 0;
            while k < chars.len()
                invariant
                    chars@ == text@,
                    fill == width - text@.len(),
                    left == fill / 2,
                    k <= chars.len(),
                    out@ == old(out)@ + spaces(left as int) + text@.take(k as int),
                decreases chars.len() - k,
            {
                out.push(chars[k]);
                proof {
                    assert(text@.take(k + 1) =~= text@.take(k as int).push(text@[k as int]));
                }
                k += 1;
            }
            proof {
                assert(text@.take(text@.len() as int) =~= text@);
            }
            push_spaces(out, fill - left);
        },
    }
    proof {
        assert(out@ =~= old(out)@ + pad_cell(text@, width as int, a));
    }
}

/// Renders one row of cells against the column widths and alignments.
fn render_line(
    cells: &Vec<String>,
    widths: &Vec<usize>,
    aligns: &Vec<(usize, CellAlignment)>,
) -> (r: String)
    requires
        cells@.len() == widths@.len(),
        forall|j: int| 0 <= j < cells@.len() ==> (#[trigger] cells@[j]@).len() <= widths@[j],
    ensures
        r@ == row_text(strs_of(cells@), widths@, aligns@),
{
    let mut out: Vec<char> = Vec::new();
    let mut j: usize = 0;
    while j < cells.len()
        invariant
            cells@.len() == widths@.len(),
            forall|q: int| 0 <= q < cells@.len() ==> (#[trigger] cells@[q]@).len() <= widths@[q],
            j <= cells@.len(),
            out@ == row_take(strs_of(cells@), widths@, aligns@, j as int),
        decreases cells.len() - j,
    {
        if j > 0 {
            out.push(' ');
            out.push('|');
            out.push(' ');
            proof {
                reveal_strlit(" | ");
                assert(" | "@.len() == 3);
                assert(" | "@[0] == ' ' && " | "@[1] == '|' && " | "@[2] == ' ');
                assert(out@ =~= row_take(strs_of(cells@), widths@, aligns@, j as int) + " | "@);
            }
        }
        let a = alignment_for(aligns, j);
        push_padded(&mut out, &cells[j], widths[j], a);
        proof {
            assert(strs_of(cells@)[j as int] == cells@[j as int]@);
            assert(out@ =~= row_take(strs_of(cells@), widths@, aligns@, j + 1));
        }
        j += 1;
    }
    chars_to_string(&out)
}

/// Renders the table: the header line first, then exactly one line per
/// row, in the order given.
///
/// Law: with N header cells and M rows of N cells each the result holds
/// exactly M + 1 lines — the header and one line per row, each rendered
/// from its own row, in the input order; where some row's cell count
/// differs from N, no table is produced at all.
pub fn render(
    header: &Vec<String>,
    alignment: &Vec<(usize, CellAlignment)>,
    rows: &Vec<Vec<String>>,
) -> (r: Option<Vec<String>>)
    ensures
        r is Some <==> (forall|i: int|
            0 <= i < rows@.len() ==> (#[trigger] rows@[i]@).len() == header@.len()),
        r matches Some(lines) ==> {
            let widths = Seq::new(
                header@.len(),
                |j: int| col_width(strs_of(header@), rows_view(rows@), j) as usize,
            );
            &&& lines@.len() == rows@.len() + 1
            &&& lines@[0]@ == row_text(strs_of(header@), widths, alignment@)
            &&& forall|i: int|
                0 <= i < rows@.len() ==> (#[trigger] lines@[i + 1]@) == row_text(
                    strs_of(rows@[i]@),
                    widths,
                    alignment@,
                )
        },
{
    let n = header.len();
    // reject any row whose cell count does not match the header
    let mut i: usize = 0;
    while i < rows.len()
        invariant
            n == header@.len(),
            i <= rows@.len(),
            forall|q: int| 0 <= q < i ==> (#[trigger] rows@[q]@).len() == n,
        decreases rows.len() - i,
    {
        if rows[i].len() != n {
            return None;
        }
        i += 1;
    }
    // column widths over the header and all rows
    let ghost widths_spec = Seq::new(
        header@.len(),
        |j: int| col_width(strs_of(header@), rows_view(rows@), j) as usize,
    );
    let mut widths: Vec<usize> = Vec::new();
    let mut j: usize = 0;
    while j < n
        invariant
            n == header@.len(),
            forall|q: int| 0 <= q < rows@.len() ==> (#[trigger] rows@[q]@).len() == n,
            j <= n,
            widths@.len() == j,
            forall|q: int|
                0 <= q < j ==> (#[trigger] widths@[q]) as int == col_width(
                    strs_of(header@),
                    rows_view(rows@),
                    q,
                ),
            forall|q: int| 0 <= q < j ==> header@[q]@.len() <= #[trigger] widths@[q],
            forall|q: int, p: int|
                0 <= q < j && 0 <= p < rows@.len() ==> (#[trigger] rows@[p]@[q]@).len()
                    <= widths@[q],
        decreases n - j,
    {
        let mut w: usize = header[j].as_str().unicode_len();
        let mut p: usize = 0;
        while p < rows.len()
            invariant
                n == header@.len(),
                j < n,
                forall|q: int| 0 <= q < rows@.len() ==> (#[trigger] rows@[q]@).len() == n,
                p <= rows@.len(),
                w as int == width_take(strs_of(header@), rows_view(rows@), j as int, p as int),
                header@[j as int]@.len() <= w,
                forall|q: int| 0 <= q < p ==> (#[trigger] rows@[q]@[j as int]@).len() <= w,
            decreases rows.len() - p,
        {
            let cell_len = rows[p][j].as_str().unicode_len();
            if cell_len > w {
                w = cell_len;
            }
            proof {
                assert(rows_view(rows@)[p as int] == strs_of(rows@[p as int]@));
                assert(strs_of(rows@[p as int]@)[j as int] == rows@[p as int]@[j as int]@);
            }
            p += 1;
        }
        widths.push(w);
        j += 1;
    }
    proof {
        assert(widths@ =~= widths_spec);
    }
    // render the header line and one line per row
    let mut lines: Vec<String> = Vec::new();
    proof {
        assert(strs_of(header@).len() == header@.len());
        assert forall|q: int| 0 <= q < header@.len() implies (#[trigger] strs_of(header@)[q]).len()
            <= widths@[q] by {
            assert(strs_of(header@)[q] == header@[q]@);
        }
    }
    lines.push(render_line(header, &widths, alignment));
    let mut i2: usize = 0;
    while i2 < rows.len()
        invariant
            n == header@.len(),
            widths@ == widths_spec,
            widths@.len() == n,
            forall|q: int| 0 <= q < rows@.len() ==> (#[trigger] rows@[q]@).len() == n,
            forall|q: int| 0 <= q < n ==> header@[q]@.len() <= #[trigger] widths@[q],
            forall|q: int, p: int|
                0 <= q < n && 0 <= p < rows@.len() ==> (#[trigger] rows@[p]@[q]@).len()
                    <= widths@[q],
            i2 <= rows@.len(),
            lines@.len() == i2 + 1,
            lines@[0]@ == row_text(strs_of(header@), widths_spec, alignment@),
            forall|q: int|
                0 <= q < i2 ==> (#[trigger] lines@[q + 1]@) == row_text(
                    strs_of(rows@[q]@),
                    widths_spec,
                    alignment@,
                ),
        decreases rows.len() - i2,
    {
        proof {
            assert forall|q: int|
                0 <= q < rows@[i2 as int]@.len() implies (#[trigger] strs_of(
                rows@[i2 as int]@,
            )[q]).len() <= widths@[q] by {
                assert(strs_of(rows@[i2 as int]@)[q] == rows@[i2 as int]@[q]@);
            }
        }
        lines.push(render_line(&rows[i2], &widths, alignment));
        i2 += 1;
    }
    Some(lines)
}

} // verus!
