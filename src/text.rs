use vstd::prelude::*;
use vstd::string::StringExecFns;

use crate::model::lemma_offset_in_range;

verus! {

/// The character of decimal digit `d`.
pub open spec fn digit_char(d: nat) -> char {
    if d == 0 {
        '0'
    } else if d == 1 {
        '1'
    } else if d == 2 {
        '2'
    } else if d == 3 {
        '3'
    } else if d == 4 {
        '4'
    } else if d == 5 {
        '5'
    } else if d == 6 {
        '6'
    } else if d == 7 {
        '7'
    } else if d == 8 {
        '8'
    } else {
        '9'
    }
}

/// The decimal notation of `n`, without leading zeros.
pub open spec fn decimal(n: nat) -> Seq<char>
    decreases n,
{
    if n < 10 {
        seq![digit_char(n)]
    } else {
        decimal(n / 10) + seq![digit_char(n % 10)]
    }
}

/// `s` right-aligned in a field of at least `width` characters: spaces go in front.
pub open spec fn pad_left(s: Seq<char>, width: nat) -> Seq<char> {
    if s.len() < width {
        Seq::new((width - s.len()) as nat, |k: int| ' ') + s
    } else {
        s
    }
}

/// The width of the field each cell is right-aligned in.
pub const CELL_WIDTH: usize = 5;

/// A cell as laid out in a grid: right-aligned in its field, then one space.
pub open spec fn cell_text(s: Seq<char>) -> Seq<char> {
    pad_left(s, CELL_WIDTH as nat) + seq![' ']
}

/// The first `n` cells of row `i` of a grid with `cols` columns, whose cell texts
/// are listed row by row in `texts`.
pub open spec fn row_text(texts: Seq<Seq<char>>, cols: nat, i: int, n: int) -> Seq<char>
    decreases n,
{
    if n <= 0 {
        seq![]
    } else {
        row_text(texts, cols, i, n - 1) + cell_text(texts[i * cols + n - 1])
    }
}

/// The first `n` rows of a grid with `cols` columns, each ended by a newline.
pub open spec fn grid_text(texts: Seq<Seq<char>>, cols: nat, n: int) -> Seq<char>
    decreases n,
{
    if n <= 0 {
        seq![]
    } else {
        grid_text(texts, cols, n - 1) + row_text(texts, cols, n - 1, cols as int) + seq!['\n']
    }
}

/// The character string of decimal digit `d`.
fn digit_str(d: usize) -> (r: &'static str)
    requires
        d < 10,
    ensures
        r@ == seq![digit_char(d as nat)],
{
    if d == 0 {
        proof { reveal_strlit("0"); }
        "0"
    } else if d == 1 {
        proof { reveal_strlit("1"); }
        "1"
    } else if d == 2 {
        proof { reveal_strlit("2"); }
        "2"
    } else if d == 3 {
        proof { reveal_strlit("3"); }
        "3"
    } else if d == 4 {
        proof { reveal_strlit("4"); }
        "4"
    } else if d == 5 {
        proof { reveal_strlit("5"); }
        "5"
    } else if d == 6 {
        proof { reveal_strlit("6"); }
        "6"
    } else if d == 7 {
        proof { reveal_strlit("7"); }
        "7"
    } else if d == 8 {
        proof { reveal_strlit("8"); }
        "8"
    } else {
        proof { reveal_strlit("9"); }
        "9"
    }
}

/// Appends the decimal notation of `n` to `out`.
pub fn push_decimal(out: &mut String, n: usize)
    ensures
        final(out)@ == old(out)@ + decimal(n as nat),
    decreases n,
{
    if n < 10 {
        out.append(digit_str(n));
    } else {
        push_decimal(out, n / 10);
        out.append(digit_str(n % 10));
        assert(final(out)@ =~= old(out)@ + decimal(n as nat));
    }
}

/// Appends `s` to `out`, right-aligned in a field of `width` characters.
pub fn push_padded(out: &mut String, s: &str, width: usize)
    ensures
        final(out)@ == old(out)@ + pad_left(s@, width as nat),
{
    let len = s.unicode_len();
    let mut k: usize = len;
    while k < width
        invariant
            len == s@.len(),
            len <= k <= width || (len > width && k == len),
            out@ == old(out)@ + Seq::new((k - len) as nat, |q: int| ' '),
        decreases width - k,
    {
        proof {
            reveal_strlit(" ");
        }
        out.append(" ");
        k += 1;
        assert(out@ =~= old(out)@ + Seq::new((k - len) as nat, |q: int| ' '));
    }
    out.append(s);
    assert(final(out)@ =~= old(out)@ + pad_left(s@, width as nat));
}

/// Whether a `rows` by `cols` matrix is small enough to be shown cell by cell.
pub open spec fn is_compact(rows: nat, cols: nat) -> bool {
    rows < 5 && cols < 5
}

/// The one-line summary shown for larger matrices: `Matrix(<rows>, <cols>)`.
pub open spec fn summary_text(rows: nat, cols: nat) -> Seq<char> {
    "Matrix("@ + decimal(rows) + ", "@ + decimal(cols) + ")"@
}

/// The character sequences of a sequence of strings.
pub open spec fn views(texts: Seq<String>) -> Seq<Seq<char>> {
    texts.map_values(|s: String| s@)
}

/// Appends the summary `Matrix(<rows>, <cols>)` to `out`.
pub fn push_summary(out: &mut String, rows: usize, cols: usize)
    ensures
        final(out)@ == old(out)@ + summary_text(rows as nat, cols as nat),
{
    out.append("Matrix(");
    push_decimal(out, rows);
    out.append(", ");
    push_decimal(out, cols);
    out.append(")");
    assert(final(out)@ =~= old(out)@ + summary_text(rows as nat, cols as nat));
}

/// Appends a grid of `rows` lines to `out`: the texts of each row, right-aligned
/// in their fields and each followed by a space, then a newline.
pub fn push_grid(out: &mut String, texts: &Vec<String>, rows: usize, cols: usize)
    requires
        texts@.len() == rows * cols,
    ensures
        final(out)@ == old(out)@ + grid_text(views(texts@), cols as nat, rows as int),
{
    let ghost v = views(texts@);
    let mut i: usize = 0;
    while i < rows
        invariant
            texts@.len() == rows * cols,
            v == views(texts@),
            i <= rows,
            out@ == old(out)@ + grid_text(v, cols as nat, i as int),
        decreases rows - i,
    {
        let ghost start = out@;
        let mut j: usize = 0;
        while j < cols
            invariant
                texts@.len() == rows * cols,
                v == views(texts@),
                i < rows,
                j <= cols,
                start == old(out)@ + grid_text(v, cols as nat, i as int),
                out@ == start + row_text(v, cols as nat, i as int, j as int),
            decreases cols - j,
        {
            proof {
                lemma_offset_in_range(i as int, j as int, rows as int, cols as int);
                assert(texts.len() == texts@.len());
                reveal_strlit(" ");
            }
            let cell = &texts[i * cols + j];
            push_padded(out, cell.as_str(), CELL_WIDTH);
            out.append(" ");
            j += 1;
            assert(out@ =~= start + row_text(v, cols as nat, i as int, j as int));
        }
        proof {
            reveal_strlit("\n");
        }
        out.append("\n");
        i += 1;
        assert(out@ =~= old(out)@ + grid_text(v, cols as nat, i as int));
    }
}

} // verus!
