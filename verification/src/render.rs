//! A picture of the allocated region in text: one character for each cell,
//! inside a frame.

use vstd::prelude::*;
use vstd::string::StringExecFns;
use crate::grid::{is_chunk_bounds, valid_side, Grid};
use crate::point::{SubGridIndex, SubGridPoint};

verus! {

/// The top and the bottom of the frame round a picture `w` cells wide.
pub open spec fn border(w: nat) -> Seq<char> {
    seq!['+'] + Seq::new(w, |i: int| '-') + seq!['+']
}

/// One row of the picture between the sides of the frame, on a line of
/// its own.
pub open spec fn framed_row(row: Seq<char>) -> Seq<char> {
    seq!['\n', '|'] + row + seq!['|']
}

/// The rows of a picture `w` cells wide inside their frame: the border,
/// each row on its line, the border again. No line end follows the last
/// border.
pub open spec fn framed(rows: Seq<Seq<char>>, w: nat) -> Seq<char> {
    border(w) + rows.map_values(|row: Seq<char>| framed_row(row)).flatten() + seq!['\n'] + border(w)
}

/// Whether `glyph` may stand for the cell at offset `o` of the chunk at
/// `k`: `#` where the chunk is allocated and the predicate holds of the
/// cell, a space where it does not hold or where there is no chunk.
pub open spec fn shows<T: Default, const L: usize, F: Fn(&T) -> bool>(
    g: &Grid<T, L>,
    should_display: &F,
    k: (int, int),
    o: (int, int),
    glyph: char,
) -> bool {
    if g.chunks().contains(k) {
        exists|b: bool|
            #![trigger call_ensures(*should_display, (&g.chunk(k)[o.0][o.1],), b)]
            call_ensures(*should_display, (&g.chunk(k)[o.0][o.1],), b) && glyph == (if b {
                '#'
            } else {
                ' '
            })
    } else {
        glyph == ' '
    }
}

/// Whether `rows` is a picture of the chunks from `lo` to `hi`: one row
/// for each `z`, by rising `z`, and in a row one character for each `x`, by
/// rising `x`.
pub open spec fn is_picture<T: Default, const L: usize, F: Fn(&T) -> bool>(
    g: &Grid<T, L>,
    should_display: &F,
    lo: (int, int),
    hi: (int, int),
    rows: Seq<Seq<char>>,
) -> bool {
    &&& rows.len() == (hi.1 - lo.1) * L + L
    &&& forall|z: int| 0 <= z < rows.len() ==> (#[trigger] rows[z]).len() == (hi.0 - lo.0) * L + L
    &&& forall|z: int, x: int|
        0 <= z < rows.len() && 0 <= x < (hi.0 - lo.0) * L + L ==> shows(
            g,
            should_display,
            (lo.0 + x / (L as int), lo.1 + z / (L as int)),
            (x % (L as int), z % (L as int)),
            #[trigger] rows[z][x],
        )
}

/// Whether `text` is a framed picture of the allocated region of `g`; of
/// an empty grid, a frame with nothing inside.
pub open spec fn is_print<T: Default, const L: usize, F: Fn(&T) -> bool>(
    g: &Grid<T, L>,
    should_display: &F,
    text: Seq<char>,
) -> bool {
    if g.has_chunks() {
        exists|lo: (int, int), hi: (int, int), rows: Seq<Seq<char>>|
            #![trigger is_picture(g, should_display, lo, hi, rows)]
            is_chunk_bounds(g.chunks(), lo, hi) && is_picture(g, should_display, lo, hi, rows)
                && text == framed(rows, ((hi.0 - lo.0) * L + L) as nat)
    } else {
        text == framed(Seq::empty(), 0)
    }
}

/// A border `w` cells wide, appended to `text`.
fn push_border(text: &mut String, w: usize)
    ensures
        final(text)@ == old(text)@ + border(w as nat),
{
    proof {
        reveal_strlit("+");
        reveal_strlit("-");
    }
    text.append("+");
    let mut i: usize = 0;
    while i < w
        invariant
            i <= w,
            "-"@ == seq!['-'],
            text@ == old(text)@ + seq!['+'] + Seq::new(i as nat, |i: int| '-'),
        decreases w - i,
    {
        text.append("-");
        i = i + 1;
    }
    text.append("+");
}

impl<T: Default, const L: usize> Grid<T, L> {
    /// The allocated region as text, as [`Grid::print`] gives it, unless
    /// the region is wider or higher than the machine can count.
    pub fn try_print<FShouldDisplay: Fn(&T) -> bool>(&self, should_display: FShouldDisplay) -> (r:
        Option<String>)
        requires
            self.wf(),
            forall|v: &T| call_requires(should_display, (v,)),
        ensures
            r is Some <==> self.spans_fit(),
            r matches Some(text) ==> is_print(self, &should_display, text@),
    {
        if self.is_empty() || self.checked_grid_length().is_some() {
            Some(self.print(should_display))
        } else {
            None
        }
    }

    /// The allocated region as text: `#` for each cell of which
    /// `should_display` holds, a space for every other, row after row by
    /// rising `z`, inside a frame.
    pub fn print<FShouldDisplay: Fn(&T) -> bool>(&self, should_display: FShouldDisplay) -> (r:
        String)
        requires
            self.wf(),
            self.spans_fit(),
            forall|v: &T| call_requires(should_display, (v,)),
        ensures
            is_print(self, &should_display, r@),
    {
        proof {
            self.lemma_wf_side();
            reveal_strlit("\n");
            reveal_strlit("\n|");
            reveal_strlit("|");
            reveal_strlit("#");
            reveal_strlit(" ");
        }
        let mut text = String::new();
        if self.is_empty() {
            push_border(&mut text, 0);
            text.append("\n");
            push_border(&mut text, 0);
            assert(text@ =~= framed(Seq::empty(), 0));
            return text;
        }
        let (min_sub, max_sub) = self.find_subgrid_index_bounds();
        let len = self.find_grid_length();
        let ghost lo = min_sub@;
        let ghost hi = max_sub@;
        push_border(&mut text, len.x);
        let ghost mut rows: Seq<Seq<char>> = Seq::empty();
        let ghost head = text@;
        let mut z: usize = 0;
        while z < len.z
            invariant
                z <= len.z,
                self.wf(),
                valid_side(L),
                forall|v: &T| call_requires(should_display, (v,)),
                "\n"@ == seq!['\n'],
                "\n|"@ == seq!['\n', '|'],
                "|"@ == seq!['|'],
                "#"@ == seq!['#'],
                " "@ == seq![' '],
                lo == min_sub@,
                hi == max_sub@,
                lo.0 <= hi.0,
                lo.1 <= hi.1,
                len.x == (hi.0 - lo.0) * L + L,
                len.z == (hi.1 - lo.1) * L + L,
                head == border(len.x as nat),
                rows.len() == z,
                forall|j: int| 0 <= j < z ==> (#[trigger] rows[j]).len() == len.x,
                forall|j: int, x: int|
                    0 <= j < z && 0 <= x < len.x ==> shows(
                        self,
                        &should_display,
                        (lo.0 + x / (L as int), lo.1 + j / (L as int)),
                        (x % (L as int), j % (L as int)),
                        #[trigger] rows[j][x],
                    ),
                text@ == head + rows.map_values(|row: Seq<char>| framed_row(row)).flatten(),
            decreases len.z - z,
        {
            let ghost before = text@;
            let ghost mut row: Seq<char> = Seq::empty();
            text.append("\n|");
            proof {
                lemma_chunk_of_column(z as int, len.z as int, hi.1 - lo.1, L as int);
            }
            let sub_z: isize = (min_sub.z as i128 + (z / L) as i128) as isize;
            let mut x: usize = 0;
            while x < len.x
                invariant
                    x <= len.x,
                    z < len.z,
                    self.wf(),
                    valid_side(L),
                    forall|v: &T| call_requires(should_display, (v,)),
                    "#"@ == seq!['#'],
                    " "@ == seq![' '],
                    lo == min_sub@,
                    hi == max_sub@,
                    lo.0 <= hi.0,
                    len.x == (hi.0 - lo.0) * L + L,
                    sub_z == lo.1 + (z as int) / (L as int),
                    row.len() == x,
                    forall|i: int|
                        0 <= i < x ==> shows(
                            self,
                            &should_display,
                            (lo.0 + i / (L as int), lo.1 + (z as int) / (L as int)),
                            (i % (L as int), (z as int) % (L as int)),
                            #[trigger] row[i],
                        ),
                    text@ == before + seq!['\n', '|'] + row,
                decreases len.x - x,
            {
                proof {
                    lemma_chunk_of_column(x as int, len.x as int, hi.0 - lo.0, L as int);
                }
                let sub_x: isize = (min_sub.x as i128 + (x / L) as i128) as isize;
                let shown = match self.subgrid_at(&SubGridIndex::new(sub_x, sub_z)) {
                    None => false,
                    Some(sub) => should_display(sub.get(&SubGridPoint::new(x % L, z % L))),
                };
                proof {
                    let k = (lo.0 + (x as int) / (L as int), lo.1 + (z as int) / (L as int));
                    let o = ((x as int) % (L as int), (z as int) % (L as int));
                    if self.chunks().contains(k) {
                        assert(call_ensures(should_display, (&self.chunk(k)[o.0][o.1],), shown));
                    }
                }
                if shown {
                    text.append("#");
                    proof {
                        row = row.push('#');
                    }
                } else {
                    text.append(" ");
                    proof {
                        row = row.push(' ');
                    }
                }
                x = x + 1;
            }
            text.append("|");
            proof {
                let lines = rows.map_values(|row: Seq<char>| framed_row(row));
                assert(rows.push(row).map_values(|row: Seq<char>| framed_row(row)) =~= lines.push(
                    framed_row(row),
                ));
                lines.lemma_flatten_push(framed_row(row));
                rows = rows.push(row);
            }
            z = z + 1;
        }
        text.append("\n");
        push_border(&mut text, len.x);
        proof {
            assert(is_picture(self, &should_display, lo, hi, rows));
        }
        text
    }
}

/// The chunk that a column of the picture falls in lies inside the
/// bounds.
proof fn lemma_chunk_of_column(x: int, len: int, span: int, l: int)
    requires
        l > 0,
        span >= 0,
        0 <= x < len,
        len == span * l + l,
    ensures
        0 <= x / l <= span,
        0 <= x % l < l,
{
    vstd::arithmetic::div_mod::lemma_fundamental_div_mod(x, l);
    vstd::arithmetic::div_mod::lemma_mod_bound(x, l);
    let q = x / l;
    assert(0 <= q <= span) by (nonlinear_arith)
        requires
            x == l * q + x % l,
            0 <= x % l < l,
            0 <= x < span * l + l,
            l > 0,
    ;
}

} // verus!
