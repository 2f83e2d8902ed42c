//! Which symbol each cell of a tape's on-screen window shows.

use vstd::prelude::*;
use unicode_segmentation::UnicodeSegmentation;

verus! {

/// The number of extended grapheme clusters of the text `s`.
pub uninterp spec fn grapheme_count(s: Seq<char>) -> nat;

/// Relies on `UnicodeSegmentation::graphemes` (extended clusters) and
/// `Iterator::count`: the number of grapheme clusters of the text.
#[verifier::external_body]
fn count_graphemes(chars: &Vec<char>) -> (r: usize)
    ensures
        r == grapheme_count(chars@),
        chars@.len() == 0 ==> r == 0,
{
    let text: String = chars.iter().collect();
    text.graphemes(true).count()
}

/// Cell `c` of a window of `cells` cells centred on the head at `pointer`
/// shows symbol `c + pointer - cells / 2` of the tape when that is one of
/// the first `visible` symbols, and a blank otherwise.
pub open spec fn window_cell(chars: Seq<char>, visible: int, pointer: int, cells: int, c: int) -> char {
    let off = c + pointer - cells / 2;
    if 0 <= off < visible && off < chars.len() {
        chars[off]
    } else {
        ' '
    }
}

/// The window is always an odd number of cells, so that the head is in the
/// middle: an even count gets one more cell.
pub open spec fn odd_cells(n: int) -> int {
    if n % 2 == 0 {
        n + 1
    } else {
        n
    }
}

/// The `cells` symbols of the window (see `window_cell`).
pub fn tape_window(chars: &Vec<char>, visible: usize, pointer: usize, cells: usize) -> (r: Vec<char>)
    ensures
        r@.len() == cells,
        forall|c: int|
            0 <= c < cells ==> #[trigger] r@[c] == window_cell(
                chars@,
                visible as int,
                pointer as int,
                cells as int,
                c,
            ),
{
    let half = cells / 2;
    let lim = if visible < chars.len() {
        visible
    } else {
        chars.len()
    };
    let mut out: Vec<char> = Vec::new();
    let mut c: usize = 0;
    while c < cells
        invariant
            c <= cells,
            half == cells / 2,
            lim as int == if visible < chars@.len() { visible as int } else { chars@.len() as int },
            out@.len() == c,
            forall|q: int|
                0 <= q < c ==> #[trigger] out@[q] == window_cell(
                    chars@,
                    visible as int,
                    pointer as int,
                    cells as int,
                    q,
                ),
        decreases cells - c,
    {
        let sym = if c >= half {
            let d = c - half;
            if pointer < lim && d < lim - pointer {
                chars[d + pointer]
            } else {
                ' '
            }
        } else {
            let d = half - c;
            if pointer >= d && pointer - d < lim {
                chars[pointer - d]
            } else {
                ' '
            }
        };
        out.push(sym);
        c = c + 1;
    }
    out
}

/// The symbols that the window of a tape shows, for a window wide enough for
/// `width_cells` cells (made odd, see `odd_cells`) and the head at
/// `pointer`: only the tape's first `grapheme_count` symbols are shown.
pub fn tape_cells(chars: &Vec<char>, pointer: usize, width_cells: usize) -> (r: Vec<char>)
    ensures
        r@.len() == odd_cells(width_cells as int),
        forall|c: int|
            0 <= c < r@.len() ==> #[trigger] r@[c] == window_cell(
                chars@,
                grapheme_count(chars@) as int,
                pointer as int,
                odd_cells(width_cells as int),
                c,
            ),
{
    let cells = if width_cells % 2 == 0 {
        width_cells + 1
    } else {
        width_cells
    };
    let visible = count_graphemes(chars);
    tape_window(chars, visible, pointer, cells)
}

} // verus!
