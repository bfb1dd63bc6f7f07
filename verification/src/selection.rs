//! The text under a mouse selection in the interactor panel, read from the cells that were
//! last rendered there.

use vstd::prelude::*;
use base64::Engine;
use vstd::string::StringSliceAdditionalSpecFns;
use crate::strutil::{push_char, push_str, str_chars, string_from_chars};
use crate::time_utils::{is_unicode_whitespace_exec, trailing_ws};
use crate::types::{TextSelection, reading_le};

verus! {

broadcast use vstd::string::group_string_axioms;

/// The texts of a sequence of cells, one after another.
pub open spec fn concat(cells: Seq<Seq<char>>) -> Seq<char>
    decreases cells.len(),
{
    if cells.len() == 0 { Seq::empty() } else { concat(cells.drop_last()) + cells.last() }
}

/// `str::trim_end`: `s` without its trailing whitespace.
pub open spec fn trim_end(s: Seq<char>) -> Seq<char> {
    s.take(s.len() - trailing_ws(s))
}

pub open spec fn row_texts(row: Seq<String>) -> Seq<Seq<char>> {
    row.map_values(|c: String| c@)
}

/// The piece of the selection on screen row `y`: the selected cells of that rendered row
/// (from the start column on the first row, up to the end column on the last), trailing
/// whitespace trimmed, and a newline after every row but the last; nothing when no row was
/// rendered there.
pub open spec fn selection_piece(cells: Seq<Vec<String>>, ix: int, iy: int, start: (u16, u16), end: (u16, u16), y: int) -> Seq<char> {
    let r = y - iy;
    if r >= cells.len() {
        Seq::empty()
    } else {
        let row = row_texts(cells[r]@);
        let xs = if y == start.1 { start.0 - ix } else { 0 };
        let xe = if y == end.1 { end.0 - ix + 1 } else { row.len() as int };
        let xs2 = if xs < row.len() { xs } else { row.len() as int };
        let xe2 = if xe < row.len() { xe } else { row.len() as int };
        trim_end(concat(row.subrange(xs2, xe2))) + if y < end.1 { seq!['\n'] } else { Seq::empty() }
    }
}

/// The pieces of the first `n` selected rows.
pub open spec fn selection_text_rows(cells: Seq<Vec<String>>, ix: int, iy: int, start: (u16, u16), end: (u16, u16), n: nat) -> Seq<char>
    decreases n,
{
    if n == 0 {
        Seq::empty()
    } else {
        selection_text_rows(cells, ix, iy, start, end, (n - 1) as nat) + selection_piece(cells, ix, iy, start, end, start.1 + n - 1)
    }
}

/// The selected text: the pieces of the rows from the selection's first to its last row.
pub open spec fn selection_text(cells: Seq<Vec<String>>, ix: int, iy: int, sel: TextSelection) -> Seq<char> {
    let (start, end) = if reading_le(sel.anchor, sel.end) { (sel.anchor, sel.end) } else { (sel.end, sel.anchor) };
    selection_text_rows(cells, ix, iy, start, end, (end.1 - start.1 + 1) as nat)
}

/// `s` without its trailing whitespace.
fn trim_end_chars(v: &Vec<char>) -> (r: Vec<char>)
    ensures
        r@ == trim_end(v@),
{
    let mut hi: usize = v.len();
    assert(v@.take(hi as int) =~= v@);
    while hi > 0 && is_unicode_whitespace_exec(v[hi - 1])
        invariant
            hi <= v@.len(),
            trailing_ws(v@) == (v@.len() - hi) + trailing_ws(v@.take(hi as int)),
        decreases hi,
    {
        assert(v@.take(hi as int).drop_last() =~= v@.take(hi - 1));
        assert(v@.take(hi as int).last() == v@[hi - 1]);
        hi -= 1;
    }
    proof {
        if hi > 0 {
            assert(v@.take(hi as int).last() == v@[hi - 1]);
        }
    }
    let mut r: Vec<char> = Vec::new();
    let mut k: usize = 0;
    while k < hi
        invariant
            k <= hi <= v@.len(),
            r@ == v@.take(k as int),
        decreases hi - k,
    {
        r.push(v[k]);
        k += 1;
        assert(r@ =~= v@.take(k as int));
    }
    r
}

/// The characters of the cells `lo..hi` of a row, one after another.
fn concat_cells(row: &Vec<String>, lo: usize, hi: usize) -> (r: Vec<char>)
    requires
        lo <= hi <= row@.len(),
    ensures
        r@ == concat(row_texts(row@).subrange(lo as int, hi as int)),
{
    let mut out: Vec<char> = Vec::new();
    let mut k = lo;
    assert(row_texts(row@).subrange(lo as int, lo as int) =~= Seq::<Seq<char>>::empty());
    while k < hi
        invariant
            lo <= k <= hi <= row@.len(),
            out@ == concat(row_texts(row@).subrange(lo as int, k as int)),
        decreases hi - k,
    {
        let cell = str_chars(row[k].as_str());
        let mut j: usize = 0;
        let ghost base = out@;
        while j < cell.len()
            invariant
                j <= cell@.len(),
                out@ == base + cell@.take(j as int),
            decreases cell@.len() - j,
        {
            out.push(cell[j]);
            j += 1;
            assert(out@ =~= base + cell@.take(j as int));
        }
        proof {
            let s2 = row_texts(row@).subrange(lo as int, k + 1);
            assert(s2.drop_last() =~= row_texts(row@).subrange(lo as int, k as int));
            assert(s2.last() == row@[k as int]@);
            assert(cell@.take(j as int) =~= cell@);
        }
        k += 1;
    }
    out
}

/// The text under the selection, from the rendered cells of the panel whose inner area
/// starts at `(inner_x, inner_y)`; empty without a selection.
pub fn extract_selection_text(selection: Option<&TextSelection>, inner_x: u16, inner_y: u16, cells: &Vec<Vec<String>>) -> (r: String)
    requires
        match selection {
            Some(sel) => sel.anchor.0 >= inner_x && sel.anchor.1 >= inner_y && sel.end.0 >= inner_x && sel.end.1 >= inner_y,
            None => true,
        },
    ensures
        r@ == match selection {
            Some(sel) => selection_text(cells@, inner_x as int, inner_y as int, *sel),
            None => Seq::empty(),
        },
{
    let sel = match selection {
        Some(s) => s,
        None => return String::new(),
    };
    let (start, end) = sel.normalized();
    let ghost cv = cells@;
    let mut result = String::new();
    let rows: usize = (end.1 - start.1) as usize + 1;
    let mut n: usize = 0;
    while n < rows
        invariant
            reading_le(start, end),
            start.1 >= inner_y,
            start.0 >= inner_x,
            end.0 >= inner_x,
            rows == end.1 - start.1 + 1,
            n <= rows,
            cv == cells@,
            result@ == selection_text_rows(cv, inner_x as int, inner_y as int, start, end, n as nat),
        decreases rows - n,
    {
        let y: u16 = start.1 + n as u16;
        let row_idx = (y - inner_y) as usize;
        if row_idx < cells.len() {
            let row = &cells[row_idx];
            let x_start = if y == start.1 { (start.0 - inner_x) as usize } else { 0 };
            let x_end = if y == end.1 { (end.0 - inner_x) as usize + 1 } else { row.len() };
            let x_start = if x_start < row.len() { x_start } else { row.len() };
            let x_end = if x_end < row.len() { x_end } else { row.len() };
            let line = trim_end_chars(&concat_cells(row, x_start, x_end));
            push_str(&mut result, string_from_chars(line.as_slice()).as_str());
            if y < end.1 {
                push_char(&mut result, '\n');
            }
        }
        proof {
            assert(result@ =~= selection_text_rows(cv, inner_x as int, inner_y as int, start, end, (n + 1) as nat));
        }
        n += 1;
    }
    result
}

// ---------------------------------------------------------------------------
// Copying to the clipboard
// ---------------------------------------------------------------------------

/// The character of a 6-bit value in the standard base64 alphabet.
pub open spec fn base64_char(v: int) -> char {
    if v < 26 {
        (('A' as int) + v) as char
    } else if v < 52 {
        (('a' as int) + v - 26) as char
    } else if v < 62 {
        (('0' as int) + v - 52) as char
    } else if v == 62 {
        '+'
    } else {
        '/'
    }
}

/// Standard base64 with `=` padding: each three bytes become four characters, a last one
/// or two bytes become four characters ending in `==` or `=`.
pub open spec fn base64_text(b: Seq<u8>) -> Seq<char>
    decreases b.len(),
{
    if b.len() == 0 {
        Seq::empty()
    } else if b.len() == 1 {
        seq![base64_char((b[0] as int) / 4), base64_char(((b[0] as int) % 4) * 16), '=', '=']
    } else if b.len() == 2 {
        seq![base64_char((b[0] as int) / 4), base64_char(((b[0] as int) % 4) * 16 + (b[1] as int) / 16), base64_char(((b[1] as int) % 16) * 4), '=']
    } else {
        seq![
            base64_char((b[0] as int) / 4),
            base64_char(((b[0] as int) % 4) * 16 + (b[1] as int) / 16),
            base64_char(((b[1] as int) % 16) * 4 + (b[2] as int) / 64),
            base64_char((b[2] as int) % 64),
        ] + base64_text(b.skip(3))
    }
}

/// base64's `STANDARD.encode` (the standard alphabet, with padding).
#[verifier::external_body]
fn base64_encode(text: &str) -> (r: String)
    requires
        text.spec_bytes().len() <= usize::MAX / 2,
    ensures
        r@ == base64_text(text.spec_bytes()),
{
    base64::engine::general_purpose::STANDARD.encode(text)
}

/// The OSC 52 sequence that puts `text` on the terminal's clipboard: `ESC ] 52 ; c ;`, the
/// text in base64, then `BEL`.
pub fn osc52_copy(text: &str) -> (r: String)
    requires
        text.spec_bytes().len() <= usize::MAX / 2,
    ensures
        r@ == seq!['\x1b', ']', '5', '2', ';', 'c', ';'] + base64_text(text.spec_bytes()) + seq!['\x07'],
{
    let mut out = String::new();
    let head = ['\x1b', ']', '5', '2', ';', 'c', ';'];
    let mut i: usize = 0;
    while i < 7
        invariant
            i <= 7,
            head@ == seq!['\x1b', ']', '5', '2', ';', 'c', ';'],
            out@ == head@.take(i as int),
        decreases 7 - i,
    {
        push_char(&mut out, head[i]);
        i += 1;
        assert(out@ =~= head@.take(i as int));
    }
    assert(head@.take(7) =~= head@);
    let encoded = base64_encode(text);
    push_str(&mut out, encoded.as_str());
    push_char(&mut out, '\x07');
    out
}

} // verus!
