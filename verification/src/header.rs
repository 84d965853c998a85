//! The header of a symbol: encoding indicator, length and header text.

use vstd::prelude::*;
use crate::bits::{lemma_two_pow_monotonic, two_pow};
use crate::grid::{well_formed, Module, SymbolGrid};
use crate::winding::{
    cursor_after, lemma_read_inside, read_field, read_outcome, step_outcomes, walk, walk_outcome,
    winding_path, winding_steps, TraversalBoundsError, WindingShape,
};

verus! {

/// The header fields as numbers and characters.
pub struct HeaderFields {
    pub encoding_indicator: nat,
    pub length: nat,
    pub header_text: Seq<char>,
}

/// The fields that the traversal recovers from a symbol.
#[derive(Debug)]
pub struct HeaderInfo {
    pub encoding_indicator: u8,
    pub length: u8,
    pub header_text: String,
}

impl View for HeaderInfo {
    type V = HeaderFields;

    open spec fn view(&self) -> HeaderFields {
        HeaderFields {
            encoding_indicator: self.encoding_indicator as nat,
            length: self.length as nat,
            header_text: self.header_text@,
        }
    }
}

/// The character that an eight-bit field stands for.
pub open spec fn char_of(field: nat) -> char {
    field as u8 as char
}

/// The characters that a run of eight-bit fields stands for.
pub open spec fn text_of_fields(fields: Seq<nat>) -> Seq<char> {
    Seq::new(fields.len(), |i: int| char_of(fields[i]))
}

/// Where the traversal of the header starts: one module in from the right
/// and from the bottom edge.
pub open spec fn header_start(g: Seq<Seq<Module>>) -> (int, int) {
    (g.len() - 2, g.len() - 2)
}

/// What decoding the header yields. The encoding indicator is read at the
/// start, the length four rows above it, and the text along the winding path
/// that begins four rows further up. The first sample outside the grid ends
/// the decoding.
pub open spec fn decode_outcome(g: Seq<Seq<Module>>) -> Result<HeaderFields, (int, int)> {
    let start = header_start(g);
    match read_outcome(g, start, WindingShape::Up4) {
        Err(p) => Err(p),
        Ok(encoding_indicator) => match read_outcome(g, (start.0, start.1 - 4), WindingShape::Up8) {
            Err(p) => Err(p),
            Ok(length) => match walk_outcome(g, (start.0, start.1 - 8), winding_path()) {
                Err(p) => Err(p),
                Ok(fields) => Ok(
                    HeaderFields { encoding_indicator, length, header_text: text_of_fields(fields) },
                ),
            },
        },
    }
}

/// Where the cursor stands at each step of the winding path, relative to
/// the place `top` from which the path is walked.
pub proof fn lemma_header_anchors(top: (int, int))
    ensures
        cursor_after(top, winding_path(), 1) == (top.0 + 0, top.1 + 0),
        cursor_after(top, winding_path(), 2) == (top.0 - 2, top.1 - 2),
        cursor_after(top, winding_path(), 3) == (top.0 - 2, top.1 + 0),
        cursor_after(top, winding_path(), 4) == (top.0 - 2, top.1 + 4),
        cursor_after(top, winding_path(), 5) == (top.0 - 4, top.1 + 8),
        cursor_after(top, winding_path(), 6) == (top.0 - 4, top.1 + 4),
        cursor_after(top, winding_path(), 7) == (top.0 - 4, top.1 + 0),
        cursor_after(top, winding_path(), 8) == (top.0 - 6, top.1 - 2),
        cursor_after(top, winding_path(), 9) == (top.0 - 6, top.1 + 0),
        cursor_after(top, winding_path(), 10) == (top.0 - 6, top.1 + 4),
        cursor_after(top, winding_path(), 11) == (top.0 - 8, top.1 + 8),
        cursor_after(top, winding_path(), 12) == (top.0 - 8, top.1 + 4),
{
    let path = winding_path();
    assert(cursor_after(top, path, 0) == top);
    assert(cursor_after(top, path, 1) == (top.0 + 0, top.1 + 0));
    assert(cursor_after(top, path, 2) == (top.0 - 2, top.1 - 2));
    assert(cursor_after(top, path, 3) == (top.0 - 2, top.1 + 0));
    assert(cursor_after(top, path, 4) == (top.0 - 2, top.1 + 4));
    assert(cursor_after(top, path, 5) == (top.0 - 4, top.1 + 8));
    assert(cursor_after(top, path, 6) == (top.0 - 4, top.1 + 4));
    assert(cursor_after(top, path, 7) == (top.0 - 4, top.1 + 0));
    assert(cursor_after(top, path, 8) == (top.0 - 6, top.1 - 2));
    assert(cursor_after(top, path, 9) == (top.0 - 6, top.1 + 0));
    assert(cursor_after(top, path, 10) == (top.0 - 6, top.1 + 4));
    assert(cursor_after(top, path, 11) == (top.0 - 8, top.1 + 8));
    assert(cursor_after(top, path, 12) == (top.0 - 8, top.1 + 4));
}

/// The header of a well-formed grid is decoded without leaving the grid:
/// every field of the traversal lies within the ten rightmost columns and
/// the twelve lowest rows.
pub proof fn lemma_header_inside(g: Seq<Seq<Module>>)
    requires
        well_formed(g),
    ensures
        decode_outcome(g) is Ok,
{
    let start = header_start(g);
    let top = (start.0, start.1 - 8);
    let path = winding_path();
    lemma_read_inside(g, start, WindingShape::Up4);
    lemma_read_inside(g, (start.0, start.1 - 4), WindingShape::Up8);
    lemma_header_anchors(top);
    let all = step_outcomes(g, top, path);
    assert forall|k: int| 0 <= k < all.len() implies (#[trigger] all[k]) is Ok by {
        if k == 0 {
            lemma_read_inside(g, (top.0 + 0, top.1 + 0), WindingShape::Up8);
        } else if k == 1 {
            lemma_read_inside(g, (top.0 - 2, top.1 - 2), WindingShape::Left8);
        } else if k == 2 {
            lemma_read_inside(g, (top.0 - 2, top.1 + 0), WindingShape::Down8);
        } else if k == 3 {
            lemma_read_inside(g, (top.0 - 2, top.1 + 4), WindingShape::Down8);
        } else if k == 4 {
            lemma_read_inside(g, (top.0 - 4, top.1 + 8), WindingShape::LeftUp8);
        } else if k == 5 {
            lemma_read_inside(g, (top.0 - 4, top.1 + 4), WindingShape::Up8);
        } else if k == 6 {
            lemma_read_inside(g, (top.0 - 4, top.1 + 0), WindingShape::Up8);
        } else if k == 7 {
            lemma_read_inside(g, (top.0 - 6, top.1 - 2), WindingShape::Left8);
        } else if k == 8 {
            lemma_read_inside(g, (top.0 - 6, top.1 + 0), WindingShape::Down8);
        } else if k == 9 {
            lemma_read_inside(g, (top.0 - 6, top.1 + 4), WindingShape::Down8);
        } else if k == 10 {
            lemma_read_inside(g, (top.0 - 8, top.1 + 8), WindingShape::LeftUp8);
        } else {
            lemma_read_inside(g, (top.0 - 8, top.1 + 4), WindingShape::Up8);
        }
    }
}

/// Recovers the header fields of a symbol.
pub fn decode_header(grid: &SymbolGrid) -> (res: Result<HeaderInfo, TraversalBoundsError>)
    requires
        grid.wf(),
    ensures
        res is Ok,
        match res {
            Ok(info) => decode_outcome(grid@) == Ok::<HeaderFields, (int, int)>(info@),
            Err(e) => decode_outcome(grid@) == Err::<HeaderFields, (int, int)>(e@),
        },
{
    proof {
        lemma_header_inside(grid@);
    }
    let n = grid.dimension();
    let x = (n - 2) as i32;
    let mut y = (n - 2) as i32;
    proof {
        assert(two_pow(4) == 16 && two_pow(8) == 256) by {
            reveal_with_fuel(two_pow, 9);
        }
    }
    let encoding_indicator = match read_field(grid, (x, y), WindingShape::Up4) {
        Ok(v) => v as u8,
        Err(e) => {
            return Err(e);
        },
    };
    y = y - 4;
    let length = match read_field(grid, (x, y), WindingShape::Up8) {
        Ok(v) => v as u8,
        Err(e) => {
            return Err(e);
        },
    };
    y = y - 4;
    let path = winding_steps();
    let fields = match walk(grid, (x, y), &path) {
        Ok(fields) => fields,
        Err(e) => {
            return Err(e);
        },
    };
    let ghost spelled = walk_outcome(grid@, (x as int, y as int), winding_path())->Ok_0;
    let mut header_text = String::new();
    let mut k: usize = 0;
    while k < fields.len()
        invariant
            k <= fields@.len(),
            fields@.len() == spelled.len(),
            path@ == winding_path(),
            two_pow(8) == 256,
            forall|j: int| 0 <= j < fields@.len() ==> #[trigger] fields@[j] as nat == spelled[j],
            forall|j: int|
                0 <= j < fields@.len() ==> #[trigger] fields@[j] < two_pow(
                    path@[j].shape.offsets().len(),
                ),
            header_text@ == text_of_fields(spelled.take(k as int)),
        decreases fields@.len() - k,
    {
        let field = fields[k];
        assert(field < 256) by {
            assert(path@[k as int].shape.offsets().len() <= 8);
            lemma_two_pow_monotonic(path@[k as int].shape.offsets().len(), 8);
        }
        header_text.push(field as u8 as char);
        assert(header_text@ =~= text_of_fields(spelled.take(k + 1)));
        k += 1;
    }
    assert(spelled.take(fields@.len() as int) =~= spelled);
    Ok(HeaderInfo { encoding_indicator, length, header_text })
}

} // verus!
