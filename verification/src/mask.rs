//! The data mask: which modules it flips, and the selector stored in the grid.

use vstd::prelude::*;
use crate::bits::{
    bits_value, lemma_bits_value_bound, lemma_bits_value_push, lemma_two_pow_monotonic, shift_in,
    two_pow,
};
use crate::grid::{well_formed, Module, SymbolGrid};

verus! {

/// The constant that the stored selector is combined with.
pub const FORMAT_MASK: u8 = 0b10101;

/// The row that holds the selector.
pub const SELECTOR_ROW: usize = 8;

/// The number of bits of the selector, which stand in the first columns of
/// its row.
pub const SELECTOR_BITS: usize = 5;

/// The value that decides whether the mask flips the module at a place.
pub open spec fn mask_predicate(row: int, col: int) -> int {
    (((row * col) % 3) + row * col) % 2
}

/// The mask flips the module at `(row, col)`.
pub open spec fn is_flipped(row: int, col: int) -> bool {
    mask_predicate(row, col) == 0
}

/// The grid with every module flipped that the mask flips.
pub open spec fn masked(g: Seq<Seq<Module>>) -> Seq<Seq<Module>> {
    Seq::new(
        g.len(),
        |r: int|
            Seq::new(
                g[r].len(),
                |c: int|
                    if is_flipped(r, c) {
                        g[r][c].flipped()
                    } else {
                        g[r][c]
                    },
            ),
    )
}

/// Masking twice gives the grid back, module for module.
pub proof fn lemma_mask_involution(g: Seq<Seq<Module>>)
    ensures
        masked(masked(g)) == g,
{
    let twice = masked(masked(g));
    assert forall|r: int| 0 <= r < g.len() implies #[trigger] twice[r] == g[r] by {
        assert(twice[r] =~= g[r]);
    }
    assert(twice =~= g);
}

/// Masking keeps the shape of the grid.
pub proof fn lemma_mask_keeps_shape(g: Seq<Seq<Module>>)
    ensures
        masked(g).len() == g.len(),
        forall|r: int| 0 <= r < g.len() ==> (#[trigger] masked(g)[r]).len() == g[r].len(),
        well_formed(g) ==> well_formed(masked(g)),
{
}

/// Whether the mask flips the module at `(row, col)`.
pub fn flips(row: u32, col: u32) -> (b: bool)
    ensures
        b == is_flipped(row as int, col as int),
{
    assert(row * col <= 0xffff_ffff * 0xffff_ffff) by (nonlinear_arith)
        requires
            row <= 0xffff_ffff,
            col <= 0xffff_ffff,
    ;
    let product: u64 = row as u64 * col as u64;
    (product % 3 + product) % 2 == 0
}

/// Flips, in place, every module that the mask flips.
pub fn apply_mask(grid: &mut SymbolGrid)
    requires
        old(grid).wf(),
    ensures
        final(grid)@ == masked(old(grid)@),
        final(grid).wf(),
{
    let n = grid.dimension();
    let ghost before = grid@;
    let mut row: usize = 0;
    while row < n
        invariant
            row <= n,
            n == before.len(),
            well_formed(before),
            grid@.len() == n,
            forall|r: int| 0 <= r < row ==> #[trigger] grid@[r] == masked(before)[r],
            forall|r: int| row <= r < n ==> #[trigger] grid@[r] == before[r],
        decreases n - row,
    {
        let mut col: usize = 0;
        while col < n
            invariant
                row < n,
                col <= n,
                n == before.len(),
                well_formed(before),
                grid@.len() == n,
                grid@[row as int].len() == n,
                forall|r: int| 0 <= r < row ==> #[trigger] grid@[r] == masked(before)[r],
                forall|r: int| row < r < n ==> #[trigger] grid@[r] == before[r],
                forall|c: int|
                    0 <= c < col ==> #[trigger] grid@[row as int][c] == masked(before)[row as int][c],
                forall|c: int| col <= c < n ==> #[trigger] grid@[row as int][c] == before[row as int][c],
            decreases n - col,
        {
            if flips(row as u32, col as u32) {
                grid.flip_at(row, col);
            }
            col += 1;
        }
        assert(grid@[row as int] =~= masked(before)[row as int]);
        row += 1;
    }
    assert(grid@ =~= masked(before));
}

/// The selector that a grid stores: the modules of the selector row's first
/// columns, read as bits from left to right, most significant bit first.
pub open spec fn selector_of(g: Seq<Seq<Module>>) -> nat {
    bits_value(Seq::new(SELECTOR_BITS as nat, |c: int| g[SELECTOR_ROW as int][c].bit()))
}

/// Reads the selector that the grid stores.
pub fn mask_selector(grid: &SymbolGrid) -> (selector: u8)
    requires
        grid.wf(),
    ensures
        selector == selector_of(grid@),
        selector < 32,
{
    let ghost all = Seq::new(SELECTOR_BITS as nat, |c: int| grid@[SELECTOR_ROW as int][c].bit());
    let mut acc: u32 = 0;
    let mut col: usize = 0;
    while col < SELECTOR_BITS
        invariant
            col <= SELECTOR_BITS,
            grid.wf(),
            all == Seq::new(SELECTOR_BITS as nat, |c: int| grid@[SELECTOR_ROW as int][c].bit()),
            acc == bits_value(all.take(col as int)),
        decreases SELECTOR_BITS - col,
    {
        let bit = match grid.get(SELECTOR_ROW, col) {
            Some(m) => m.to_bit(),
            None => 0,
        };
        proof {
            assert(two_pow(5) == 32) by {
                reveal_with_fuel(two_pow, 6);
            }
            lemma_bits_value_bound(all.take(col as int));
            lemma_two_pow_monotonic(col as nat, 5);
            lemma_bits_value_push(all.take(col as int), bit as nat);
            assert(all.take(col as int).push(bit as nat) =~= all.take(col + 1));
        }
        acc = shift_in(acc, bit);
        col += 1;
    }
    proof {
        assert(all.take(SELECTOR_BITS as int) =~= all);
        assert(two_pow(5) == 32) by {
            reveal_with_fuel(two_pow, 6);
        }
        lemma_bits_value_bound(all);
    }
    acc as u8
}

/// The mask index that a stored selector stands for.
pub fn effective_mask_index(selector: u8) -> (index: u8)
    ensures
        index == selector ^ FORMAT_MASK,
        selector < 32 ==> index < 32,
{
    assert(selector < 32 ==> (selector ^ 0b10101u8) < 32) by (bit_vector);
    selector ^ FORMAT_MASK
}

} // verus!
