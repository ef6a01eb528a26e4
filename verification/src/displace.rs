//! The displacement transforms: populating a destination buffer by copying
//! pixels from frames displaced in time, the source frame chosen as a
//! function of pixel position and a step size.

use crate::raster::RasterBuffer;
use crate::store::FrameStore;
use vstd::arithmetic::div_mod::{
    lemma_add_mod_noop_right, lemma_fundamental_div_mod_converse_mod, lemma_mod_bound,
};
use vstd::prelude::*;

verus! {

/// Which of the three source-frame selection rules `displace` applies.
#[derive(Clone, Copy, Debug, PartialEq, Eq, Structural)]
pub enum DisplacementStrategy {
    ByRow,
    ByCol,
    ByRowCol,
}

/// Source frame for row `row` under the by-row rule: the selection advances
/// by one frame every `step` rows. Beyond the last frame the rule selects
/// nothing (the caller skips).
pub open spec fn row_source(index: int, row: int, step: int) -> int {
    index + row / step
}

/// Source frame for column `col` under the by-column rule.
pub open spec fn col_source(index: int, col: int, step: int) -> int {
    index + col / step
}

/// Source frame at `(row, col)` under the row-and-column rule: the selection
/// advances by one frame every `step` diagonal units and wraps modulo
/// `count`, so it always lands on a frame.
pub open spec fn rowcol_source(index: int, row: int, col: int, step: int, count: int) -> int {
    (index + (row + col) / step) % count
}

/// `after` is `before` with every row whose by-row source frame exists
/// replaced by that frame's row; rows whose source would run past the end of
/// the sequence, and all row padding, are left untouched.
pub open spec fn by_row_displaced(
    store: FrameStore,
    index: int,
    step: int,
    before: RasterBuffer,
    after: RasterBuffer,
) -> bool {
    &&& after.wf()
    &&& after.format == before.format
    &&& after.pixels@.len() == before.pixels@.len()
    &&& forall|r: int, c: int|
        store.format.in_bounds(r, c) ==> #[trigger] after.pixel_at(r, c) == (
        if row_source(index, r, step) < store.frames@.len() {
            store.frames@[row_source(index, r, step)].pixel_at(r, c)
        } else {
            before.pixel_at(r, c)
        })
    &&& forall|i: int|
        store.format.is_padding(i) ==> #[trigger] after.pixels@[i] == before.pixels@[i]
}

/// The by-column counterpart of [`by_row_displaced`].
pub open spec fn by_col_displaced(
    store: FrameStore,
    index: int,
    step: int,
    before: RasterBuffer,
    after: RasterBuffer,
) -> bool {
    &&& after.wf()
    &&& after.format == before.format
    &&& after.pixels@.len() == before.pixels@.len()
    &&& forall|r: int, c: int|
        store.format.in_bounds(r, c) ==> #[trigger] after.pixel_at(r, c) == (
        if col_source(index, c, step) < store.frames@.len() {
            store.frames@[col_source(index, c, step)].pixel_at(r, c)
        } else {
            before.pixel_at(r, c)
        })
    &&& forall|i: int|
        store.format.is_padding(i) ==> #[trigger] after.pixels@[i] == before.pixels@[i]
}

/// Every pixel of `after` comes from its row-and-column source frame — the
/// wrap-around rule never skips a pixel — and row padding is untouched.
pub open spec fn by_rowcol_displaced(
    store: FrameStore,
    index: int,
    step: int,
    before: RasterBuffer,
    after: RasterBuffer,
) -> bool {
    &&& after.wf()
    &&& after.format == before.format
    &&& after.pixels@.len() == before.pixels@.len()
    &&& forall|r: int, c: int|
        store.format.in_bounds(r, c) ==> #[trigger] after.pixel_at(r, c) == store.frames@[
            rowcol_source(index, r, c, step, store.frames@.len() as int)
        ].pixel_at(r, c)
    &&& forall|i: int|
        store.format.is_padding(i) ==> #[trigger] after.pixels@[i] == before.pixels@[i]
}

/// With a single frame the row-and-column rule always selects frame 0,
/// whatever the position, starting index and step.
pub proof fn lemma_rowcol_single_frame(index: int, row: int, col: int, step: int)
    requires
        index >= 0,
        row >= 0,
        col >= 0,
        step >= 1,
    ensures
        rowcol_source(index, row, col, step, 1) == 0,
{
    lemma_mod_bound(index + (row + col) / step, 1);
}

/// The row-and-column rule always selects an existing frame.
pub proof fn lemma_rowcol_source_in_range(index: int, row: int, col: int, step: int, count: int)
    requires
        index >= 0,
        row >= 0,
        col >= 0,
        step >= 1,
        count >= 1,
    ensures
        0 <= rowcol_source(index, row, col, step, count) < count,
{
    lemma_mod_bound(index + (row + col) / step, count);
}

impl FrameStore {
    /// Fills `out` row by row: row `r` is copied from frame
    /// `index + r / step`, and left untouched where that frame index runs
    /// past the end of the sequence.
    pub fn displace_by_row(&self, index: usize, step: usize, out: &mut RasterBuffer)
        requires
            self.wf(),
            index < self.frames@.len(),
            step >= 1,
            old(out).wf(),
            old(out).format == self.format,
        ensures
            by_row_displaced(*self, index as int, step as int, *old(out), *final(out)),
    {
        let h = self.format.height as usize;
        let count = self.frames.len();
        let mut row: usize = 0;
        while row < h
            invariant
                row <= h,
                h == self.format.height,
                count == self.frames@.len(),
                self.wf(),
                index < count,
                step >= 1,
                out.wf(),
                out.format == self.format,
                out.pixels@.len() == old(out).pixels@.len(),
                forall|r: int, c: int|
                    self.format.in_bounds(r, c) && r < row ==> #[trigger] out.pixel_at(r, c) == (
                    if row_source(index as int, r, step as int) < count {
                        self.frames@[row_source(index as int, r, step as int)].pixel_at(r, c)
                    } else {
                        old(out).pixel_at(r, c)
                    }),
                forall|r: int, c: int|
                    self.format.in_bounds(r, c) && r >= row ==> #[trigger] out.pixel_at(r, c)
                        == old(out).pixel_at(r, c),
                forall|i: int|
                    self.format.is_padding(i) ==> #[trigger] out.pixels@[i] == old(out).pixels@[i],
            decreases h - row,
        {
            let q = row / step;
            if q < count - index {
                let j = index + q;
                out.copy_row(&self.frames[j], row);
            }
            row = row + 1;
        }
    }

    /// Fills `out` column by column: column `c` is copied from frame
    /// `index + c / step`, and left untouched where that frame index runs
    /// past the end of the sequence.
    pub fn displace_by_col(&self, index: usize, step: usize, out: &mut RasterBuffer)
        requires
            self.wf(),
            index < self.frames@.len(),
            step >= 1,
            old(out).wf(),
            old(out).format == self.format,
        ensures
            by_col_displaced(*self, index as int, step as int, *old(out), *final(out)),
    {
        let w = self.format.width as usize;
        let count = self.frames.len();
        let mut col: usize = 0;
        while col < w
            invariant
                col <= w,
                w == self.format.width,
                count == self.frames@.len(),
                self.wf(),
                index < count,
                step >= 1,
                out.wf(),
                out.format == self.format,
                out.pixels@.len() == old(out).pixels@.len(),
                forall|r: int, c: int|
                    self.format.in_bounds(r, c) && c < col ==> #[trigger] out.pixel_at(r, c) == (
                    if col_source(index as int, c, step as int) < count {
                        self.frames@[col_source(index as int, c, step as int)].pixel_at(r, c)
                    } else {
                        old(out).pixel_at(r, c)
                    }),
                forall|r: int, c: int|
                    self.format.in_bounds(r, c) && c >= col ==> #[trigger] out.pixel_at(r, c)
                        == old(out).pixel_at(r, c),
                forall|i: int|
                    self.format.is_padding(i) ==> #[trigger] out.pixels@[i] == old(out).pixels@[i],
            decreases w - col,
        {
            let q = col / step;
            if q < count - index {
                let j = index + q;
                out.copy_col(&self.frames[j], col);
            }
            col = col + 1;
        }
    }

    /// Fills `out` pixel by pixel: the pixel at `(r, c)` is copied from
    /// frame `(index + (r + c) / step) mod count`. The wrap-around means
    /// every pixel of the grid is written.
    pub fn displace_by_rowcol(&self, index: usize, step: usize, out: &mut RasterBuffer)
        requires
            self.wf(),
            index < self.frames@.len(),
            step >= 1,
            old(out).wf(),
            old(out).format == self.format,
        ensures
            by_rowcol_displaced(*self, index as int, step as int, *old(out), *final(out)),
    {
        let h = self.format.height as usize;
        let w = self.format.width as usize;
        let count = self.frames.len();
        let mut row: usize = 0;
        while row < h
            invariant
                row <= h,
                h == self.format.height,
                w == self.format.width,
                count == self.frames@.len(),
                self.wf(),
                index < count,
                step >= 1,
                out.wf(),
                out.format == self.format,
                out.pixels@.len() == old(out).pixels@.len(),
                forall|r: int, c: int|
                    self.format.in_bounds(r, c) && r < row ==> #[trigger] out.pixel_at(r, c)
                        == self.frames@[rowcol_source(
                        index as int,
                        r,
                        c,
                        step as int,
                        count as int,
                    )].pixel_at(r, c),
                forall|r: int, c: int|
                    self.format.in_bounds(r, c) && r >= row ==> #[trigger] out.pixel_at(r, c)
                        == old(out).pixel_at(r, c),
                forall|i: int|
                    self.format.is_padding(i) ==> #[trigger] out.pixels@[i] == old(out).pixels@[i],
            decreases h - row,
        {
            let mut col: usize = 0;
            while col < w
                invariant
                    col <= w,
                    row < h,
                    h == self.format.height,
                    w == self.format.width,
                    count == self.frames@.len(),
                    self.wf(),
                    index < count,
                    step >= 1,
                    out.wf(),
                    out.format == self.format,
                    out.pixels@.len() == old(out).pixels@.len(),
                    forall|r: int, c: int|
                        self.format.in_bounds(r, c) && r < row ==> #[trigger] out.pixel_at(r, c)
                            == self.frames@[rowcol_source(
                            index as int,
                            r,
                            c,
                            step as int,
                            count as int,
                        )].pixel_at(r, c),
                    forall|c: int|
                        0 <= c < col ==> #[trigger] out.pixel_at(row as int, c) == self.frames@[
                            rowcol_source(index as int, row as int, c, step as int, count as int)
                        ].pixel_at(row as int, c),
                    forall|c: int|
                        col <= c < w ==> #[trigger] out.pixel_at(row as int, c) == old(
                            out,
                        ).pixel_at(row as int, c),
                    forall|r: int, c: int|
                        self.format.in_bounds(r, c) && r > row ==> #[trigger] out.pixel_at(r, c)
                            == old(out).pixel_at(r, c),
                    forall|i: int|
                        self.format.is_padding(i) ==> #[trigger] out.pixels@[i] == old(
                            out,
                        ).pixels@[i],
                decreases w - col,
            {
                let sum = (row as u64) + (col as u64);
                let d64 = (sum / (step as u64)) % (count as u64);
                let d = d64 as usize;
                let j = if d < count - index {
                    index + d
                } else {
                    d - (count - index)
                };
                proof {
                    let t = (row as int + col as int) / (step as int);
                    let cnt = count as int;
                    lemma_mod_bound(t, cnt);
                    assert(d == t % cnt);
                    lemma_add_mod_noop_right(index as int, t, cnt);
                    if index + d < count {
                        lemma_fundamental_div_mod_converse_mod(
                            index as int + d,
                            cnt,
                            0,
                            index as int + d,
                        );
                    } else {
                        lemma_fundamental_div_mod_converse_mod(
                            index as int + d,
                            cnt,
                            1,
                            index as int + d - cnt,
                        );
                    }
                    assert(j == rowcol_source(
                        index as int,
                        row as int,
                        col as int,
                        step as int,
                        cnt,
                    ));
                }
                out.copy_pixel(&self.frames[j], row, col);
                col = col + 1;
            }
            row = row + 1;
        }
    }

    /// Applies the selected strategy: all effects are writes into `out`.
    pub fn displace(
        &self,
        strategy: DisplacementStrategy,
        index: usize,
        step: usize,
        out: &mut RasterBuffer,
    )
        requires
            self.wf(),
            index < self.frames@.len(),
            step >= 1,
            old(out).wf(),
            old(out).format == self.format,
        ensures
            match strategy {
                DisplacementStrategy::ByRow => by_row_displaced(
                    *self,
                    index as int,
                    step as int,
                    *old(out),
                    *final(out),
                ),
                DisplacementStrategy::ByCol => by_col_displaced(
                    *self,
                    index as int,
                    step as int,
                    *old(out),
                    *final(out),
                ),
                DisplacementStrategy::ByRowCol => by_rowcol_displaced(
                    *self,
                    index as int,
                    step as int,
                    *old(out),
                    *final(out),
                ),
            },
    {
        match strategy {
            DisplacementStrategy::ByRow => self.displace_by_row(index, step, out),
            DisplacementStrategy::ByCol => self.displace_by_col(index, step, out),
            DisplacementStrategy::ByRowCol => self.displace_by_rowcol(index, step, out),
        }
    }
}

} // verus!
