//! Plaintext patterns: parsed from text lines into a bit buffer, then copied
//! into a world.

use crate::bits::{bits_of, Bits, MAX_BITS};
use crate::engine::{lemma_cell_index, lemma_index_cell};
use vstd::prelude::*;

verus! {

/// What `str::trim` leaves of a line.
pub uninterp spec fn trimmed(s: Seq<char>) -> Seq<char>;

/// Relies on `str::trim`: the line without leading and trailing whitespace.
#[verifier::external_body]
pub(crate) fn trim_line(s: &str) -> (r: &str)
    ensures
        r@ == trimmed(s@),
{
    s.trim()
}

/// Why a pattern could not be read or placed.
#[derive(Debug, Clone, Copy, PartialEq, Eq, Structural)]
pub enum PatternError {
    /// No line holds pattern cells.
    NoPatternLines,
    /// The pattern lines differ in length.
    UnequalLines,
    /// The pattern lines hold no characters once trimmed.
    BlankLines,
    /// The pattern has more cells than a bit buffer can hold.
    TooLarge,
    /// The world buffer is shorter than the given world size.
    WorldTooSmall,
    /// The pattern does not fit in the world at the given position.
    NoSpace,
}

impl PatternError {
    /// A sentence that describes the error.
    pub fn message(&self) -> &'static str {
        match self {
            PatternError::NoPatternLines => "no pattern lines found",
            PatternError::UnequalLines => "not all lines are the same length!",
            PatternError::BlankLines => "pattern lines hold no cells",
            PatternError::TooLarge => "pattern has too many cells",
            PatternError::WorldTooSmall => "world not big enough for given size",
            PatternError::NoSpace => "not enough space in world to place this pattern",
        }
    }
}

/// Whether a line carries pattern cells: it is not empty and is not a
/// comment (starting with `!`).
pub open spec fn is_pattern_line(l: Seq<char>) -> bool {
    l.len() > 0 && l[0] != '!'
}

/// The trimmed pattern lines among `lines`, in order.
pub open spec fn pattern_rows(lines: Seq<Seq<char>>) -> Seq<Seq<char>>
    decreases lines.len(),
{
    if lines.len() == 0 {
        Seq::empty()
    } else {
        let rest = pattern_rows(lines.drop_last());
        if is_pattern_line(lines.last()) {
            rest.push(trimmed(lines.last()))
        } else {
            rest
        }
    }
}

/// The characters of each line.
pub open spec fn line_views(lines: Seq<&str>) -> Seq<Seq<char>> {
    lines.map_values(|l: &str| l@)
}

/// The cells of rows of equal width `w`, row after row: `O` is alive, any
/// other character dead.
pub open spec fn row_cells(rows: Seq<Seq<char>>, w: int) -> Seq<bool> {
    Seq::new((w * rows.len()) as nat, |i: int| rows[i / w][i % w] == 'O')
}

/// What reading pattern rows gives: the cells with the width and height, or
/// the error, checked in this order.
pub open spec fn parse_rows(rows: Seq<Seq<char>>) -> Result<(Seq<bool>, usize, usize), PatternError> {
    if rows.len() == 0 {
        Err(PatternError::NoPatternLines)
    } else if exists|r: int| 0 <= r < rows.len() && #[trigger] rows[r].len() != rows[0].len() {
        Err(PatternError::UnequalLines)
    } else if rows[0].len() == 0 {
        Err(PatternError::BlankLines)
    } else if rows[0].len() * rows.len() > MAX_BITS {
        Err(PatternError::TooLarge)
    } else {
        Ok((row_cells(rows, rows[0].len() as int), rows[0].len() as usize, rows.len() as usize))
    }
}

/// A pattern: its cells row after row, and its width and height.
pub struct Pattern {
    store: Bits,
    size: (usize, usize),
}

/// The world after copying `cells`, of size `psize`, into it at `pos`: the
/// covered cells take the pattern's values, all others keep theirs.
pub open spec fn placed(
    world: Seq<bool>,
    cells: Seq<bool>,
    psize: (usize, usize),
    wsize: (usize, usize),
    pos: (usize, usize),
) -> Seq<bool> {
    Seq::new(
        world.len(),
        |i: int|
            {
                let x = i % wsize.0 as int;
                let y = i / wsize.0 as int;
                if i < wsize.0 * wsize.1 && pos.0 <= x < pos.0 + psize.0 && pos.1 <= y < pos.1
                    + psize.1 {
                    cells[(y - pos.1) * psize.0 + (x - pos.0)]
                } else {
                    world[i]
                }
            },
    )
}

/// Why a pattern of size `psize` cannot go into a world buffer of length
/// `len` and size `wsize` at `pos`, if it cannot.
pub open spec fn place_error(
    psize: (usize, usize),
    len: int,
    wsize: (usize, usize),
    pos: (usize, usize),
) -> Option<PatternError> {
    if wsize.0 * wsize.1 > len {
        Some(PatternError::WorldTooSmall)
    } else if pos.0 + psize.0 > wsize.0 || pos.1 + psize.1 > wsize.1 {
        Some(PatternError::NoSpace)
    } else {
        None
    }
}

impl Pattern {
    /// The cells hold one bit per position of the footprint.
    #[verifier::type_invariant]
    spec fn cells_fill_footprint(&self) -> bool {
        bits_of(self.store).len() == self.size.0 * self.size.1
    }

    /// The cells, row after row.
    pub closed spec fn cells_spec(&self) -> Seq<bool> {
        bits_of(self.store)
    }

    /// The width and height.
    pub closed spec fn size_spec(&self) -> (usize, usize) {
        self.size
    }

    /// Reads a pattern from its text lines: empty lines and lines that start
    /// with `!` are skipped, the others are trimmed and must all have the
    /// same length; `O` marks a live cell.
    pub fn from_plaintext(lines: &[&str]) -> (r: Result<Pattern, PatternError>)
        ensures
            match parse_rows(pattern_rows(line_views(lines@))) {
                Ok((cells, w, h)) => r matches Ok(p) && p.cells_spec() == cells && p.size_spec() == (
                w,
                h,
                ),
                Err(e) => r == Err::<Pattern, PatternError>(e),
            },
    {
        let mut rows: Vec<&str> = Vec::new();
        let mut i: usize = 0;
        while i < lines.len()
            invariant
                i <= lines@.len(),
                line_views(rows@) == pattern_rows(line_views(lines@.subrange(0, i as int))),
            decreases lines@.len() - i,
        {
            let line = lines[i];
            let ghost prefix = line_views(lines@.subrange(0, i + 1));
            assert(prefix.drop_last() =~= line_views(lines@.subrange(0, i as int)));
            assert(prefix.last() == line@);
            if line.unicode_len() > 0 && line.get_char(0) != '!' {
                let row = trim_line(line);
                rows.push(row);
                assert(line_views(rows@) =~= pattern_rows(line_views(lines@.subrange(0, i as int))).push(
                    row@,
                ));
            }
            i = i + 1;
        }
        assert(lines@.subrange(0, lines@.len() as int) =~= lines@);
        Pattern::from_rows(rows.as_slice())
    }

    /// Reads a pattern from rows that are already trimmed: they must all
    /// have the same, non-zero length; `O` marks a live cell.
    pub fn from_rows(rows: &[&str]) -> (r: Result<Pattern, PatternError>)
        ensures
            match parse_rows(line_views(rows@)) {
                Ok((cells, w, h)) => r matches Ok(p) && p.cells_spec() == cells && p.size_spec() == (
                w,
                h,
                ),
                Err(e) => r == Err::<Pattern, PatternError>(e),
            },
    {
        let ghost views = line_views(rows@);
        let h = rows.len();
        if h == 0 {
            return Err(PatternError::NoPatternLines);
        }
        let w = rows[0].unicode_len();
        let mut r: usize = 0;
        while r < h
            invariant
                h == rows@.len(),
                views == line_views(rows@),
                w == views[0].len(),
                r <= h,
                forall|q: int| 0 <= q < r ==> #[trigger] views[q].len() == w,
            decreases h - r,
        {
            if rows[r].unicode_len() != w {
                assert(views[r as int].len() != views[0].len());
                return Err(PatternError::UnequalLines);
            }
            r = r + 1;
        }
        if w == 0 {
            return Err(PatternError::BlankLines);
        }
        let total = match w.checked_mul(h) {
            Some(t) => t,
            None => {
                return Err(PatternError::TooLarge);
            },
        };
        if total > MAX_BITS {
            return Err(PatternError::TooLarge);
        }
        let mut store = Bits::new();
        let mut k: usize = 0;
        while k < total
            invariant
                h == rows@.len(),
                views == line_views(rows@),
                w == views[0].len(),
                w >= 1,
                total == w * h,
                total <= MAX_BITS,
                k <= total,
                forall|q: int| 0 <= q < h ==> #[trigger] views[q].len() == w,
                bits_of(store) == Seq::new(k as nat, |i: int| views[i / w as int][i % w as int] == 'O'),
            decreases total - k,
        {
            proof {
                lemma_index_cell(k as int, w as int, h as int);
            }
            assert(views[(k / w) as int].len() == w);
            assert(rows@[(k / w) as int]@ == views[(k / w) as int]);
            let c = rows[k / w].get_char(k % w);
            store.push(c == 'O');
            assert(bits_of(store) =~= Seq::new(
                (k + 1) as nat,
                |i: int| views[i / w as int][i % w as int] == 'O',
            ));
            k = k + 1;
        }
        assert(bits_of(store) =~= row_cells(views, w as int));
        Ok(Pattern { store, size: (w, h) })
    }

    /// The width and height.
    pub fn size(&self) -> (r: (usize, usize))
        ensures
            r == self.size_spec(),
    {
        self.size
    }

    /// The cells, row after row.
    pub fn cells(&self) -> (r: Vec<bool>)
        ensures
            r@ == self.cells_spec(),
    {
        self.store.to_vec()
    }

    /// Copies the pattern into `world`, a buffer of a world of size
    /// `world_size`, with its top-left corner at `position`; fails, leaving
    /// the world as it is, when the buffer is shorter than the size or the
    /// pattern would cross the world's edge.
    pub fn place(
        &self,
        world: &mut Bits,
        world_size: (usize, usize),
        position: (usize, usize),
    ) -> (r: Result<(), PatternError>)
        ensures
            match place_error(self.size_spec(), bits_of(*old(world)).len() as int, world_size, position) {
                Some(e) => r == Err::<(), PatternError>(e) && *final(world) == *old(world),
                None => r is Ok && bits_of(*final(world)) == placed(
                    bits_of(*old(world)),
                    self.cells_spec(),
                    self.size_spec(),
                    world_size,
                    position,
                ),
            },
    {
        proof {
            use_type_invariant(self);
        }
        let ghost old_world = bits_of(*world);
        let ghost len = old_world.len() as int;
        let world_len = world.len();
        let total = match world_size.0.checked_mul(world_size.1) {
            Some(t) => t,
            None => {
                return Err(PatternError::WorldTooSmall);
            },
        };
        if total > world_len {
            return Err(PatternError::WorldTooSmall);
        }
        let right = match position.0.checked_add(self.size.0) {
            Some(v) => v,
            None => {
                return Err(PatternError::NoSpace);
            },
        };
        let bottom = match position.1.checked_add(self.size.1) {
            Some(v) => v,
            None => {
                return Err(PatternError::NoSpace);
            },
        };
        if right > world_size.0 || bottom > world_size.1 {
            return Err(PatternError::NoSpace);
        }
        let pw = self.size.0;
        let ph = self.size.1;
        if pw == 0 || ph == 0 {
            assert(placed(old_world, self.cells_spec(), self.size_spec(), world_size, position)
                =~= old_world);
            return Ok(());
        }
        let ws = world_size.0;
        let ghost wsi = world_size.0 as int;
        let ghost hsi = world_size.1 as int;
        let cells = self.store.len();
        let mut k: usize = 0;
        while k < cells
            invariant
                pw == self.size_spec().0,
                ph == self.size_spec().1,
                pw >= 1,
                ph >= 1,
                cells == pw * ph,
                bits_of(self.store).len() == cells,
                self.cells_spec() == bits_of(self.store),
                ws == world_size.0,
                wsi == ws as int,
                hsi == world_size.1 as int,
                total == ws * world_size.1,
                total <= len,
                position.0 + pw <= ws,
                position.1 + ph <= world_size.1,
                k <= cells,
                bits_of(*world).len() == len,
                forall|i: int|
                    0 <= i < len ==> #[trigger] bits_of(*world)[i] == {
                        let x = i % wsi;
                        let y = i / wsi;
                        if i < total && position.0 <= x < position.0 + pw && position.1 <= y
                            < position.1 + ph && (y - position.1) * pw + (x - position.0) < k {
                            self.cells_spec()[(y - position.1) * pw + (x - position.0)]
                        } else {
                            old_world[i]
                        }
                    },
            decreases cells - k,
        {
            proof {
                lemma_index_cell(k as int, pw as int, ph as int);
            }
            let row = k / pw;
            let col = k % pw;
            proof {
                lemma_cell_index(position.0 + col, position.1 + row, wsi, hsi);
            }
            let dst = (position.0 + col) + (position.1 + row) * ws;
            let bit = self.store.get(k);
            world.set(dst, bit);
            assert forall|i: int| 0 <= i < len implies #[trigger] bits_of(*world)[i] == {
                let x = i % wsi;
                let y = i / wsi;
                if i < total && position.0 <= x < position.0 + pw && position.1 <= y < position.1
                    + ph && (y - position.1) * pw + (x - position.0) < k + 1 {
                    self.cells_spec()[(y - position.1) * pw + (x - position.0)]
                } else {
                    old_world[i]
                }
            } by {
                let x = i % wsi;
                let y = i / wsi;
                if i != dst && i < total && position.0 <= x < position.0 + pw && position.1 <= y
                    < position.1 + ph && (y - position.1) * pw + (x - position.0) == k {
                    vstd::arithmetic::div_mod::lemma_fundamental_div_mod_converse(
                        k as int,
                        pw as int,
                        y - position.1,
                        x - position.0,
                    );
                    lemma_index_cell(i, wsi, hsi);
                }
            }
            k = k + 1;
        }
        assert forall|i: int| 0 <= i < len implies #[trigger] bits_of(*world)[i] == placed(
            old_world,
            self.cells_spec(),
            self.size_spec(),
            world_size,
            position,
        )[i] by {
            let x = i % wsi;
            let y = i / wsi;
            if i < total && position.0 <= x < position.0 + pw && position.1 <= y < position.1 + ph {
                lemma_cell_index(x - position.0, y - position.1, pw as int, ph as int);
            }
        }
        assert(bits_of(*world) =~= placed(
            old_world,
            self.cells_spec(),
            self.size_spec(),
            world_size,
            position,
        ));
        Ok(())
    }

    /// The position that centers the pattern in a world of size
    /// `world_size`; fails when the pattern is larger than the world.
    pub fn calc_midpoint_placement(&self, world_size: (usize, usize)) -> (r: Result<
        (usize, usize),
        PatternError,
    >)
        ensures
            self.size_spec().0 > world_size.0 || self.size_spec().1 > world_size.1 ==> r == Err::<
                (usize, usize),
                PatternError,
            >(PatternError::NoSpace),
            self.size_spec().0 <= world_size.0 && self.size_spec().1 <= world_size.1 ==> r == Ok::<
                (usize, usize),
                PatternError,
            >(
                (
                    ((world_size.0 - self.size_spec().0) / 2) as usize,
                    ((world_size.1 - self.size_spec().1) / 2) as usize,
                ),
            ),
    {
        if self.size.0 > world_size.0 || self.size.1 > world_size.1 {
            return Err(PatternError::NoSpace);
        }
        Ok(((world_size.0 - self.size.0) / 2, (world_size.1 - self.size.1) / 2))
    }
}

} // verus!
