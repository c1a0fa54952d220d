//! Terminal frames as the client composes them: a grid of cells, a cursor and hyperlinks.
use vstd::prelude::*;

verus! {

/// A rectangle of terminal cells.
#[derive(Clone, Copy, PartialEq, Eq, Debug, Default, Structural)]
pub struct Rect {
    pub x: u16,
    pub y: u16,
    pub width: u16,
    pub height: u16,
}

pub open spec fn sat_add16(a: u16, b: u16) -> u16 {
    if a + b > u16::MAX {
        u16::MAX
    } else {
        (a + b) as u16
    }
}

pub open spec fn sat_sub16(a: u16, b: u16) -> u16 {
    if a < b {
        0
    } else {
        (a - b) as u16
    }
}

pub open spec fn min16(a: u16, b: u16) -> u16 {
    if a < b {
        a
    } else {
        b
    }
}

/// A rectangle at `(x, y)` with its size cut so that it ends within the cell coordinates.
pub open spec fn rect_new_spec(x: u16, y: u16, width: u16, height: u16) -> Rect {
    Rect {
        x,
        y,
        width: min16(width, (u16::MAX - x) as u16),
        height: min16(height, (u16::MAX - y) as u16),
    }
}

impl Rect {
    /// A rectangle at `(x, y)`; its width and height are cut so that it ends within the cell
    /// coordinates.
    pub fn new(x: u16, y: u16, width: u16, height: u16) -> (r: Rect)
        ensures
            r == rect_new_spec(x, y, width, height),
    {
        let max_width = u16::MAX - x;
        let max_height = u16::MAX - y;
        Rect {
            x,
            y,
            width: if width > max_width {
                max_width
            } else {
                width
            },
            height: if height > max_height {
                max_height
            } else {
                height
            },
        }
    }

    /// The column just right of the rectangle, saturating.
    pub fn right(&self) -> (r: u16)
        ensures
            r == sat_add16(self.x, self.width),
    {
        self.x.saturating_add(self.width)
    }

    /// The row just below the rectangle, saturating.
    pub fn bottom(&self) -> (r: u16)
        ensures
            r == sat_add16(self.y, self.height),
    {
        self.y.saturating_add(self.height)
    }

    /// Whether the rectangle covers no cell.
    pub fn is_empty(&self) -> (r: bool)
        ensures
            r == (self.width == 0 || self.height == 0),
    {
        self.width == 0 || self.height == 0
    }
}

/// Whether the cell at `(column, row)` lies in `rect`.
pub open spec fn rect_contains(rect: Rect, column: u16, row: u16) -> bool {
    rect.x <= column < sat_add16(rect.x, rect.width) && rect.y <= row < sat_add16(
        rect.y,
        rect.height,
    )
}

/// Whether the cell at `(column, row)` lies in `rect`.
pub fn contains(rect: Rect, column: u16, row: u16) -> (r: bool)
    ensures
        r == rect_contains(rect, column, row),
{
    rect.x <= column && column < rect.right() && rect.y <= row && row < rect.bottom()
}

/// The cursor of a frame.
#[derive(Clone, Copy, PartialEq, Eq, Debug, Structural)]
pub struct CursorState {
    pub x: u16,
    pub y: u16,
    pub visible: bool,
    pub shape: u8,
}

/// A cell: its symbol, its style, and the index of its hyperlink in the frame's list.
#[derive(Clone, Debug)]
pub struct Cell {
    pub symbol: String,
    pub style: u64,
    pub hyperlink: Option<u32>,
}

/// A frame: `cells` holds the rows one after the other, `width` cells each.
#[derive(Clone, Debug)]
pub struct FrameData {
    pub width: u16,
    pub height: u16,
    pub cells: Vec<Cell>,
    pub cursor: Option<CursorState>,
    pub hyperlinks: Vec<String>,
}

/// A copy of the cell.
pub fn copy_cell(c: &Cell) -> (r: Cell)
    ensures
        r == *c,
{
    Cell { symbol: c.symbol.clone(), style: c.style, hyperlink: c.hyperlink }
}

/// The window of `source` that a blit into `area` shows: its left column, top row, width and
/// height. The window is as large as both allow; a visible cursor is kept in view, as far
/// to the bottom right as the window allows; otherwise the window shows the bottom rows.
pub open spec fn blit_window(source: FrameData, area: Rect) -> (u16, u16, u16, u16) {
    let width = min16(source.width, area.width);
    let height = min16(source.height, area.height);
    let max_x = (source.width - width) as u16;
    let max_y = (source.height - height) as u16;
    match source.cursor {
        Some(c) if c.visible => (
            min16(sat_sub16(c.x, sat_sub16(width, 1)), max_x),
            min16(sat_sub16(c.y, sat_sub16(height, 1)), max_y),
            width,
            height,
        ),
        _ => (0, max_y, width, height),
    }
}

/// The geometry of a blit: source and target cell counts and widths, the target area's
/// corner, and the source window.
pub struct BlitPlan {
    pub src_width: int,
    pub src_len: int,
    pub tgt_width: int,
    pub tgt_len: int,
    pub area_x: int,
    pub area_y: int,
    pub x: int,
    pub y: int,
    pub width: int,
    pub height: int,
}

pub open spec fn blit_plan(target: FrameData, source: FrameData, area: Rect) -> BlitPlan {
    let (x, y, width, height) = blit_window(source, area);
    BlitPlan {
        src_width: source.width as int,
        src_len: source.cells@.len() as int,
        tgt_width: target.width as int,
        tgt_len: target.cells@.len() as int,
        area_x: area.x as int,
        area_y: area.y as int,
        x: x as int,
        y: y as int,
        width: width as int,
        height: height as int,
    }
}

/// Index of the source cell that the window cell `(row, col)` shows.
pub open spec fn src_index(p: BlitPlan, row: int, col: int) -> int {
    (row + p.y) * p.src_width + (col + p.x)
}

/// Index of the target cell that the window cell `(row, col)` lands on.
pub open spec fn tgt_index(p: BlitPlan, row: int, col: int) -> int {
    (row + p.area_y) * p.tgt_width + (col + p.area_x)
}

/// The window cell `(row, col)` is copied onto the target cell `t`: both cells exist.
pub open spec fn writes(p: BlitPlan, row: int, col: int, t: int) -> bool {
    &&& 0 <= row < p.height
    &&& 0 <= col < p.width
    &&& src_index(p, row, col) < p.src_len
    &&& tgt_index(p, row, col) < p.tgt_len
    &&& tgt_index(p, row, col) == t
}

/// The last window cell, in row-major order before `(r, c)`, that is copied onto the target
/// cell `t`.
pub open spec fn last_writer(p: BlitPlan, r: nat, c: nat, t: int) -> Option<(int, int)>
    decreases r, c,
{
    if c == 0 {
        if r == 0 {
            None
        } else {
            last_writer(p, (r - 1) as nat, if p.width < 0 { 0 } else { p.width as nat }, t)
        }
    } else if writes(p, r as int, c - 1, t) {
        Some((r as int, c - 1))
    } else {
        last_writer(p, r, (c - 1) as nat, t)
    }
}

/// A source cell as it lands in the target: its hyperlink, when the source has it, is
/// renumbered after the target's `base` hyperlinks; a dangling one is dropped.
pub open spec fn blitted(c: Cell, src_links: nat, base: u32) -> Cell {
    Cell {
        hyperlink: match c.hyperlink {
            Some(i) if (i as nat) < src_links => Some((base + i) as u32),
            _ => None,
        },
        ..c
    }
}

/// The target's cursor after a blit: the source cursor moved into the area when it lies in
/// the window, else none.
pub open spec fn blit_cursor(source: FrameData, area: Rect) -> Option<CursorState> {
    let (x, y, width, height) = blit_window(source, area);
    match source.cursor {
        Some(c) if x <= c.x && y <= c.y && c.x < x + width && c.y < y + height => Some(
            CursorState {
                x: (area.x + c.x - x) as u16,
                y: (area.y + c.y - y) as u16,
                visible: c.visible,
                shape: c.shape,
            },
        ),
        _ => None,
    }
}

/// `after` is `before` with the window of `source` copied into `area` (see
/// [`blit_window`]): the same size, the source's hyperlinks appended, each target cell the
/// last window cell copied onto it (or unchanged), and the source cursor moved with it.
pub open spec fn blit_result(before: FrameData, source: FrameData, area: Rect, after: FrameData) -> bool {
    let p = blit_plan(before, source, area);
    &&& after.width == before.width
    &&& after.height == before.height
    &&& after.hyperlinks@ == before.hyperlinks@ + source.hyperlinks@
    &&& after.cells@.len() == before.cells@.len()
    &&& forall|t: int|
        0 <= t < before.cells@.len() ==> #[trigger] after.cells@[t] == match last_writer(
            p,
            blit_window(source, area).3 as nat,
            0,
            t,
        ) {
            Some((row, col)) => blitted(
                source.cells@[src_index(p, row, col)],
                source.hyperlinks@.len(),
                before.hyperlinks@.len() as u32,
            ),
            None => before.cells@[t],
        }
    &&& after.cursor == blit_cursor(source, area)
}

/// The blit stays within cell coordinates and hyperlink numbers.
pub open spec fn blit_fits(target: FrameData, source: FrameData, area: Rect) -> bool {
    let (x, y, width, height) = blit_window(source, area);
    &&& area.x + width <= u16::MAX + 1
    &&& area.y + height <= u16::MAX + 1
    &&& match source.cursor {
        Some(c) => (x <= c.x && y <= c.y && c.x < x + width && c.y < y + height) ==> (area.x + c.x
            <= u16::MAX && area.y + c.y <= u16::MAX),
        None => true,
    }
    &&& target.hyperlinks@.len() + source.hyperlinks@.len() <= u32::MAX
}

fn min_u16(a: u16, b: u16) -> (r: u16)
    ensures
        r == min16(a, b),
{
    if a < b {
        a
    } else {
        b
    }
}

proof fn lemma_index_bound(a: int, w: int, b: int)
    requires
        0 <= a <= u16::MAX,
        0 <= w <= u16::MAX,
        0 <= b <= u16::MAX,
    ensures
        0 <= a * w + b <= 0x1_0000_0000,
{
    assert(0 <= a * w <= u16::MAX * u16::MAX) by (nonlinear_arith)
        requires
            0 <= a <= u16::MAX,
            0 <= w <= u16::MAX,
    ;
}

/// Copies the window of `source` (see [`blit_window`]) into `area` of `target`, appending the
/// source's hyperlinks to the target's, and moves the cursor with it; returns the window's
/// corner, which maps target cells back to source cells.
pub fn blit_attention_surface(target: &mut FrameData, source: &FrameData, area: Rect) -> (r: (u16, u16))
    requires
        blit_fits(*old(target), *source, area),
    ensures
        ({
            let (x, y, _, _) = blit_window(*source, area);
            r == (x, y)
        }),
        blit_result(*old(target), *source, area, *final(target)),
{
    let ghost p = blit_plan(*target, *source, area);
    let ghost old_cells = target.cells@;
    let ghost base_len = target.hyperlinks@.len();
    let width = min_u16(source.width, area.width);
    let height = min_u16(source.height, area.height);
    let max_x = source.width - width;
    let max_y = source.height - height;
    let (x, y) = match source.cursor {
        Some(c) => {
            if c.visible {
                (
                    min_u16(c.x.saturating_sub(width.saturating_sub(1)), max_x),
                    min_u16(c.y.saturating_sub(height.saturating_sub(1)), max_y),
                )
            } else {
                (0u16, max_y)
            }
        },
        None => (0u16, max_y),
    };
    assert(p.x == x && p.y == y && p.width == width && p.height == height);
    let hyperlink_base = target.hyperlinks.len() as u32;
    let mut k: usize = 0;
    while k < source.hyperlinks.len()
        invariant
            k <= source.hyperlinks@.len(),
            target.hyperlinks@ == old(target).hyperlinks@ + source.hyperlinks@.take(k as int),
            target.cells == old(target).cells,
            target.width == old(target).width,
            target.height == old(target).height,
            target.cursor == old(target).cursor,
        decreases source.hyperlinks@.len() - k,
    {
        target.hyperlinks.push(source.hyperlinks[k].clone());
        proof {
            assert(source.hyperlinks@.take(k + 1) =~= source.hyperlinks@.take(k as int).push(
                source.hyperlinks@[k as int],
            ));
        }
        k += 1;
    }
    proof {
        assert(source.hyperlinks@.take(source.hyperlinks@.len() as int) =~= source.hyperlinks@);
    }
    let sw = source.width as u64;
    let tw = target.width as u64;
    let slen: usize = source.cells.len();
    let tlen: usize = target.cells.len();
    let mut row: u16 = 0;
    while row < height
        invariant
            p == blit_plan(*old(target), *source, area),
            p.x == x && p.y == y && p.width == width && p.height == height,
            width == min16(source.width, area.width),
            height == min16(source.height, area.height),
            x + width <= source.width,
            y + height <= source.height,
            area.y + height <= u16::MAX + 1,
            area.x + width <= u16::MAX + 1,
            row <= height,
            sw == source.width,
            tw == old(target).width,
            slen == source.cells@.len(),
            tlen == old_cells.len(),
            old_cells == old(target).cells@,
            base_len == old(target).hyperlinks@.len(),
            hyperlink_base == base_len,
            base_len + source.hyperlinks@.len() <= u32::MAX,
            target.width == old(target).width,
            target.height == old(target).height,
            target.cursor == old(target).cursor,
            target.hyperlinks@ == old(target).hyperlinks@ + source.hyperlinks@,
            target.cells@.len() == old_cells.len(),
            forall|t: int|
                0 <= t < old_cells.len() ==> #[trigger] target.cells@[t] == match last_writer(
                    p,
                    row as nat,
                    0,
                    t,
                ) {
                    Some((rr, cc)) => blitted(
                        source.cells@[src_index(p, rr, cc)],
                        source.hyperlinks@.len(),
                        base_len as u32,
                    ),
                    None => old_cells[t],
                },
        decreases height - row,
    {
        let mut col: u16 = 0;
        while col < width
            invariant
                p == blit_plan(*old(target), *source, area),
                p.x == x && p.y == y && p.width == width && p.height == height,
                x + width <= source.width,
                y + height <= source.height,
                area.y + height <= u16::MAX + 1,
                area.x + width <= u16::MAX + 1,
                row < height,
                col <= width,
                sw == source.width,
                tw == old(target).width,
                slen == source.cells@.len(),
                tlen == old_cells.len(),
                old_cells == old(target).cells@,
                base_len == old(target).hyperlinks@.len(),
                hyperlink_base == base_len,
                base_len + source.hyperlinks@.len() <= u32::MAX,
                target.width == old(target).width,
                target.height == old(target).height,
                target.cursor == old(target).cursor,
                target.hyperlinks@ == old(target).hyperlinks@ + source.hyperlinks@,
                target.cells@.len() == old_cells.len(),
                forall|t: int|
                    0 <= t < old_cells.len() ==> #[trigger] target.cells@[t] == match last_writer(
                        p,
                        row as nat,
                        col as nat,
                        t,
                    ) {
                        Some((rr, cc)) => blitted(
                            source.cells@[src_index(p, rr, cc)],
                            source.hyperlinks@.len(),
                            base_len as u32,
                        ),
                        None => old_cells[t],
                    },
            decreases width - col,
        {
            proof {
                lemma_index_bound((row + y) as int, sw as int, (col + x) as int);
                lemma_index_bound((row + area.y) as int, tw as int, (col + area.x) as int);
            }
            let si: u64 = ((row + y) as u64) * sw + ((col + x) as u64);
            let ti: u64 = ((row + area.y) as u64) * tw + ((col + area.x) as u64);
            assert(si == src_index(p, row as int, col as int));
            assert(ti == tgt_index(p, row as int, col as int));
            let ghost before = target.cells@;
            if si < (slen as u64) && ti < (tlen as u64) {
                let from = &source.cells[si as usize];
                let link = match from.hyperlink {
                    Some(i) => {
                        if (i as u64) < (source.hyperlinks.len() as u64) {
                            Some(hyperlink_base + i)
                        } else {
                            None
                        }
                    },
                    None => None,
                };
                let mut cell = copy_cell(from);
                cell.hyperlink = link;
                target.cells.set(ti as usize, cell);
                proof {
                    assert(*from == source.cells@[src_index(p, row as int, col as int)]);
                    assert(si < p.src_len);
                    assert(ti < p.tgt_len);
                    assert(0 <= row < p.height && 0 <= col < p.width);
                    assert(cell == blitted(
                        source.cells@[src_index(p, row as int, col as int)],
                        source.hyperlinks@.len(),
                        base_len as u32,
                    ));
                    assert forall|t: int| 0 <= t < old_cells.len() implies #[trigger] target.cells@[t]
                        == match last_writer(p, row as nat, (col + 1) as nat, t) {
                        Some((rr, cc)) => blitted(
                            source.cells@[src_index(p, rr, cc)],
                            source.hyperlinks@.len(),
                            base_len as u32,
                        ),
                        None => old_cells[t],
                    } by {
                        assert(writes(p, row as int, col as int, t) == (t == ti));
                        if t != ti {
                            assert(before[t] == target.cells@[t]);
                        }
                    }
                }
            } else {
                proof {
                    assert forall|t: int| 0 <= t < old_cells.len() implies #[trigger] target.cells@[t]
                        == match last_writer(p, row as nat, (col + 1) as nat, t) {
                        Some((rr, cc)) => blitted(
                            source.cells@[src_index(p, rr, cc)],
                            source.hyperlinks@.len(),
                            base_len as u32,
                        ),
                        None => old_cells[t],
                    } by {
                        assert(!writes(p, row as int, col as int, t));
                    }
                }
            }
            col += 1;
        }
        proof {
            assert forall|t: int| 0 <= t < old_cells.len() implies last_writer(p, (row + 1) as nat, 0, t)
                == last_writer(p, row as nat, width as nat, t) by {}
        }
        row += 1;
    }
    target.cursor = match source.cursor {
        Some(c) => {
            if c.x >= x && c.y >= y && c.x < x + width && c.y < y + height {
                Some(
                    CursorState {
                        x: area.x + c.x - x,
                        y: area.y + c.y - y,
                        visible: c.visible,
                        shape: c.shape,
                    },
                )
            } else {
                None
            }
        },
        None => None,
    };
    (x, y)
}

/// The abstract value of a [`Cell`].
pub struct CellView {
    pub symbol: Seq<char>,
    pub style: u64,
    pub hyperlink: Option<u32>,
}

pub open spec fn cell_view() -> spec_fn(Cell) -> CellView {
    |c: Cell| CellView { symbol: c.symbol@, style: c.style, hyperlink: c.hyperlink }
}

pub open spec fn string_view() -> spec_fn(String) -> Seq<char> {
    |s: String| s@
}

/// The abstract value of a [`FrameData`].
pub struct FrameView {
    pub width: u16,
    pub height: u16,
    pub cells: Seq<CellView>,
    pub cursor: Option<CursorState>,
    pub hyperlinks: Seq<Seq<char>>,
}

impl View for FrameData {
    type V = FrameView;

    open spec fn view(&self) -> FrameView {
        FrameView {
            width: self.width,
            height: self.height,
            cells: self.cells@.map_values(cell_view()),
            cursor: self.cursor,
            hyperlinks: self.hyperlinks@.map_values(string_view()),
        }
    }
}

/// Whether two frames show the same thing.
pub fn same_frame(a: &FrameData, b: &FrameData) -> (r: bool)
    ensures
        r == (a@ == b@),
{
    if a.width != b.width || a.height != b.height || a.cells.len() != b.cells.len()
        || a.hyperlinks.len() != b.hyperlinks.len() {
        proof {
            if a.cells.len() != b.cells.len() {
                assert(a@.cells.len() != b@.cells.len());
            }
            if a.hyperlinks.len() != b.hyperlinks.len() {
                assert(a@.hyperlinks.len() != b@.hyperlinks.len());
            }
        }
        return false;
    }
    match (a.cursor, b.cursor) {
        (Some(x), Some(y)) => {
            if x.x != y.x || x.y != y.y || x.visible != y.visible || x.shape != y.shape {
                return false;
            }
        },
        (None, None) => {},
        _ => {
            return false;
        },
    }
    let mut i: usize = 0;
    while i < a.cells.len()
        invariant
            i <= a.cells@.len(),
            a.cells@.len() == b.cells@.len(),
            forall|j: int| 0 <= j < i ==> cell_view()(#[trigger] a.cells@[j]) == cell_view()(b.cells@[j]),
        decreases a.cells@.len() - i,
    {
        let x = &a.cells[i];
        let y = &b.cells[i];
        if !(x.symbol == y.symbol) || x.style != y.style || x.hyperlink != y.hyperlink {
            assert(cell_view()(a.cells@[i as int]) != cell_view()(b.cells@[i as int]));
            assert(a@.cells[i as int] != b@.cells[i as int]);
            return false;
        }
        i += 1;
    }
    let mut k: usize = 0;
    while k < a.hyperlinks.len()
        invariant
            k <= a.hyperlinks@.len(),
            a.hyperlinks@.len() == b.hyperlinks@.len(),
            forall|j: int| 0 <= j < k ==> (#[trigger] a.hyperlinks@[j])@ == b.hyperlinks@[j]@,
        decreases a.hyperlinks@.len() - k,
    {
        if !(a.hyperlinks[k] == b.hyperlinks[k]) {
            assert(a@.hyperlinks[k as int] != b@.hyperlinks[k as int]);
            return false;
        }
        k += 1;
    }
    proof {
        assert(a@.cells =~= b@.cells);
        assert(a@.hyperlinks =~= b@.hyperlinks);
    }
    true
}

/// Whether [`blit_attention_surface`] can copy `source` into `area` of `target`.
pub fn blit_fits_check(target: &FrameData, source: &FrameData, area: Rect) -> (r: bool)
    ensures
        r == blit_fits(*target, *source, area),
{
    let width = min_u16(source.width, area.width);
    let height = min_u16(source.height, area.height);
    let max_x = source.width - width;
    let max_y = source.height - height;
    let (x, y) = match source.cursor {
        Some(c) => {
            if c.visible {
                (
                    min_u16(c.x.saturating_sub(width.saturating_sub(1)), max_x),
                    min_u16(c.y.saturating_sub(height.saturating_sub(1)), max_y),
                )
            } else {
                (0u16, max_y)
            }
        },
        None => (0u16, max_y),
    };
    if area.x as u32 + width as u32 > 65536 || area.y as u32 + height as u32 > 65536 {
        return false;
    }
    match source.cursor {
        Some(c) => {
            if x <= c.x && y <= c.y && (c.x as u32) < x as u32 + width as u32 && (c.y as u32) < y as u32
                + height as u32 {
                if area.x as u32 + c.x as u32 > 65535 || area.y as u32 + c.y as u32 > 65535 {
                    return false;
                }
            }
        },
        None => {},
    }
    let t = target.hyperlinks.len() as u64;
    let n = source.hyperlinks.len() as u64;
    t <= 0xffff_ffff && n <= 0xffff_ffff - t
}

} // verus!
