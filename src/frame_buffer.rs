//! A software model of a 3D frame buffer: a byte buffer of RGB pixels
//! together with a depth buffer that decides which point is visible.
use vstd::prelude::*;

verus! {

/// The width of the screen in bytes (three bytes per pixel).
pub const FRAME_BUFFER_WIDTH: usize = 1920;

/// The height of the screen in rows.
pub const FRAME_BUFFER_HEIGHT: usize = 480;

/// The width of the screen in pixels.
pub const PIXEL_WIDTH: usize = 640;

/// The color that erases a point.
pub const BACKGROUND_COLOR: usize = 0;

/// The depth of a position that shows nothing.
pub const EMPTY_DEPTH: usize = usize::MAX;

/// A point to plot: its coordinates, its depth and its color.
#[derive(Clone, Copy, Debug, PartialEq, Eq)]
pub struct Point {
    pub x: usize,
    pub y: usize,
    pub z: usize,
    pub color: usize,
}

/// What a drawer holds: the address it was bound to, the pixel bytes
/// (row by row, `FRAME_BUFFER_WIDTH` bytes a row) and the depth of
/// each pixel (row by row, `PIXEL_WIDTH` entries a row).
pub struct DrawerView {
    pub start_address: usize,
    pub buffer: Seq<u8>,
    pub depth: Seq<usize>,
}

pub struct Drawer {
    start_address: usize,
    buffer: Vec<u8>,
    depth: Vec<usize>,
}

impl View for Drawer {
    type V = DrawerView;

    closed spec fn view(&self) -> DrawerView {
        DrawerView { start_address: self.start_address, buffer: self.buffer@, depth: self.depth@ }
    }
}

impl DrawerView {
    pub open spec fn wf(self) -> bool {
        &&& self.buffer.len() == FRAME_BUFFER_WIDTH * FRAME_BUFFER_HEIGHT
        &&& self.depth.len() == PIXEL_WIDTH * FRAME_BUFFER_HEIGHT
    }
}

/// A pixel `(x, y)` is on screen when its three bytes fit in its row.
pub open spec fn pixel_on_screen(x: int, y: int) -> bool {
    0 <= x && 0 <= y && x * 3 + 2 < FRAME_BUFFER_WIDTH && y < FRAME_BUFFER_HEIGHT
}

/// The `k`-th byte (0: blue-most, 2: red-most) of a color.
pub open spec fn color_byte(color: usize, k: usize) -> u8 {
    ((color >> (8 * k) as usize) & 255) as u8
}

/// The state after plotting one point. A point behind what is already
/// shown (a larger depth) changes nothing; a hidden point (`show` false)
/// erases the pixel to the background color and frees its depth.
pub open spec fn plot(v: DrawerView, p: Point, show: bool) -> DrawerView {
    let d = p.y * PIXEL_WIDTH + p.x;
    let b = p.y * FRAME_BUFFER_WIDTH + p.x * 3;
    if !pixel_on_screen(p.x as int, p.y as int) || p.z > v.depth[d] {
        v
    } else {
        let c = if show { p.color } else { BACKGROUND_COLOR };
        DrawerView {
            start_address: v.start_address,
            buffer: v.buffer.update(b, color_byte(c, 0)).update(b + 1, color_byte(c, 1)).update(
                b + 2,
                color_byte(c, 2),
            ),
            depth: v.depth.update(d, if show { p.z } else { EMPTY_DEPTH }),
        }
    }
}

/// The state after plotting the points in order.
pub open spec fn plot_all(v: DrawerView, pts: Seq<Point>, show: bool) -> DrawerView
    decreases pts.len(),
{
    if pts.len() == 0 {
        v
    } else {
        plot(plot_all(v, pts.drop_last(), show), pts.last(), show)
    }
}

/// Division that rounds toward zero, as machine division does.
pub open spec fn div_toward_zero(a: int, b: int) -> int {
    let q = abs(a) / abs(b);
    if (a >= 0) == (b >= 0) {
        q
    } else {
        -q
    }
}

pub open spec fn abs(a: int) -> int {
    if a < 0 {
        -a
    } else {
        a
    }
}

pub open spec fn min(a: int, b: int) -> int {
    if a < b {
        a
    } else {
        b
    }
}

/// A line is stepped along x when it is wider than it is tall.
pub open spec fn steps_along_x(sx: int, sy: int, ex: int, ey: int) -> bool {
    abs(ex - sx) > abs(ey - sy)
}

/// The number of steps taken to draw a line.
pub open spec fn line_steps(sx: int, sy: int, ex: int, ey: int) -> int {
    if steps_along_x(sx, sy, ex, ey) {
        abs(ex - sx)
    } else {
        abs(ey - sy)
    }
}

/// The position reached at step `k` of a line.
pub open spec fn line_step(sx: int, sy: int, ex: int, ey: int, k: int) -> (int, int) {
    if steps_along_x(sx, sy, ex, ey) {
        let x = min(sx, ex) + k;
        (x, div_toward_zero((x - sx) * (ey - sy), ex - sx) + sy)
    } else {
        let y = min(sy, ey) + k;
        (div_toward_zero((y - sy) * (ex - sx), ey - sy) + sx, y)
    }
}

/// A position that a line keeps: its pixel fits on screen by the line's
/// own bound, which leaves two bytes of room after `x`.
pub open spec fn line_keeps(x: int, y: int) -> bool {
    0 <= x && x + 2 < FRAME_BUFFER_WIDTH && 0 <= y && y < FRAME_BUFFER_HEIGHT
}

/// The points of the first `n` steps of a line that are kept.
pub open spec fn line_points(
    sx: int,
    sy: int,
    ex: int,
    ey: int,
    z: usize,
    color: usize,
    n: nat,
) -> Seq<Point>
    decreases n,
{
    if n == 0 {
        seq![]
    } else {
        let prev = line_points(sx, sy, ex, ey, z, color, (n - 1) as nat);
        let (x, y) = line_step(sx, sy, ex, ey, n - 1);
        if line_keeps(x, y) {
            prev.push(Point { x: x as usize, y: y as usize, z, color })
        } else {
            prev
        }
    }
}

/// The points of the line from `(sx, sy)` to `(ex, ey)`.
pub open spec fn line(sx: int, sy: int, ex: int, ey: int, z: usize, color: usize) -> Seq<Point> {
    line_points(sx, sy, ex, ey, z, color, line_steps(sx, sy, ex, ey) as nat)
}

/// The points of column `x` from row `sy` on, `n` of them.
pub open spec fn column(x: int, sy: int, n: nat, z: usize, color: usize) -> Seq<Point> {
    Seq::new(n, |i: int| Point { x: x as usize, y: (sy + i) as usize, z, color })
}

/// The points of `nx` columns of height `ny`, column by column.
pub open spec fn block(sx: int, sy: int, nx: nat, ny: nat, z: usize, color: usize) -> Seq<Point>
    decreases nx,
{
    if nx == 0 {
        seq![]
    } else {
        block(sx, sy, (nx - 1) as nat, ny, z, color) + column(sx + nx - 1, sy, ny, z, color)
    }
}

/// The end of a square along one axis: cut at the screen's edge.
pub open spec fn clipped_end(start: int, len: int, limit: int) -> int {
    if start + len < limit {
        start + len
    } else {
        limit
    }
}

/// The points of a square, clipped to the screen.
pub open spec fn square(
    sx: int,
    sy: int,
    width: int,
    height: int,
    z: usize,
    color: usize,
) -> Seq<Point> {
    let ex = clipped_end(sx, width, FRAME_BUFFER_WIDTH as int);
    let ey = clipped_end(sy, height, FRAME_BUFFER_HEIGHT as int);
    let nx = if ex > sx {
        ex - sx
    } else {
        0
    };
    let ny = if ey > sy {
        ey - sy
    } else {
        0
    };
    block(sx, sy, nx as nat, ny as nat, z, color)
}

/// The truncation of `usize` to `i32`, as an `as` cast performs it.
pub open spec fn to_i32(v: usize) -> int {
    v as i32 as int
}

impl Drawer {
    /// A drawer bound to no address, its pixels black and its depth empty.
    pub fn new() -> (r: Drawer)
        ensures
            r@.wf(),
            r@.start_address == 0,
            forall|i: int| 0 <= i < r@.buffer.len() ==> r@.buffer[i] == 0,
            forall|i: int| 0 <= i < r@.depth.len() ==> r@.depth[i] == EMPTY_DEPTH,
    {
        let mut buffer: Vec<u8> = Vec::new();
        let mut i: usize = 0;
        while i < FRAME_BUFFER_WIDTH * FRAME_BUFFER_HEIGHT
            invariant
                i <= FRAME_BUFFER_WIDTH * FRAME_BUFFER_HEIGHT,
                buffer@.len() == i,
                forall|j: int| 0 <= j < i ==> buffer@[j] == 0,
            decreases FRAME_BUFFER_WIDTH * FRAME_BUFFER_HEIGHT - i,
        {
            buffer.push(0);
            i = i + 1;
        }
        let mut depth: Vec<usize> = Vec::new();
        let mut k: usize = 0;
        while k < PIXEL_WIDTH * FRAME_BUFFER_HEIGHT
            invariant
                k <= PIXEL_WIDTH * FRAME_BUFFER_HEIGHT,
                depth@.len() == k,
                forall|j: int| 0 <= j < k ==> depth@[j] == EMPTY_DEPTH,
            decreases PIXEL_WIDTH * FRAME_BUFFER_HEIGHT - k,
        {
            depth.push(EMPTY_DEPTH);
            k = k + 1;
        }
        Drawer { start_address: 0, buffer, depth }
    }

    /// The pixel bytes, row by row.
    pub fn buffer(&self) -> (r: &Vec<u8>)
        ensures
            r@ == self@.buffer,
    {
        &self.buffer
    }

    /// The depth of each pixel, row by row.
    pub fn depth(&self) -> (r: &Vec<usize>)
        ensures
            r@ == self@.depth,
    {
        &self.depth
    }

    /// The address that the drawer is bound to (0: none yet).
    pub fn start_address(&self) -> (r: usize)
        ensures
            r == self@.start_address,
    {
        self.start_address
    }

    /// Plots one point; see `plot`.
    pub fn draw_pixel(&mut self, x: usize, y: usize, z: usize, color: usize, show: bool)
        requires
            old(self)@.wf(),
        ensures
            final(self)@ == plot(old(self)@, Point { x, y, z, color }, show),
            final(self)@.wf(),
    {
        if x >= PIXEL_WIDTH || y >= FRAME_BUFFER_HEIGHT {
            return ;
        }
        let d = y * PIXEL_WIDTH + x;
        if z > self.depth[d] {
            return ;
        }
        self.depth.set(d, if show { z } else { EMPTY_DEPTH });
        let c = if show { color } else { BACKGROUND_COLOR };
        let b = y * FRAME_BUFFER_WIDTH + x * 3;
        self.buffer.set(b, (c & 255) as u8);
        self.buffer.set(b + 1, (c >> 8 & 255) as u8);
        self.buffer.set(b + 2, (c >> 16 & 255) as u8);
        proof {
            assert(color_byte(c, 0) == (c & 255) as u8) by (bit_vector);
            assert(color_byte(c, 1) == (c >> 8 & 255) as u8) by (bit_vector);
            assert(color_byte(c, 2) == (c >> 16 & 255) as u8) by (bit_vector);
        }
    }

    /// Plots the points in order.
    pub fn draw_points(&mut self, points: Vec<Point>, show: bool)
        requires
            old(self)@.wf(),
        ensures
            final(self)@ == plot_all(old(self)@, points@, show),
            final(self)@.wf(),
    {
        let mut i: usize = 0;
        while i < points.len()
            invariant
                0 <= i <= points@.len(),
                self@.wf(),
                self@ == plot_all(old(self)@, points@.take(i as int), show),
            decreases points@.len() - i,
        {
            let p = points[i];
            self.draw_pixel(p.x, p.y, p.z, p.color, show);
            assert(points@.take(i + 1).drop_last() =~= points@.take(i as int));
            i = i + 1;
        }
        assert(points@.take(i as int) =~= points@);
    }

    /// Whether a line keeps the position `(x, y)`.
    pub fn check_in_range(&self, x: usize, y: usize) -> (r: bool)
        ensures
            r == line_keeps(x as int, y as int),
    {
        x < FRAME_BUFFER_WIDTH - 2 && y < FRAME_BUFFER_HEIGHT
    }

    /// Plots the line from `(start_x, start_y)` to `(end_x, end_y)`, the
    /// end itself left out, one point for each step along its longer axis.
    pub fn draw_line(
        &mut self,
        start_x: i32,
        start_y: i32,
        end_x: i32,
        end_y: i32,
        z: usize,
        color: usize,
        show: bool,
    )
        requires
            old(self)@.wf(),
        ensures
            final(self)@ == plot_all(
                old(self)@,
                line(start_x as int, start_y as int, end_x as int, end_y as int, z, color),
                show,
            ),
            final(self)@.wf(),
    {
        let ghost (sx, sy, ex, ey) = (start_x as int, start_y as int, end_x as int, end_y as int);
        let width: i64 = end_x as i64 - start_x as i64;
        let height: i64 = end_y as i64 - start_y as i64;
        let aw: i64 = if width < 0 { -width } else { width };
        let ah: i64 = if height < 0 { -height } else { height };
        let along_x = aw > ah;
        let first: i64 = if along_x {
            if start_x < end_x { start_x as i64 } else { end_x as i64 }
        } else {
            if start_y < end_y { start_y as i64 } else { end_y as i64 }
        };
        let steps: i64 = if along_x { aw } else { ah };
        let mut points: Vec<Point> = Vec::new();
        let mut k: i64 = 0;
        while k < steps
            invariant
                along_x == steps_along_x(sx, sy, ex, ey),
                steps == line_steps(sx, sy, ex, ey),
                0 <= steps <= 0x1_0000_0000,
                width == ex - sx,
                height == ey - sy,
                first == if along_x { min(sx, ex) } else { min(sy, ey) },
                -0x8000_0000 <= first < 0x8000_0000,
                sx == start_x, sy == start_y, ex == end_x, ey == end_y,
                0 <= k <= steps,
                points@ == line_points(sx, sy, ex, ey, z, color, k as nat),
            decreases steps - k,
        {
            let (x, y) = self.line_step(start_x, start_y, width, height, along_x, first + k);
            assert(x as int == line_step(sx, sy, ex, ey, k as int).0);
            assert(y as int == line_step(sx, sy, ex, ey, k as int).1);
            let ghost before = points@;
            if 0 <= x && x < 0x1_0000 && 0 <= y && y < 0x1_0000 && self.check_in_range(
                x as usize,
                y as usize,
            ) {
                points.push(Point { x: x as usize, y: y as usize, z, color });
            }
            assert(points@ == if line_keeps(x as int, y as int) {
                before.push(Point { x: x as usize, y: y as usize, z, color })
            } else {
                before
            });
            k = k + 1;
        }
        self.draw_points(points, show);
    }

    /// The position of a line at coordinate `at` along the axis it steps.
    fn line_step(&self, start_x: i32, start_y: i32, width: i64, height: i64, along_x: bool, at: i64) -> (r: (
        i64,
        i64,
    ))
        requires
            -0x1_0000_0000 <= width <= 0x1_0000_0000,
            -0x1_0000_0000 <= height <= 0x1_0000_0000,
            along_x ==> width != 0 && abs(at - start_x) <= abs(width as int),
            !along_x ==> height != 0 && abs(at - start_y) <= abs(height as int),
        ensures
            along_x ==> r.0 == at && r.1 == div_toward_zero((at - start_x) * height, width as int)
                + start_y,
            !along_x ==> r.1 == at && r.0 == div_toward_zero((at - start_y) * width, height as int)
                + start_x,
    {
        let (offset, span, run): (i128, i128, i128) = if along_x {
            (at as i128 - start_x as i128, height as i128, width as i128)
        } else {
            (at as i128 - start_y as i128, width as i128, height as i128)
        };
        let ao: i128 = if offset < 0 { -offset } else { offset };
        let asp: i128 = if span < 0 { -span } else { span };
        let ar: i128 = if run < 0 { -run } else { run };
        assert(ao * asp <= ar * asp && ar * asp <= 0x1_0000_0000 * 0x1_0000_0000) by (nonlinear_arith)
            requires
                0 <= ao <= ar <= 0x1_0000_0000,
                0 <= asp <= 0x1_0000_0000,
        ;
        assert(abs(offset * span) == ao * asp) by (nonlinear_arith)
            requires
                ao == abs(offset as int),
                asp == abs(span as int),
        ;
        let an: i128 = ao * asp;
        let q: i128 = an / ar;
        assert(0 <= q <= asp) by (nonlinear_arith)
            requires
                q == an / ar,
                an == ao * asp,
                ao <= ar,
                0 <= ao,
                0 <= asp,
                1 <= ar,
        ;
        assert((offset * span >= 0) == (offset >= 0) || offset * span == 0 || span < 0)
            by (nonlinear_arith);
        let t: i128 = if (offset * span >= 0) == (run >= 0) { q } else { -q };
        if along_x {
            (at, (t + start_y as i128) as i64)
        } else {
            ((t + start_x as i128) as i64, at)
        }
    }

    /// Plots a `width` by `height` square whose upper left corner is
    /// `(start_x, start_y)`, cut at the screen's edge.
    pub fn draw_square(
        &mut self,
        start_x: usize,
        start_y: usize,
        width: usize,
        height: usize,
        z: usize,
        color: usize,
        show: bool,
    )
        requires
            old(self)@.wf(),
        ensures
            final(self)@ == plot_all(
                old(self)@,
                square(start_x as int, start_y as int, width as int, height as int, z, color),
                show,
            ),
            final(self)@.wf(),
    {
        let end_x: usize = if start_x < FRAME_BUFFER_WIDTH && width < FRAME_BUFFER_WIDTH - start_x {
            start_x + width
        } else {
            FRAME_BUFFER_WIDTH
        };
        let end_y: usize = if start_y < FRAME_BUFFER_HEIGHT && height < FRAME_BUFFER_HEIGHT
            - start_y {
            start_y + height
        } else {
            FRAME_BUFFER_HEIGHT
        };
        let ghost nx: nat = if end_x > start_x {
            (end_x - start_x) as nat
        } else {
            0
        };
        let ghost ny: nat = if end_y > start_y {
            (end_y - start_y) as nat
        } else {
            0
        };
        let mut points: Vec<Point> = Vec::new();
        let mut x: usize = start_x;
        while x < end_x
            invariant
                start_x <= x,
                x < end_x ==> x - start_x <= nx,
                x >= end_x ==> (x - start_x == nx),
                end_x <= FRAME_BUFFER_WIDTH,
                end_y <= FRAME_BUFFER_HEIGHT,
                nx == (if end_x > start_x { end_x - start_x } else { 0 }),
                ny == (if end_y > start_y { end_y - start_y } else { 0 }),
                points@ == block(start_x as int, start_y as int, (x - start_x) as nat, ny, z, color),
            decreases end_x - x,
        {
            let ghost before = points@;
            let mut y: usize = start_y;
            while y < end_y
                invariant
                    start_y <= y,
                    y < end_y ==> y - start_y <= ny,
                    y >= end_y ==> (y - start_y == ny),
                    x < end_x,
                    end_y <= FRAME_BUFFER_HEIGHT,
                    ny == (if end_y > start_y { end_y - start_y } else { 0 }),
                    points@ == before + column(x as int, start_y as int, (y - start_y) as nat, z, color),
                decreases end_y - y,
            {
                points.push(Point { x, y, z, color });
                assert(column(x as int, start_y as int, (y + 1 - start_y) as nat, z, color)
                    =~= column(x as int, start_y as int, (y - start_y) as nat, z, color).push(
                    Point { x, y, z, color },
                ));
                y = y + 1;
            }
            assert(block(start_x as int, start_y as int, (x + 1 - start_x) as nat, ny, z, color)
                == block(start_x as int, start_y as int, (x - start_x) as nat, ny, z, color)
                + column(x as int, start_y as int, ny, z, color));
            x = x + 1;
        }
        self.draw_points(points, show);
    }

    /// Binds the drawer to the buffer at `virtual_address`, once: a drawer
    /// that is bound already stays as it is. Binding to address 0 fails.
    pub fn init_frame_buffer(&mut self, virtual_address: usize) -> (r: Result<(), &'static str>)
        ensures
            final(self)@.buffer == old(self)@.buffer,
            final(self)@.depth == old(self)@.depth,
            old(self)@.start_address == 0 ==> final(self)@.start_address == virtual_address,
            old(self)@.start_address != 0 ==> final(self)@.start_address == old(
                self,
            )@.start_address,
            r is Err <==> (old(self)@.start_address == 0 && virtual_address == 0),
    {
        if self.start_address == 0 {
            self.start_address = virtual_address;
            if virtual_address == 0 {
                return Err("Error in init frame buffer");
            }
        }
        Ok(())
    }
}

/// Plots a pixel in the 2D mode: depth 0, shown.
pub fn draw_pixel(drawer: &mut Drawer, x: usize, y: usize, color: usize)
    requires
        old(drawer)@.wf(),
    ensures
        final(drawer)@ == plot(old(drawer)@, Point { x, y, z: 0, color }, true),
        final(drawer)@.wf(),
{
    drawer.draw_pixel(x, y, 0, color, true)
}

/// Plots a pixel at depth `z`; a hidden one (`show` false) is erased.
pub fn draw_pixel_3d(drawer: &mut Drawer, x: usize, y: usize, z: usize, color: usize, show: bool)
    requires
        old(drawer)@.wf(),
    ensures
        final(drawer)@ == plot(old(drawer)@, Point { x, y, z, color }, show),
        final(drawer)@.wf(),
{
    drawer.draw_pixel(x, y, z, color, show)
}

/// Plots a line in the 2D mode; the coordinates are taken as `i32`.
pub fn draw_line(
    drawer: &mut Drawer,
    start_x: usize,
    start_y: usize,
    end_x: usize,
    end_y: usize,
    color: usize,
)
    requires
        old(drawer)@.wf(),
    ensures
        final(drawer)@ == plot_all(
            old(drawer)@,
            line(to_i32(start_x), to_i32(start_y), to_i32(end_x), to_i32(end_y), 0, color),
            true,
        ),
        final(drawer)@.wf(),
{
    drawer.draw_line(start_x as i32, start_y as i32, end_x as i32, end_y as i32, 0, color, true)
}

/// Plots a line at depth `z`; the coordinates are taken as `i32`.
pub fn draw_line_3d(
    drawer: &mut Drawer,
    start_x: usize,
    start_y: usize,
    end_x: usize,
    end_y: usize,
    z: usize,
    color: usize,
    show: bool,
)
    requires
        old(drawer)@.wf(),
    ensures
        final(drawer)@ == plot_all(
            old(drawer)@,
            line(to_i32(start_x), to_i32(start_y), to_i32(end_x), to_i32(end_y), z, color),
            show,
        ),
        final(drawer)@.wf(),
{
    drawer.draw_line(start_x as i32, start_y as i32, end_x as i32, end_y as i32, z, color, show)
}

/// Plots a square in the 2D mode.
pub fn draw_square(
    drawer: &mut Drawer,
    start_x: usize,
    start_y: usize,
    width: usize,
    height: usize,
    color: usize,
)
    requires
        old(drawer)@.wf(),
    ensures
        final(drawer)@ == plot_all(
            old(drawer)@,
            square(start_x as int, start_y as int, width as int, height as int, 0, color),
            true,
        ),
        final(drawer)@.wf(),
{
    drawer.draw_square(start_x, start_y, width, height, 0, color, true)
}

/// Plots a square at depth `z`.
pub fn draw_square_3d(
    drawer: &mut Drawer,
    start_x: usize,
    start_y: usize,
    width: usize,
    height: usize,
    z: usize,
    color: usize,
    show: bool,
)
    requires
        old(drawer)@.wf(),
    ensures
        final(drawer)@ == plot_all(
            old(drawer)@,
            square(start_x as int, start_y as int, width as int, height as int, z, color),
            show,
        ),
        final(drawer)@.wf(),
{
    drawer.draw_square(start_x, start_y, width, height, z, color, show)
}

} // verus!
