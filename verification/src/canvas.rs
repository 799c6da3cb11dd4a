//! A canvas to draw shapes on: two buffers of pixels, one displayed and one
//! drawn on, and the parts of drawing that work on whole pixels.
use vstd::prelude::*;

verus! {

/// A pixel: red, green, blue and opacity.
#[derive(Debug, Clone, Copy, PartialEq, Eq, Structural)]
pub struct Pixel(pub u8, pub u8, pub u8, pub u8);

/// Colors that have a name, and colors given by their parts.
#[derive(Debug, Clone, Copy, PartialEq, Eq, Structural)]
pub enum Colors {
    Red,
    Green,
    Blue,
    Black,
    White,
    Gray,
    Yellow,
    Purple,
    Aqua,
    RGB(u8, u8, u8),
    RGBA(u8, u8, u8, u8),
    Hue(i32),
}

/// Shapes that the canvas draws.
#[derive(Debug, Clone, Copy, PartialEq, Eq, Structural)]
pub enum Shape {
    /// x y w h
    Rect(i32, i32, i32, i32),
    /// x y
    Point(i32, i32),
    /// x1 y1 x2 y2
    Line(i32, i32, i32, i32),
    /// x y r
    Arc(i32, i32, i32),
}

/// Effects that may work on nearby pixels.
pub enum Effects {
    /// radius
    Blur(i32),
    /// mask, center
    OrientedBlur(Vec<Vec<i32>>, i32),
    /// radius, color
    EdgeDetection(i32, Colors),
    /// radius, center, color
    OrientedEdgeDetection(Vec<Vec<i32>>, i32, Colors),
}

/// Changes of a pixel that do not depend on nearby pixels.
#[derive(Debug, Clone, Copy, PartialEq, Eq, Structural)]
pub enum Filters {
    Color(Colors),
    Gamma(u8),
    Contrast(u8),
    Temperature(u8),
}

/// The pixel of a color.
pub open spec fn color_pixel(color: Colors) -> Pixel {
    match color {
        Colors::Red => Pixel(255, 0, 0, 255),
        Colors::Green => Pixel(0, 255, 0, 255),
        Colors::Yellow => Pixel(255, 255, 0, 255),
        Colors::Purple => Pixel(255, 0, 255, 255),
        Colors::Blue => Pixel(0, 0, 255, 255),
        Colors::Black => Pixel(0, 0, 0, 255),
        Colors::Aqua => Pixel(0, 255, 255, 255),
        Colors::White => Pixel(255, 255, 255, 255),
        Colors::Gray => Pixel(128, 128, 128, 255),
        Colors::RGB(r, g, b) => Pixel(r, g, b, 255),
        Colors::RGBA(r, g, b, a) => Pixel(r, g, b, a),
        Colors::Hue(_) => Pixel(0, 0, 0, 0),
    }
}

impl Pixel {
    /// An opaque pixel of these parts.
    pub fn from_rgb(r: u8, g: u8, b: u8) -> (p: Pixel)
        ensures
            p == Pixel(r, g, b, 255),
    {
        Pixel(r, g, b, 255)
    }

    /// The pixel of a color.
    pub fn from_color(color: Colors) -> (p: Pixel)
        ensures
            p == color_pixel(color),
    {
        match color {
            Colors::Red => Pixel(255, 0, 0, 255),
            Colors::Green => Pixel(0, 255, 0, 255),
            Colors::Yellow => Pixel(255, 255, 0, 255),
            Colors::Purple => Pixel(255, 0, 255, 255),
            Colors::Blue => Pixel(0, 0, 255, 255),
            Colors::Black => Pixel(0, 0, 0, 255),
            Colors::Aqua => Pixel(0, 255, 255, 255),
            Colors::White => Pixel(255, 255, 255, 255),
            Colors::Gray => Pixel(128, 128, 128, 255),
            Colors::RGB(r, g, b) => Pixel(r, g, b, 255),
            Colors::RGBA(r, g, b, a) => Pixel(r, g, b, a),
            Colors::Hue(_) => Pixel(0, 0, 0, 0),
        }
    }
}

/// The pixels of a buffer, column by column.
pub open spec fn grid(g: Seq<Vec<Pixel>>) -> Seq<Seq<Pixel>> {
    g.map_values(|c: Vec<Pixel>| c@)
}

/// A buffer of `x` columns of `y` pixels `p`.
pub open spec fn filled(x: nat, y: nat, p: Pixel) -> Seq<Seq<Pixel>> {
    Seq::new(x, |i: int| Seq::new(y, |j: int| p))
}

/// Whether the buffer has at least `x` columns of at least `y` pixels.
pub open spec fn covers(g: Seq<Seq<Pixel>>, x: nat, y: nat) -> bool {
    g.len() >= x && forall|i: int| 0 <= i < x ==> (#[trigger] g[i]).len() >= y
}

/// Whether `after` is `before` with the pixels of the first `x` columns and
/// the first `y` rows set to `p`.
pub open spec fn painted(before: Seq<Seq<Pixel>>, after: Seq<Seq<Pixel>>, x: nat, y: nat, p: Pixel) -> bool {
    &&& after.len() == before.len()
    &&& forall|i: int| 0 <= i < before.len() ==> (#[trigger] after[i]).len() == before[i].len()
    &&& forall|i: int, j: int|
        0 <= i < before.len() && 0 <= j < before[i].len() ==> (#[trigger] after[i][j]) == (if i < x && j
            < y {
            p
        } else {
            before[i][j]
        })
}

/// Whether `(x, y)` is within a view port, its sizes taken as `i32`.
pub open spec fn in_port(port: (usize, usize), x: i32, y: i32) -> bool {
    x < (port.0 as i32) && y < (port.1 as i32) && x >= 0 && y >= 0
}

/// A canvas: its size and its two buffers.
pub struct Context {
    /// resolution (x, y)
    pub port: (usize, usize),
    /// the displayed buffer
    pub front: Vec<Vec<Pixel>>,
    /// the buffer to draw on
    pub back: Vec<Vec<Pixel>>,
    /// the thickness of drawn lines
    pub line_thickness: usize,
}

/// A copy of a buffer.
fn copy_grid(g: &Vec<Vec<Pixel>>) -> (r: Vec<Vec<Pixel>>)
    ensures
        grid(r@) == grid(g@),
{
    let mut r: Vec<Vec<Pixel>> = Vec::new();
    let mut i: usize = 0;
    while i < g.len()
        invariant
            i <= g@.len(),
            r@.len() == i,
            forall|k: int| 0 <= k < i ==> (#[trigger] r@[k])@ == g@[k]@,
        decreases g@.len() - i,
    {
        let mut c: Vec<Pixel> = Vec::new();
        let mut j: usize = 0;
        while j < g[i].len()
            invariant
                i < g@.len(),
                j <= g@[i as int]@.len(),
                c@ == g@[i as int]@.take(j as int),
            decreases g@[i as int]@.len() - j,
        {
            c.push(g[i][j]);
            j = j + 1;
            assert(c@ =~= g@[i as int]@.take(j as int));
        }
        assert(c@ =~= g@[i as int]@);
        r.push(c);
        i = i + 1;
    }
    assert(grid(r@) =~= grid(g@));
    r
}

/// A buffer of `x` columns of `y` black pixels.
fn black_grid(x: usize, y: usize) -> (r: Vec<Vec<Pixel>>)
    ensures
        grid(r@) == filled(x as nat, y as nat, color_pixel(Colors::Black)),
{
    let black = Pixel::from_color(Colors::Black);
    let mut r: Vec<Vec<Pixel>> = Vec::new();
    let mut i: usize = 0;
    while i < x
        invariant
            i <= x,
            r@.len() == i,
            black == color_pixel(Colors::Black),
            forall|k: int| 0 <= k < i ==> (#[trigger] r@[k])@ == Seq::new(y as nat, |j: int| black),
        decreases x - i,
    {
        let mut c: Vec<Pixel> = Vec::new();
        let mut j: usize = 0;
        while j < y
            invariant
                j <= y,
                c@ == Seq::new(j as nat, |k: int| black),
            decreases y - j,
        {
            c.push(black);
            j = j + 1;
            assert(c@ =~= Seq::new(j as nat, |k: int| black));
        }
        r.push(c);
        i = i + 1;
    }
    assert(grid(r@) =~= filled(x as nat, y as nat, color_pixel(Colors::Black)));
    r
}

/// The buffer `g` with the pixels of the first `x` columns and the first `y`
/// rows set to `p`.
fn paint(g: &mut Vec<Vec<Pixel>>, x: usize, y: usize, p: Pixel)
    requires
        covers(grid(old(g)@), x as nat, y as nat),
    ensures
        painted(grid(old(g)@), grid(final(g)@), x as nat, y as nat, p),
{
    let ghost before = grid(g@);
    let mut i: usize = 0;
    while i < x
        invariant
            i <= x,
            covers(before, x as nat, y as nat),
            painted(before, grid(g@), i as nat, y as nat, p),
        decreases x - i,
    {
        let mut j: usize = 0;
        while j < y
            invariant
                i < x,
                j <= y,
                covers(before, x as nat, y as nat),
                grid(g@).len() == before.len(),
                forall|k: int| 0 <= k < before.len() ==> (#[trigger] grid(g@)[k]).len() == before[k].len(),
                forall|k: int, l: int|
                    0 <= k < before.len() && 0 <= l < before[k].len() ==> (#[trigger] grid(g@)[k][l])
                        == (if k < i && l < y {
                        p
                    } else if k == i && l < j {
                        p
                    } else {
                        before[k][l]
                    }),
            decreases y - j,
        {
            assert(grid(g@)[i as int].len() == before[i as int].len());
            let ghost gb = grid(g@);
            g[i].set(j, p);
            proof {
                assert(grid(g@) =~= gb.update(i as int, gb[i as int].update(j as int, p)));
            }
            j = j + 1;
        }
        i = i + 1;
    }
}

impl Context {
    /// An empty canvas, to be given its size with `view_port`.
    pub fn new() -> (r: Context)
        ensures
            r.port == (0usize, 0usize),
            r.front@.len() == 0,
            r.back@.len() == 0,
            r.line_thickness == 0,
    {
        Context { port: (0, 0), front: Vec::new(), back: Vec::new(), line_thickness: 0 }
    }

    /// Sizes the canvas to `x` by `y`, with both buffers black.
    pub fn view_port(&mut self, x: usize, y: usize) -> (r: &mut Context)
        ensures
            r.port == (x, y),
            grid(r.back@) == filled(x as nat, y as nat, color_pixel(Colors::Black)),
            grid(r.front@) == filled(x as nat, y as nat, color_pixel(Colors::Black)),
            r.line_thickness == old(self).line_thickness,
            *final(self) == *final(r),
    {
        self.port = (x, y);
        self.back = black_grid(x, y);
        self.front = black_grid(x, y);
        self
    }

    /// A copy of the canvas.
    pub fn build(&mut self) -> (r: Context)
        ensures
            *final(self) == *old(self),
            r.port == old(self).port,
            grid(r.front@) == grid(old(self).front@),
            grid(r.back@) == grid(old(self).back@),
            r.line_thickness == old(self).line_thickness,
    {
        Context {
            port: self.port,
            front: copy_grid(&self.front),
            back: copy_grid(&self.back),
            line_thickness: self.line_thickness,
        }
    }

    /// Sets every pixel of both buffers within the view port to `color`.
    pub fn clear(&mut self, color: Colors)
        requires
            covers(grid(old(self).front@), old(self).port.0 as nat, old(self).port.1 as nat),
            covers(grid(old(self).back@), old(self).port.0 as nat, old(self).port.1 as nat),
        ensures
            final(self).port == old(self).port,
            final(self).line_thickness == old(self).line_thickness,
            painted(grid(old(self).front@), grid(final(self).front@), old(self).port.0 as nat, old(self).port.1 as nat, color_pixel(color)),
            painted(grid(old(self).back@), grid(final(self).back@), old(self).port.0 as nat, old(self).port.1 as nat, color_pixel(color)),
    {
        let p = Pixel::from_color(color);
        let (x, y) = self.port;
        paint(&mut self.front, x, y, p);
        paint(&mut self.back, x, y, p);
    }

    /// The pixel of the buffer drawn on at `(x, y)`, if it is within the view port.
    pub fn get_pixel(&mut self, x: i32, y: i32) -> (r: Option<Pixel>)
        requires
            in_port(old(self).port, x, y) ==> x < old(self).back@.len() && y < old(self).back@[x as int]@.len(),
        ensures
            *final(self) == *old(self),
            r == (if in_port(old(self).port, x, y) {
                Some(old(self).back@[x as int]@[y as int])
            } else {
                None
            }),
    {
        let px: i32 = #[verifier::truncate] (self.port.0 as i32);
        let py: i32 = #[verifier::truncate] (self.port.1 as i32);
        if x < px && y < py && x >= 0 && y >= 0 {
            Some(self.back[x as usize][y as usize])
        } else {
            None
        }
    }

    /// Whether `(x, y)` is not out of bounds: within the view port.
    pub fn legal_pixel(&mut self, x: i32, y: i32) -> (r: bool)
        ensures
            *final(self) == *old(self),
            r == in_port(old(self).port, x, y),
    {
        let px: i32 = #[verifier::truncate] (self.port.0 as i32);
        let py: i32 = #[verifier::truncate] (self.port.1 as i32);
        x < px && y < py && x >= 0 && y >= 0
    }

    /// Sets the pixel at `(x, y)` of the buffer drawn on, where it is within
    /// the view port: an opaque pixel (alpha 255) takes the place of the one
    /// there; for a translucent one nothing is written and the pixel under it
    /// is given back, for the caller to blend the two and write the result
    /// with `put_pixel`.
    pub fn set_pixel(&mut self, x: i32, y: i32, pixel: Pixel) -> (under: Option<Pixel>)
        requires
            in_port(old(self).port, x, y) ==> x < old(self).back@.len() && y < old(self).back@[x as int]@.len(),
        ensures
            final(self).port == old(self).port,
            final(self).front == old(self).front,
            final(self).line_thickness == old(self).line_thickness,
            !in_port(old(self).port, x, y) ==> final(self).back == old(self).back && under is None,
            in_port(old(self).port, x, y) && pixel.3 == 255 ==> under is None && grid(final(self).back@) == grid(
                old(self).back@,
            ).update(x as int, grid(old(self).back@)[x as int].update(y as int, pixel)),
            in_port(old(self).port, x, y) && pixel.3 != 255 ==> final(self).back == old(self).back && under
                == Some(old(self).back@[x as int]@[y as int]),
    {
        if !self.legal_pixel(x, y) {
            return None;
        }
        if pixel.3 == 255 {
            self.put_pixel(x, y, pixel);
            None
        } else {
            Some(self.back[x as usize][y as usize])
        }
    }

    /// Writes `value` at `(x, y)` of the buffer drawn on, where it is within
    /// the view port.
    pub fn put_pixel(&mut self, x: i32, y: i32, value: Pixel)
        requires
            in_port(old(self).port, x, y) ==> x < old(self).back@.len() && y < old(self).back@[x as int]@.len(),
        ensures
            final(self).port == old(self).port,
            final(self).front == old(self).front,
            final(self).line_thickness == old(self).line_thickness,
            !in_port(old(self).port, x, y) ==> final(self).back == old(self).back,
            in_port(old(self).port, x, y) ==> grid(final(self).back@) == grid(old(self).back@).update(
                x as int,
                grid(old(self).back@)[x as int].update(y as int, value),
            ),
    {
        if self.legal_pixel(x, y) {
            let xi = x as usize;
            let yi = y as usize;
            let ghost gb = grid(self.back@);
            self.back[xi].set(yi, value);
            proof {
                assert(grid(self.back@) =~= gb.update(xi as int, gb[xi as int].update(yi as int, value)));
            }
        }
    }

    /// Shows the buffer drawn on: the two buffers trade places.
    pub fn swap(&mut self)
        ensures
            final(self).front == old(self).back,
            final(self).back == old(self).front,
            final(self).port == old(self).port,
            final(self).line_thickness == old(self).line_thickness,
    {
        std::mem::swap(&mut self.front, &mut self.back);
    }
}

} // verus!
