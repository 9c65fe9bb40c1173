//! RGBA rasters and the exact pixel-moving operations on them: cropping,
//! mirroring, quarter turns and pasting onto a transparent canvas.

use vstd::prelude::*;
use vstd::arithmetic::div_mod::lemma_fundamental_div_mod_converse;

verus! {

/// The content of a raster: its size in pixels and its bytes, four per pixel
/// (red, green, blue, alpha), row after row from the top.
pub struct Pixels {
    pub width: nat,
    pub height: nat,
    pub data: Seq<u8>,
}

impl Pixels {
    /// There are exactly four bytes for each pixel.
    pub open spec fn wf(self) -> bool {
        self.data.len() == self.width * self.height * 4
    }

    /// Whether `(x, y)` names a pixel.
    pub open spec fn contains(self, x: int, y: int) -> bool {
        0 <= x < self.width && 0 <= y < self.height
    }

    /// Channel `c` of the pixel at `(x, y)`.
    pub open spec fn at(self, x: int, y: int, c: int) -> u8 {
        self.data[(y * self.width + x) * 4 + c]
    }

    /// The four channels of the pixel at `(x, y)`.
    pub open spec fn pixel(self, x: int, y: int) -> Seq<u8> {
        seq![self.at(x, y, 0), self.at(x, y, 1), self.at(x, y, 2), self.at(x, y, 3)]
    }

    /// The raster of the given size whose channel `c` at `(x, y)` is `f(x, y, c)`.
    pub open spec fn from_fn(width: nat, height: nat, f: spec_fn(int, int, int) -> u8) -> Pixels {
        Pixels {
            width,
            height,
            data: Seq::new(
                width * height * 4,
                |k: int| f((k / 4) % (width as int), (k / 4) / (width as int), k % 4),
            ),
        }
    }

    /// A fully transparent raster.
    pub open spec fn blank(width: nat, height: nat) -> Pixels {
        Pixels::from_fn(width, height, |x: int, y: int, c: int| 0u8)
    }

    /// The `width` by `height` window of `self` whose top left corner is `(x0, y0)`.
    pub open spec fn window(self, x0: int, y0: int, width: nat, height: nat) -> Pixels {
        Pixels::from_fn(width, height, |x: int, y: int, c: int| self.at(x0 + x, y0 + y, c))
    }

    /// The window that is left of the request once it is clipped to the
    /// raster: the corner moves onto the edge at most, and the size shrinks to
    /// what lies inside.
    pub open spec fn cropped(self, x: int, y: int, width: int, height: int) -> Pixels {
        let x0 = if x < self.width { x } else { self.width as int };
        let y0 = if y < self.height { y } else { self.height as int };
        let w = if width < self.width - x0 { width } else { self.width - x0 };
        let h = if height < self.height - y0 { height } else { self.height - y0 };
        self.window(x0, y0, w as nat, h as nat)
    }

    /// Mirrored left to right.
    pub open spec fn flipped_h(self) -> Pixels {
        Pixels::from_fn(
            self.width,
            self.height,
            |x: int, y: int, c: int| self.at(self.width - 1 - x, y, c),
        )
    }

    /// Mirrored top to bottom.
    pub open spec fn flipped_v(self) -> Pixels {
        Pixels::from_fn(
            self.width,
            self.height,
            |x: int, y: int, c: int| self.at(x, self.height - 1 - y, c),
        )
    }

    /// Turned a quarter clockwise: the left column becomes the top row.
    pub open spec fn rotated_90(self) -> Pixels {
        Pixels::from_fn(
            self.height,
            self.width,
            |x: int, y: int, c: int| self.at(y, self.height - 1 - x, c),
        )
    }

    /// Turned by half a turn.
    pub open spec fn rotated_180(self) -> Pixels {
        Pixels::from_fn(
            self.width,
            self.height,
            |x: int, y: int, c: int| self.at(self.width - 1 - x, self.height - 1 - y, c),
        )
    }

    /// Turned a quarter counter-clockwise: the top row becomes the left column.
    pub open spec fn rotated_270(self) -> Pixels {
        Pixels::from_fn(
            self.height,
            self.width,
            |x: int, y: int, c: int| self.at(self.width - 1 - y, x, c),
        )
    }

    /// `top` copied over `self` with its top left corner at `(x0, y0)`; the
    /// pixels of `self` outside that rectangle stay.
    pub open spec fn pasted(self, top: Pixels, x0: int, y0: int) -> Pixels {
        Pixels::from_fn(
            self.width,
            self.height,
            |x: int, y: int, c: int|
                if top.contains(x - x0, y - y0) {
                    top.at(x - x0, y - y0, c)
                } else {
                    self.at(x, y, c)
                },
        )
    }

    /// Whether the pixel at `(x, y)` is visible at all.
    pub open spec fn opaque(self, x: int, y: int) -> bool {
        self.contains(x, y) && self.at(x, y, 3) != 0
    }
}

/// Where the byte of a pixel's channel lies, and that this place is its own.
pub proof fn lemma_index(width: int, height: int, x: int, y: int, c: int)
    requires
        0 <= x < width,
        0 <= y < height,
        0 <= c < 4,
    ensures
        0 <= (y * width + x) * 4 + c < width * height * 4,
        ((y * width + x) * 4 + c) % 4 == c,
        ((y * width + x) * 4 + c) / 4 == y * width + x,
        (y * width + x) % width == x,
        (y * width + x) / width == y,
{
    let p = y * width + x;
    assert(0 <= y * width && y * width + width <= height * width) by (nonlinear_arith)
        requires
            0 <= y < height,
            0 < width,
    ;
    assert(height * width == width * height) by (nonlinear_arith);
    lemma_fundamental_div_mod_converse(p, width, y, x);
}

/// Every byte of a raster belongs to one channel of one pixel.
pub proof fn lemma_coords(width: int, height: int, k: int)
    requires
        0 <= k < width * height * 4,
        0 <= width,
        0 <= height,
    ensures
        0 <= (k / 4) % width < width,
        0 <= (k / 4) / width < height,
        0 <= k % 4 < 4,
        k == (((k / 4) / width) * width + (k / 4) % width) * 4 + k % 4,
{
    assert(width > 0) by (nonlinear_arith)
        requires
            0 < width * height * 4,
            0 <= width,
    ;
    let p = k / 4;
    vstd::arithmetic::div_mod::lemma_fundamental_div_mod(p, width);
    let q = p / width;
    assert(width * q == q * width) by (nonlinear_arith);
    assert(0 <= q < height) by (nonlinear_arith)
        requires
            0 <= p < width * height,
            p == width * q + p % width,
            0 <= p % width < width,
            0 < width,
    ;
}

/// What `from_fn` puts at a pixel.
pub proof fn lemma_from_fn(width: nat, height: nat, f: spec_fn(int, int, int) -> u8, x: int, y: int, c: int)
    requires
        0 <= x < width,
        0 <= y < height,
        0 <= c < 4,
    ensures
        Pixels::from_fn(width, height, f).at(x, y, c) == f(x, y, c),
        Pixels::from_fn(width, height, f).wf(),
{
    lemma_index(width as int, height as int, x, y, c);
}

/// Two rasters of one size that agree at every pixel are the same raster.
pub proof fn lemma_same_pixels(a: Pixels, b: Pixels)
    requires
        a.wf(),
        b.wf(),
        a.width == b.width,
        a.height == b.height,
        forall|x: int, y: int, c: int|
            0 <= x < a.width && 0 <= y < a.height && 0 <= c < 4 ==> a.at(x, y, c) == b.at(x, y, c),
    ensures
        a == b,
{
    assert forall|k: int| 0 <= k < a.data.len() implies a.data[k] == b.data[k] by {
        lemma_coords(a.width as int, a.height as int, k);
        let x = (k / 4) % (a.width as int);
        let y = (k / 4) / (a.width as int);
        assert(a.at(x, y, k % 4) == b.at(x, y, k % 4));
    }
    assert(a.data =~= b.data);
}

/// An RGBA raster: `width * height` pixels of four bytes each.
#[derive(Clone, Debug, PartialEq, Eq)]
pub struct Raster {
    pub width: u32,
    pub height: u32,
    pub data: Vec<u8>,
}

impl View for Raster {
    type V = Pixels;

    open spec fn view(&self) -> Pixels {
        Pixels { width: self.width as nat, height: self.height as nat, data: self.data@ }
    }
}

/// How the pixels of a source raster are picked for a result.
enum Gather {
    /// A window with the given top left corner.
    Window { x0: u32, y0: u32 },
    FlipH,
    FlipV,
    Rotate90,
    Rotate180,
    Rotate270,
}

impl Gather {
    /// The source pixel that lands at `(x, y)` of the result.
    spec fn source(self, src: Pixels, x: int, y: int) -> (int, int) {
        match self {
            Gather::Window { x0, y0 } => (x0 + x, y0 + y),
            Gather::FlipH => (src.width - 1 - x, y),
            Gather::FlipV => (x, src.height - 1 - y),
            Gather::Rotate90 => (y, src.height - 1 - x),
            Gather::Rotate180 => (src.width - 1 - x, src.height - 1 - y),
            Gather::Rotate270 => (src.width - 1 - y, x),
        }
    }

    /// The result of gathering a `width` by `height` raster from `src`.
    spec fn apply(self, src: Pixels, width: nat, height: nat) -> Pixels {
        Pixels::from_fn(
            width,
            height,
            |x: int, y: int, c: int| src.at(self.source(src, x, y).0, self.source(src, x, y).1, c),
        )
    }

    /// Every pixel of a `width` by `height` result comes from inside `src`.
    spec fn fits(self, src: Pixels, width: nat, height: nat) -> bool {
        match self {
            Gather::Window { x0, y0 } => x0 + width <= src.width && y0 + height <= src.height,
            Gather::FlipH | Gather::FlipV | Gather::Rotate180 => width == src.width && height
                == src.height,
            Gather::Rotate90 | Gather::Rotate270 => width == src.height && height == src.width,
        }
    }
}

impl Raster {
    /// The buffer holds exactly the pixels that the size announces.
    pub open spec fn wf(&self) -> bool {
        self@.wf()
    }

    /// A raster over the given bytes, if there are four for each pixel.
    pub fn from_raw(width: u32, height: u32, data: Vec<u8>) -> (r: Option<Raster>)
        ensures
            r.is_some() <==> data@.len() == width as int * height as int * 4,
            r matches Some(img) ==> img.wf() && img.width == width && img.height == height
                && img.data@ == data@,
    {
        assert(width as int * height as int * 4 <= 0x4_0000_0000_0000_0000) by (nonlinear_arith)
            requires
                width <= 0xffff_ffff,
                height <= 0xffff_ffff,
        ;
        let wanted: u128 = (width as u128) * (height as u128) * 4;
        if data.len() as u128 == wanted {
            Some(Raster { width, height, data })
        } else {
            None
        }
    }

    /// Whether the buffer holds exactly the pixels that the size announces.
    pub fn is_wf(&self) -> (r: bool)
        ensures
            r == self.wf(),
    {
        assert(self.width as int * self.height as int * 4 <= 0x4_0000_0000_0000_0000) by (nonlinear_arith)
            requires
                self.width <= 0xffff_ffff,
                self.height <= 0xffff_ffff,
        ;
        let wanted: u128 = (self.width as u128) * (self.height as u128) * 4;
        self.data.len() as u128 == wanted
    }

    /// A fully transparent raster, unless its bytes cannot be counted in a `usize`.
    pub fn new(width: u32, height: u32) -> (r: Option<Raster>)
        ensures
            r.is_some() <==> width as int * height as int * 4 <= usize::MAX,
            r matches Some(img) ==> img.wf() && img@ == Pixels::blank(width as nat, height as nat),
    {
        assert(width as int * height as int * 4 <= 0x4_0000_0000_0000_0000) by (nonlinear_arith)
            requires
                width <= 0xffff_ffff,
                height <= 0xffff_ffff,
        ;
        let wanted: u128 = (width as u128) * (height as u128) * 4;
        if wanted > usize::MAX as u128 {
            return None;
        }
        let data: Vec<u8> = vec![0u8; wanted as usize];
        let img = Raster { width, height, data };
        proof {
            assert(img@.data =~= Pixels::blank(width as nat, height as nat).data);
        }
        Some(img)
    }

    /// The place of a pixel's first byte in the buffer.
    fn offset(&self, x: u32, y: u32) -> (k: usize)
        requires
            self.wf(),
            x < self.width,
            y < self.height,
        ensures
            k == (y as int * self.width as int + x as int) * 4,
            k + 4 <= self.data@.len(),
    {
        let n = self.data.len();
        proof {
            lemma_index(self.width as int, self.height as int, x as int, y as int, 0);
        }
        ((y as usize) * (self.width as usize) + (x as usize)) * 4
    }

    /// The four channels of the pixel at `(x, y)`.
    pub fn get_pixel(&self, x: u32, y: u32) -> (p: (u8, u8, u8, u8))
        requires
            self.wf(),
            x < self.width,
            y < self.height,
        ensures
            p.0 == self@.at(x as int, y as int, 0),
            p.1 == self@.at(x as int, y as int, 1),
            p.2 == self@.at(x as int, y as int, 2),
            p.3 == self@.at(x as int, y as int, 3),
    {
        let k = self.offset(x, y);
        (self.data[k], self.data[k + 1], self.data[k + 2], self.data[k + 3])
    }

    /// A copy with the same pixels.
    pub fn duplicate(&self) -> (r: Raster)
        ensures
            r@ == self@,
    {
        let data = self.data.clone();
        Raster { width: self.width, height: self.height, data }
    }

    /// Builds a raster of the given size by picking each pixel from `self`.
    fn gather(&self, how: Gather, width: u32, height: u32) -> (r: Raster)
        requires
            self.wf(),
            how.fits(self@, width as nat, height as nat),
        ensures
            r.wf(),
            r@ == how.apply(self@, width as nat, height as nat),
    {
        let ghost want = how.apply(self@, width as nat, height as nat);
        let mut data: Vec<u8> = Vec::new();
        let mut y: u32 = 0;
        while y < height
            invariant
                self.wf(),
                how.fits(self@, width as nat, height as nat),
                want == how.apply(self@, width as nat, height as nat),
                y <= height,
                data@.len() == y as int * width as int * 4,
                forall|k: int| 0 <= k < data@.len() ==> data@[k] == want.data[k],
            decreases height - y,
        {
            let mut x: u32 = 0;
            while x < width
                invariant
                    self.wf(),
                    how.fits(self@, width as nat, height as nat),
                    want == how.apply(self@, width as nat, height as nat),
                    y < height,
                    x <= width,
                    data@.len() == (y as int * width as int + x as int) * 4,
                    forall|k: int| 0 <= k < data@.len() ==> data@[k] == want.data[k],
                decreases width - x,
            {
                let (sx, sy): (u32, u32) = match how {
                    Gather::Window { x0, y0 } => (x0 + x, y0 + y),
                    Gather::FlipH => (self.width - 1 - x, y),
                    Gather::FlipV => (x, self.height - 1 - y),
                    Gather::Rotate90 => (y, self.height - 1 - x),
                    Gather::Rotate180 => (self.width - 1 - x, self.height - 1 - y),
                    Gather::Rotate270 => (self.width - 1 - y, x),
                };
                let p = self.get_pixel(sx, sy);
                proof {
                    lemma_index(width as int, height as int, x as int, y as int, 3);
                }
                data.push(p.0);
                data.push(p.1);
                data.push(p.2);
                data.push(p.3);
                x = x + 1;
            }
            y = y + 1;
            assert((y - 1) as int * width as int + width as int == y as int * width as int)
                by (nonlinear_arith);
        }
        assert(data@.len() == want.data.len()) by (nonlinear_arith)
            requires
                data@.len() == height as int * width as int * 4,
                want.data.len() == (width as nat) * (height as nat) * 4,
        ;
        assert(data@ =~= want.data);
        Raster { width, height, data }
    }

    /// Copies `top` over this raster with its top left corner at `(x0, y0)`;
    /// what of `top` falls outside is left out.
    pub fn paste(&self, top: &Raster, x0: u32, y0: u32) -> (r: Raster)
        requires
            self.wf(),
            top.wf(),
        ensures
            r.wf(),
            r@ == self@.pasted(top@, x0 as int, y0 as int),
    {
        let ghost want = self@.pasted(top@, x0 as int, y0 as int);
        let width = self.width;
        let height = self.height;
        let mut data: Vec<u8> = Vec::new();
        let mut y: u32 = 0;
        while y < height
            invariant
                self.wf(),
                top.wf(),
                width == self.width,
                height == self.height,
                want == self@.pasted(top@, x0 as int, y0 as int),
                y <= height,
                data@.len() == y as int * width as int * 4,
                forall|k: int| 0 <= k < data@.len() ==> data@[k] == want.data[k],
            decreases height - y,
        {
            let mut x: u32 = 0;
            while x < width
                invariant
                    self.wf(),
                    top.wf(),
                    width == self.width,
                    height == self.height,
                    want == self@.pasted(top@, x0 as int, y0 as int),
                    y < height,
                    x <= width,
                    data@.len() == (y as int * width as int + x as int) * 4,
                    forall|k: int| 0 <= k < data@.len() ==> data@[k] == want.data[k],
                decreases width - x,
            {
                let inside = x >= x0 && x - x0 < top.width && y >= y0 && y - y0 < top.height;
                let p = if inside {
                    top.get_pixel(x - x0, y - y0)
                } else {
                    self.get_pixel(x, y)
                };
                proof {
                    lemma_index(width as int, height as int, x as int, y as int, 3);
                }
                data.push(p.0);
                data.push(p.1);
                data.push(p.2);
                data.push(p.3);
                x = x + 1;
            }
            y = y + 1;
            assert((y - 1) as int * width as int + width as int == y as int * width as int)
                by (nonlinear_arith);
        }
        assert(data@.len() == want.data.len()) by (nonlinear_arith)
            requires
                data@.len() == height as int * width as int * 4,
                want.data.len() == (width as nat) * (height as nat) * 4,
        ;
        assert(data@ =~= want.data);
        Raster { width, height, data }
    }

    /// Crops to the part of the requested window that lies inside the raster.
    pub fn crop(&self, x: u32, y: u32, width: u32, height: u32) -> (r: Raster)
        requires
            self.wf(),
        ensures
            r.wf(),
            r@ == self@.cropped(x as int, y as int, width as int, height as int),
    {
        let x0 = if x < self.width { x } else { self.width };
        let y0 = if y < self.height { y } else { self.height };
        let w = if width < self.width - x0 { width } else { self.width - x0 };
        let h = if height < self.height - y0 { height } else { self.height - y0 };
        let r = self.gather(Gather::Window { x0, y0 }, w, h);
        assert(r@.data =~= self@.cropped(x as int, y as int, width as int, height as int).data);
        r
    }

    /// Mirrors left to right.
    pub fn fliph(&self) -> (r: Raster)
        requires
            self.wf(),
        ensures
            r.wf(),
            r@ == self@.flipped_h(),
    {
        let r = self.gather(Gather::FlipH, self.width, self.height);
        assert(r@.data =~= self@.flipped_h().data);
        r
    }

    /// Mirrors top to bottom.
    pub fn flipv(&self) -> (r: Raster)
        requires
            self.wf(),
        ensures
            r.wf(),
            r@ == self@.flipped_v(),
    {
        let r = self.gather(Gather::FlipV, self.width, self.height);
        assert(r@.data =~= self@.flipped_v().data);
        r
    }

    /// Turns a quarter clockwise.
    pub fn rotate90(&self) -> (r: Raster)
        requires
            self.wf(),
        ensures
            r.wf(),
            r@ == self@.rotated_90(),
    {
        let r = self.gather(Gather::Rotate90, self.height, self.width);
        assert(r@.data =~= self@.rotated_90().data);
        r
    }

    /// Turns by half a turn.
    pub fn rotate180(&self) -> (r: Raster)
        requires
            self.wf(),
        ensures
            r.wf(),
            r@ == self@.rotated_180(),
    {
        let r = self.gather(Gather::Rotate180, self.width, self.height);
        assert(r@.data =~= self@.rotated_180().data);
        r
    }

    /// Turns a quarter counter-clockwise.
    pub fn rotate270(&self) -> (r: Raster)
        requires
            self.wf(),
        ensures
            r.wf(),
            r@ == self@.rotated_270(),
    {
        let r = self.gather(Gather::Rotate270, self.height, self.width);
        assert(r@.data =~= self@.rotated_270().data);
        r
    }
}

} // verus!
