//! 8-bit RGB pixels and the row-major image raster that the renderer fills.

use vstd::prelude::*;

verus! {

use crate::digits::dec_rep;
use crate::digits::hex_byte;
use crate::digits::push_dec;
use crate::digits::push_hex_byte;

/// One output pixel: 8-bit red, green and blue channels.
#[derive(Debug, PartialEq, Eq, Structural, Clone, Copy, Hash)]
pub struct PPMColor {
    pub r: u8,
    pub g: u8,
    pub b: u8,
}

impl PPMColor {
    pub fn new(r: u8, g: u8, b: u8) -> (c: Self)
        ensures
            c == (PPMColor { r, g, b }),
    {
        Self { r, g, b }
    }

    /// This pixel's color as a hexadecimal code such as `#ff8000`.
    pub fn to_hex_string(&self) -> (s: String)
        ensures
            s@ == hex_code(*self),
    {
        let mut s = String::new();
        s.append("#");
        push_hex_byte(&mut s, self.r);
        push_hex_byte(&mut s, self.g);
        push_hex_byte(&mut s, self.b);
        proof {
            assert(s@ =~= hex_code(*self));
        }
        s
    }
}

/// The hexadecimal color code of a pixel: `#` then two digits per channel.
pub open spec fn hex_code(c: PPMColor) -> Seq<char> {
    "#"@ + hex_byte(c.r as nat) + hex_byte(c.g as nat) + hex_byte(c.b as nat)
}

impl Default for PPMColor {
    /// Black: every channel zero.
    fn default() -> (c: Self)
        ensures
            c == (PPMColor { r: 0u8, g: 0u8, b: 0u8 }),
    {
        Self { r: 0, g: 0, b: 0 }
    }
}

/// The raster index a pixel at column `x` of row `y` occupies, row-major.
pub open spec fn flat_index(x: int, y: int, width: int) -> int {
    x + y * width
}

/// A coordinate pair inside a `width` by `height` raster maps to an index
/// inside the raster's backing sequence.
pub proof fn lemma_flat_index_in_range(x: int, y: int, width: int, height: int)
    requires
        0 <= x < width,
        0 <= y < height,
    ensures
        0 <= flat_index(x, y, width) < width * height,
{
    assert(0 <= x + y * width < width * height) by (nonlinear_arith)
        requires
            0 <= x < width,
            0 <= y < height,
    ;
}

/// Row-major placement is injective: distinct pixel coordinates occupy
/// distinct raster indices, so workers that own disjoint coordinates write
/// disjoint cells of the raster.
pub proof fn lemma_flat_index_injective(x1: int, y1: int, x2: int, y2: int, width: int)
    requires
        0 <= x1 < width,
        0 <= x2 < width,
        0 <= y1,
        0 <= y2,
        flat_index(x1, y1, width) == flat_index(x2, y2, width),
    ensures
        x1 == x2,
        y1 == y2,
{
    assert(x1 == x2 && y1 == y2) by (nonlinear_arith)
        requires
            0 <= x1 < width,
            0 <= x2 < width,
            0 <= y1,
            0 <= y2,
            x1 + y1 * width == x2 + y2 * width,
    ;
}

/// Placements at distinct coordinates commute: the finished raster does not
/// depend on the order in which parallel workers store their pixels.
pub proof fn lemma_disjoint_writes_commute(
    pixels: Seq<PPMColor>,
    width: int,
    height: int,
    x1: int,
    y1: int,
    c1: PPMColor,
    x2: int,
    y2: int,
    c2: PPMColor,
)
    requires
        pixels.len() == width * height,
        0 <= x1 < width,
        0 <= y1 < height,
        0 <= x2 < width,
        0 <= y2 < height,
        x1 != x2 || y1 != y2,
    ensures
        pixels.update(flat_index(x1, y1, width), c1).update(flat_index(x2, y2, width), c2)
            == pixels.update(flat_index(x2, y2, width), c2).update(flat_index(x1, y1, width), c1),
{
    lemma_flat_index_in_range(x1, y1, width, height);
    lemma_flat_index_in_range(x2, y2, width, height);
    if flat_index(x1, y1, width) == flat_index(x2, y2, width) {
        lemma_flat_index_injective(x1, y1, x2, y2, width);
    }
    assert(pixels.update(flat_index(x1, y1, width), c1).update(flat_index(x2, y2, width), c2)
        =~= pixels.update(flat_index(x2, y2, width), c2).update(flat_index(x1, y1, width), c1));
}

/// A raster of `width * height` pixels, stored row-major from the top-left.
#[derive(Debug, Clone)]
pub struct PPMImage {
    pub width: usize,
    pub height: usize,
    pub pixels: Vec<PPMColor>,
}

impl PPMImage {
    /// The backing sequence holds exactly one pixel per coordinate pair.
    pub open spec fn wf(self) -> bool {
        self.pixels@.len() == self.width * self.height
    }

    /// The pixel stored for column `x` of row `y`.
    pub open spec fn spec_pixel(self, x: int, y: int) -> PPMColor {
        self.pixels@[flat_index(x, y, self.width as int)]
    }

    /// A fresh raster with every pixel black.
    pub fn new(width: usize, height: usize) -> (img: Self)
        requires
            width * height <= usize::MAX,
        ensures
            img.width == width,
            img.height == height,
            img.wf(),
            forall|i: int|
                0 <= i < img.pixels@.len() ==> img.pixels@[i] == (PPMColor {
                    r: 0u8,
                    g: 0u8,
                    b: 0u8,
                }),
    {
        let n = width * height;
        let mut pixels: Vec<PPMColor> = Vec::new();
        while pixels.len() < n
            invariant
                pixels@.len() <= n,
                forall|i: int|
                    0 <= i < pixels@.len() ==> pixels@[i] == (PPMColor {
                        r: 0u8,
                        g: 0u8,
                        b: 0u8,
                    }),
            decreases n - pixels@.len(),
        {
            pixels.push(PPMColor { r: 0, g: 0, b: 0 });
        }
        Self { width, height, pixels }
    }

    /// A raster assembled from pixels already rendered, row-major.
    pub fn new_with(width: usize, height: usize, pixels: Vec<PPMColor>) -> (img: Self)
        requires
            pixels@.len() == width * height,
        ensures
            img.width == width,
            img.height == height,
            img.pixels == pixels,
            img.wf(),
    {
        Self { width, height, pixels }
    }

    pub fn width(&self) -> (w: usize)
        ensures
            w == self.width,
    {
        self.width
    }

    pub fn height(&self) -> (h: usize)
        ensures
            h == self.height,
    {
        self.height
    }

    /// The pixel at column `x` of row `y`.
    pub fn pixel(&self, x: usize, y: usize) -> (c: PPMColor)
        requires
            self.wf(),
            x < self.width,
            y < self.height,
        ensures
            c == self.spec_pixel(x as int, y as int),
    {
        proof {
            vstd::std_specs::vec::axiom_spec_len(&self.pixels);
            lemma_flat_index_in_range(x as int, y as int, self.width as int, self.height as int);
        }
        let idx = x + y * self.width;
        self.pixels[idx]
    }

    /// Stores `c` at column `x` of row `y`; every other pixel is untouched.
    pub fn set_pixel(&mut self, x: usize, y: usize, c: PPMColor)
        requires
            old(self).wf(),
            x < old(self).width,
            y < old(self).height,
        ensures
            final(self).width == old(self).width,
            final(self).height == old(self).height,
            final(self).wf(),
            final(self).pixels@ == old(self).pixels@.update(
                flat_index(x as int, y as int, old(self).width as int),
                c,
            ),
            final(self).spec_pixel(x as int, y as int) == c,
            forall|x2: int, y2: int|
                0 <= x2 < old(self).width && 0 <= y2 < old(self).height && (x2 != x || y2 != y)
                    ==> final(self).spec_pixel(x2, y2) == old(self).spec_pixel(x2, y2),
    {
        proof {
            vstd::std_specs::vec::axiom_spec_len(&self.pixels);
            lemma_flat_index_in_range(x as int, y as int, self.width as int, self.height as int);
        }
        let idx = x + y * self.width;
        self.pixels[idx] = c;
        proof {
            let w = self.width as int;
            assert forall|x2: int, y2: int|
                0 <= x2 < self.width && 0 <= y2 < self.height && (x2 != x || y2 != y)
                    implies self.spec_pixel(x2, y2) == old(self).spec_pixel(x2, y2) by {
                lemma_flat_index_in_range(x2, y2, w, self.height as int);
                if flat_index(x2, y2, w) == flat_index(x as int, y as int, w) {
                    lemma_flat_index_injective(x2, y2, x as int, y as int, w);
                }
            }
        }
    }

    /// The full serialization of this raster: header, then one line per pixel.
    pub fn to_ppm_string(&self) -> (s: String)
        requires
            self.wf(),
        ensures
            s@ == ppm_text(*self),
    {
        let mut s = String::new();
        s.append("P3\n");
        push_dec(&mut s, self.width);
        s.append(" ");
        push_dec(&mut s, self.height);
        s.append("\n255\n");
        proof {
            assert(self.pixels@.take(0) =~= Seq::<PPMColor>::empty());
            assert(s@ =~= ppm_header(self.width as nat, self.height as nat) + ppm_body(
                self.pixels@.take(0),
            ));
        }
        let n = self.pixels.len();
        let mut i: usize = 0;
        while i < n
            invariant
                self.wf(),
                n == self.pixels@.len(),
                i <= n,
                s@ == ppm_header(self.width as nat, self.height as nat) + ppm_body(
                    self.pixels@.take(i as int),
                ),
            decreases n - i,
        {
            let c = self.pixels[i];
            push_color_line(&mut s, c);
            proof {
                lemma_ppm_body_snoc(self.pixels@, i as int);
                assert(s@ =~= ppm_header(self.width as nat, self.height as nat) + ppm_body(
                    self.pixels@.take(i as int + 1),
                ));
            }
            i = i + 1;
        }
        proof {
            assert(self.pixels@.take(n as int) =~= self.pixels@);
        }
        s
    }
}

/// Fills a fresh raster by drawing one sample per coordinate pair and placing
/// it at that pair, row by row. Whatever the sampler does internally, every
/// stored pixel is a value the sampler can return for its own coordinates:
/// the placement is what this driver guarantees.
pub fn render_raster<F: Fn(usize, usize) -> PPMColor>(
    width: usize,
    height: usize,
    sample: F,
) -> (img: PPMImage)
    requires
        width * height <= usize::MAX,
        forall|x: usize, y: usize| x < width && y < height ==> call_requires(sample, (x, y)),
    ensures
        img.width == width,
        img.height == height,
        img.wf(),
        forall|x: usize, y: usize|
            x < width && y < height ==> call_ensures(
                sample,
                (x, y),
                #[trigger] img.spec_pixel(x as int, y as int),
            ),
{
    let mut img = PPMImage::new(width, height);
    let mut y: usize = 0;
    while y < height
        invariant
            forall|xi: usize, yi: usize|
                xi < width && yi < height ==> call_requires(sample, (xi, yi)),
            y <= height,
            img.width == width,
            img.height == height,
            img.wf(),
            forall|xi: usize, yi: usize|
                xi < width && yi < y ==> call_ensures(
                    sample,
                    (xi, yi),
                    #[trigger] img.spec_pixel(xi as int, yi as int),
                ),
        decreases height - y,
    {
        let mut x: usize = 0;
        while x < width
            invariant
                forall|xi: usize, yi: usize|
                    xi < width && yi < height ==> call_requires(sample, (xi, yi)),
                x <= width,
                y < height,
                img.width == width,
                img.height == height,
                img.wf(),
                forall|xi: usize, yi: usize|
                    xi < width && yi < y ==> call_ensures(
                        sample,
                        (xi, yi),
                        #[trigger] img.spec_pixel(xi as int, yi as int),
                    ),
                forall|xi: usize|
                    xi < x ==> call_ensures(
                        sample,
                        (xi, y),
                        #[trigger] img.spec_pixel(xi as int, y as int),
                    ),
            decreases width - x,
        {
            let c = sample(x, y);
            img.set_pixel(x, y, c);
            x = x + 1;
        }
        y = y + 1;
    }
    img
}

/// Appends one serialized pixel line to `out`.
fn push_color_line(out: &mut String, c: PPMColor)
    ensures
        final(out)@ == old(out)@ + color_line(c),
{
    push_dec(out, c.r as usize);
    out.append(" ");
    push_dec(out, c.g as usize);
    out.append(" ");
    push_dec(out, c.b as usize);
    out.append("\n");
    proof {
        assert(out@ =~= old(out)@ + color_line(c));
    }
}

/// Taking one more pixel appends exactly that pixel's line to the body.
proof fn lemma_ppm_body_snoc(pixels: Seq<PPMColor>, i: int)
    requires
        0 <= i < pixels.len(),
    ensures
        ppm_body(pixels.take(i + 1)) == ppm_body(pixels.take(i)) + color_line(pixels[i]),
{
    let taken = pixels.take(i + 1);
    assert(taken.drop_last() =~= pixels.take(i));
    assert(taken.last() == pixels[i]);
}

/// One serialized pixel: the three channel values separated by single
/// spaces, ended by a newline.
pub open spec fn color_line(c: PPMColor) -> Seq<char> {
    dec_rep(c.r as nat) + " "@ + dec_rep(c.g as nat) + " "@ + dec_rep(c.b as nat) + "\n"@
}

/// The serialized pixel lines of a raster, in storage order.
pub open spec fn ppm_body(pixels: Seq<PPMColor>) -> Seq<char>
    decreases pixels.len(),
{
    if pixels.len() == 0 {
        Seq::empty()
    } else {
        ppm_body(pixels.drop_last()) + color_line(pixels.last())
    }
}

/// The serialization header: the magic `P3`, the raster's dimensions, and
/// the largest channel value.
pub open spec fn ppm_header(width: nat, height: nat) -> Seq<char> {
    "P3\n"@ + dec_rep(width) + " "@ + dec_rep(height) + "\n255\n"@
}

/// The full serialization of a raster.
pub open spec fn ppm_text(img: PPMImage) -> Seq<char> {
    ppm_header(img.width as nat, img.height as nat) + ppm_body(img.pixels@)
}

/// How many lines a text holds: its count of newline characters.
pub open spec fn line_count(s: Seq<char>) -> nat
    decreases s.len(),
{
    if s.len() == 0 {
        0
    } else {
        line_count(s.drop_last()) + (if s.last() == '\n' {
            1nat
        } else {
            0nat
        })
    }
}

proof fn lemma_line_count_add(a: Seq<char>, b: Seq<char>)
    ensures
        line_count(a + b) == line_count(a) + line_count(b),
    decreases b.len(),
{
    if b.len() == 0 {
        assert(a + b =~= a);
    } else {
        assert((a + b).drop_last() =~= a + b.drop_last());
        assert((a + b).last() == b.last());
        lemma_line_count_add(a, b.drop_last());
    }
}

proof fn lemma_dec_rep_no_newline(n: nat)
    ensures
        line_count(dec_rep(n)) == 0,
    decreases n,
{
    reveal_with_fuel(line_count, 2);
    if n < 10 {
        let s = dec_rep(n);
        assert(s.drop_last() =~= Seq::<char>::empty());
        assert(s.last() == crate::digits::dec_digit(n));
    } else {
        lemma_dec_rep_no_newline(n / 10);
        let s = dec_rep(n);
        assert(s.drop_last() =~= dec_rep(n / 10));
        assert(s.last() == crate::digits::dec_digit(n % 10));
    }
}

proof fn lemma_color_line_one_line(c: PPMColor)
    ensures
        line_count(color_line(c)) == 1,
{
    reveal_strlit(" ");
    reveal_strlit("\n");
    reveal_with_fuel(line_count, 3);
    lemma_dec_rep_no_newline(c.r as nat);
    lemma_dec_rep_no_newline(c.g as nat);
    lemma_dec_rep_no_newline(c.b as nat);
    let sp = " "@;
    let nl = "\n"@;
    assert(sp.drop_last() =~= Seq::<char>::empty());
    assert(line_count(sp) == 0);
    assert(nl.drop_last() =~= Seq::<char>::empty());
    assert(line_count(nl) == 1);
    lemma_line_count_add(dec_rep(c.r as nat), sp);
    lemma_line_count_add(dec_rep(c.r as nat) + sp, dec_rep(c.g as nat));
    lemma_line_count_add(dec_rep(c.r as nat) + sp + dec_rep(c.g as nat), sp);
    lemma_line_count_add(dec_rep(c.r as nat) + sp + dec_rep(c.g as nat) + sp, dec_rep(c.b as nat));
    lemma_line_count_add(
        dec_rep(c.r as nat) + sp + dec_rep(c.g as nat) + sp + dec_rep(c.b as nat),
        nl,
    );
}

proof fn lemma_ppm_header_line_count(width: nat, height: nat)
    ensures
        line_count(ppm_header(width, height)) == 3,
{
    reveal_strlit("P3\n");
    reveal_strlit(" ");
    reveal_strlit("\n255\n");
    reveal_with_fuel(line_count, 7);
    lemma_dec_rep_no_newline(width);
    lemma_dec_rep_no_newline(height);
    let magic = "P3\n"@;
    let sp = " "@;
    let tail = "\n255\n"@;
    assert(magic.drop_last().drop_last().drop_last() =~= Seq::<char>::empty());
    assert(line_count(magic) == 1);
    assert(sp.drop_last() =~= Seq::<char>::empty());
    assert(line_count(sp) == 0);
    assert(tail.drop_last().drop_last().drop_last().drop_last().drop_last()
        =~= Seq::<char>::empty());
    assert(line_count(tail) == 2);
    lemma_line_count_add(magic, dec_rep(width));
    lemma_line_count_add(magic + dec_rep(width), sp);
    lemma_line_count_add(magic + dec_rep(width) + sp, dec_rep(height));
    lemma_line_count_add(magic + dec_rep(width) + sp + dec_rep(height), tail);
}

proof fn lemma_ppm_body_line_count(pixels: Seq<PPMColor>)
    ensures
        line_count(ppm_body(pixels)) == pixels.len(),
    decreases pixels.len(),
{
    if pixels.len() != 0 {
        lemma_ppm_body_line_count(pixels.drop_last());
        lemma_line_count_add(ppm_body(pixels.drop_last()), color_line(pixels.last()));
        lemma_color_line_one_line(pixels.last());
    }
}

/// Each pixel of a well-formed raster serializes to exactly one line: the
/// serialization holds the three header lines and then one line per pixel,
/// `width * height` of them in all.
pub proof fn lemma_ppm_text_line_count(img: PPMImage)
    requires
        img.wf(),
    ensures
        line_count(ppm_text(img)) == 3 + img.width * img.height,
{
    lemma_line_count_add(
        ppm_header(img.width as nat, img.height as nat),
        ppm_body(img.pixels@),
    );
    lemma_ppm_header_line_count(img.width as nat, img.height as nat);
    lemma_ppm_body_line_count(img.pixels@);
}

} // verus!
