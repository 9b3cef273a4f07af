//! The layered image decoder: a digit stream split into fixed-size layers,
//! stacked so the first non-transparent pixel of each cell wins.

use vstd::prelude::*;

verus! {

use vstd::arithmetic::div_mod::lemma_fundamental_div_mod;

/// The mathematical content of an image: its geometry and the raw digits.
pub ghost struct ImageV {
    pub height: nat,
    pub width: nat,
    pub layers: nat,
    pub data: Seq<u8>,
}

/// Where pixel `(x, y)` of layer `n` lives in the flat digit list.
pub open spec fn cell_index(img: ImageV, x: int, y: int, n: int) -> int {
    n * (img.height * img.width) + x * img.width + y
}

/// The pixel that shows through at `(x, y)` after stacking the first `upto`
/// layers: the first value other than 2 (transparent), else 2.
pub open spec fn resolved_upto(img: ImageV, x: int, y: int, upto: int) -> u8
    decreases upto,
{
    if upto <= 0 {
        2
    } else {
        let prev = resolved_upto(img, x, y, upto - 1);
        if prev != 2 {
            prev
        } else {
            img.data[cell_index(img, x, y, upto - 1)]
        }
    }
}

/// How many cells of `s` hold the digit `d`.
pub open spec fn count_in(s: Seq<u8>, d: u8) -> int
    decreases s.len(),
{
    if s.len() == 0 {
        0
    } else {
        count_in(s.drop_last(), d) + if s.last() == d {
            1int
        } else {
            0int
        }
    }
}

/// Cells of a grid row-major layout collide only when both coordinates do.
proof fn lemma_grid_injective(w: int, x1: int, y1: int, x2: int, y2: int)
    requires
        0 <= y1 < w,
        0 <= y2 < w,
        0 <= x1,
        0 <= x2,
        x1 * w + y1 == x2 * w + y2,
    ensures
        x1 == x2 && y1 == y2,
{
    assert(x1 == x2 && y1 == y2) by (nonlinear_arith)
        requires
            0 <= y1 < w,
            0 <= y2 < w,
            0 <= x1,
            0 <= x2,
            x1 * w + y1 == x2 * w + y2,
    ;
}

/// A layered image over a flat list of digits.
#[derive(Debug)]
pub struct Image {
    height: usize,
    width: usize,
    layers: usize,
    data: Vec<u8>,
}

impl View for Image {
    type V = ImageV;

    closed spec fn view(&self) -> ImageV {
        ImageV {
            height: self.height as nat,
            width: self.width as nat,
            layers: self.layers as nat,
            data: self.data@,
        }
    }
}

impl Image {
    /// The geometry is consistent: one layer is at least one cell, fits the
    /// address space, and the layer count is what the data affords.
    #[verifier::type_invariant]
    closed spec fn wf(self) -> bool {
        &&& self.height * self.width >= 1
        &&& self.height * self.width <= usize::MAX
        &&& self.layers == (self.data@.len() as int) / ((self.height as int) * (self.width as int))
    }

    /// An image over the digits, with as many full layers as the data holds.
    pub fn new(height: usize, width: usize, data: Vec<u8>) -> (r: Image)
        requires
            height * width >= 1,
            height * width <= usize::MAX,
        ensures
            r@ == (ImageV {
                height: height as nat,
                width: width as nat,
                layers: ((data@.len() as int) / ((height as int) * (width as int))) as nat,
                data: data@,
            }),
    {
        let hw = height * width;
        let layers = data.len() / hw;
        Image { height, width, layers, data }
    }

    /// The digit at `(x, y)` of layer `n`.
    pub fn get(&self, x: usize, y: usize, n: usize) -> (r: u8)
        requires
            0 <= cell_index(self@, x as int, y as int, n as int) < self@.data.len(),
        ensures
            r == self@.data[cell_index(self@, x as int, y as int, n as int)],
    {
        proof {
            use_type_invariant(&*self);
            assert((self.width as int) * (self.height as int) == (self.height as int) * (
            self.width as int)) by (nonlinear_arith);
            assert(0 <= (n as int) * ((self.height as int) * (self.width as int)))
                by (nonlinear_arith)
                requires
                    0 <= n as int,
                    0 <= (self.height as int) * (self.width as int),
            ;
            assert(0 <= (x as int) * (self.width as int)) by (nonlinear_arith)
                requires
                    0 <= x as int,
                    0 <= self.width as int,
            ;
        }
        let total = self.data.len();
        proof {
            assert(cell_index(self@, x as int, y as int, n as int) < total);
        }
        let imsize = self.width * self.height;
        let idx = n * imsize + x * self.width + y;
        self.data[idx]
    }

    /// Overwrite the digit at `(x, y)` of layer `n`.
    pub fn set(&mut self, x: usize, y: usize, n: usize, value: u8)
        requires
            0 <= cell_index(old(self)@, x as int, y as int, n as int) < old(self)@.data.len(),
        ensures
            final(self)@ == (ImageV {
                data: old(self)@.data.update(
                    cell_index(old(self)@, x as int, y as int, n as int),
                    value,
                ),
                ..old(self)@
            }),
    {
        proof {
            use_type_invariant(&*self);
            assert((self.width as int) * (self.height as int) == (self.height as int) * (
            self.width as int)) by (nonlinear_arith);
            assert(0 <= (n as int) * ((self.height as int) * (self.width as int)))
                by (nonlinear_arith)
                requires
                    0 <= n as int,
                    0 <= (self.height as int) * (self.width as int),
            ;
            assert(0 <= (x as int) * (self.width as int)) by (nonlinear_arith)
                requires
                    0 <= x as int,
                    0 <= self.width as int,
            ;
        }
        let total = self.data.len();
        proof {
            assert(cell_index(old(self)@, x as int, y as int, n as int) < total);
        }
        let imsize = self.width * self.height;
        let idx = n * imsize + x * self.width + y;
        self.data[idx] = value;
    }

    /// A copy of layer `n` on its own.
    pub fn layer(&self, n: usize) -> (r: Layer)
        requires
            n < self@.layers,
        ensures
            r@ == (LayerV {
                number: n as nat,
                height: self@.height,
                width: self@.width,
                data: self@.data.subrange(
                    n * (self@.height * self@.width),
                    (n + 1) * (self@.height * self@.width),
                ),
            }),
    {
        proof {
            use_type_invariant(&*self);
            lemma_fundamental_div_mod(
                self.data@.len() as int,
                (self.height as int) * (self.width as int),
            );
            assert((n + 1) * ((self.height as int) * (self.width as int)) <= (self.layers as int) * (
            (self.height as int) * (self.width as int))) by (nonlinear_arith)
                requires
                    n < self.layers,
                    (self.height as int) * (self.width as int) >= 1,
            ;
            assert((self.layers as int) * ((self.height as int) * (self.width as int))
                <= self.data@.len()) by (nonlinear_arith)
                requires
                    self.layers == (self.data@.len() as int) / ((self.height as int) * (self.width as int)),
                    (self.height as int) * (self.width as int) >= 1,
                    self.data@.len() == ((self.height as int) * (self.width as int)) * ((
                    self.data@.len() as int) / ((self.height as int) * (self.width as int))) + (
                    self.data@.len() as int) % ((self.height as int) * (self.width as int)),
                    (self.data@.len() as int) % ((self.height as int) * (self.width as int)) >= 0,
            ;
        }
        let total = self.data.len();
        let hw = self.height * self.width;
        proof {
            assert((n + 1) * ((self.height as int) * (self.width as int)) <= self.data@.len());
            assert((hw as int) * (n as int) == (n as int) * ((self.height as int) * (
            self.width as int)) && (hw as int) * (n as int) + (hw as int) == (n + 1) * ((
            self.height as int) * (self.width as int)) && 0 <= (hw as int) * (n as int))
                by (nonlinear_arith)
                requires
                    hw == (self.height as int) * (self.width as int),
                    0 <= hw,
                    0 <= n as int,
            ;
        }
        let from = hw * n;
        let to = from + hw;
        proof {
            assert(Seq::<u8>::empty() =~= self.data@.subrange(from as int, from as int));
        }
        let mut v: Vec<u8> = Vec::new();
        let mut i: usize = from;
        while i < to
            invariant
                from <= i <= to,
                to <= self.data@.len(),
                v@ == self.data@.subrange(from as int, i as int),
            decreases to - i,
        {
            v.push(self.data[i]);
            proof {
                assert(v@ =~= self.data@.subrange(from as int, i + 1));
            }
            i = i + 1;
        }
        let r = Layer { number: n, height: self.height, width: self.width, data: v };
        proof {
            assert(r@.data =~= self@.data.subrange(
                n * (self@.height * self@.width),
                (n + 1) * (self@.height * self@.width),
            ));
        }
        r
    }

    /// Copies of all the image's layers, front to back.
    pub fn layers(&self) -> (r: Vec<Layer>)
        ensures
            r@.len() == self@.layers,
            forall|i: int|
                0 <= i < self@.layers ==> (#[trigger] r@[i])@ == (LayerV {
                    number: i as nat,
                    height: self@.height,
                    width: self@.width,
                    data: self@.data.subrange(
                        i * (self@.height * self@.width),
                        (i + 1) * (self@.height * self@.width),
                    ),
                }),
    {
        let mut v: Vec<Layer> = Vec::new();
        let mut i: usize = 0;
        while i < self.layers
            invariant
                i <= self@.layers,
                v@.len() == i,
                forall|j: int|
                    0 <= j < i ==> (#[trigger] v@[j])@ == (LayerV {
                        number: j as nat,
                        height: self@.height,
                        width: self@.width,
                        data: self@.data.subrange(
                            j * (self@.height * self@.width),
                            (j + 1) * (self@.height * self@.width),
                        ),
                    }),
            decreases self@.layers - i,
        {
            let l = self.layer(i);
            v.push(l);
            i = i + 1;
        }
        v
    }

    /// Stack all layers into a single one: per cell, the first digit other
    /// than 2 shows through.
    pub fn flatten(&self) -> (r: Image)
        ensures
            r@.height == self@.height,
            r@.width == self@.width,
            r@.layers == 1,
            r@.data.len() == self@.height * self@.width,
            forall|x: int, y: int|
                0 <= x < self@.height && 0 <= y < self@.width ==> r@.data[x * self@.width + y]
                    == resolved_upto(self@, x, y, self@.layers as int),
    {
        proof {
            use_type_invariant(&*self);
            lemma_fundamental_div_mod(
                self.data@.len() as int,
                (self.height as int) * (self.width as int),
            );
            assert((self.layers as int) * ((self.height as int) * (self.width as int))
                <= self.data@.len()) by (nonlinear_arith)
                requires
                    self.layers == (self.data@.len() as int) / ((self.height as int) * (self.width as int)),
                    (self.height as int) * (self.width as int) >= 1,
                    self.data@.len() == ((self.height as int) * (self.width as int)) * ((
                    self.data@.len() as int) / ((self.height as int) * (self.width as int))) + (
                    self.data@.len() as int) % ((self.height as int) * (self.width as int)),
                    (self.data@.len() as int) % ((self.height as int) * (self.width as int)) >= 0,
            ;
        }
        let h = self.height;
        let w = self.width;
        let hw = h * w;
        let mut out: Vec<u8> = vec![2u8; hw];
        proof {
            assert forall|x: int, y: int| 0 <= x < h && 0 <= y < w implies #[trigger] out@[x * (
            w as int) + y] == resolved_upto(self@, x, y, 0) by {
                assert(0 <= x * (w as int) + y < (h as int) * (w as int)) by (nonlinear_arith)
                    requires
                        0 <= x < h,
                        0 <= y < w,
                ;
            }
        }
        let mut l: usize = 0;
        while l < self.layers
            invariant
                l <= self@.layers,
                out@.len() == hw,
                hw == (self@.height * self@.width),
                h == self@.height,
                w == self@.width,
                (self@.layers * hw) <= self@.data.len(),
                forall|x: int, y: int|
                    0 <= x < h && 0 <= y < w ==> #[trigger] out@[x * (w as int) + y]
                        == resolved_upto(self@, x, y, l as int),
            decreases self@.layers - l,
        {
            let mut x: usize = 0;
            while x < h
                invariant
                    x <= h,
                    l < self@.layers,
                    out@.len() == hw,
                    hw == (self@.height * self@.width),
                    h == self@.height,
                    w == self@.width,
                    (self@.layers * hw) <= self@.data.len(),
                    forall|xi: int, y: int|
                        0 <= xi < x && 0 <= y < w ==> #[trigger] out@[xi * (w as int) + y]
                            == resolved_upto(self@, xi, y, l + 1),
                    forall|xi: int, y: int|
                        x <= xi < h && 0 <= y < w ==> #[trigger] out@[xi * (w as int) + y]
                            == resolved_upto(self@, xi, y, l as int),
                decreases h - x,
            {
                let mut y: usize = 0;
                while y < w
                    invariant
                        y <= w,
                        x < h,
                        l < self@.layers,
                        out@.len() == hw,
                        hw == (self@.height * self@.width),
                        h == self@.height,
                        w == self@.width,
                        (self@.layers * hw) <= self@.data.len(),
                        forall|xi: int, yi: int|
                            0 <= xi < x && 0 <= yi < w ==> #[trigger] out@[xi * (w as int) + yi]
                                == resolved_upto(self@, xi, yi, l + 1),
                        forall|yi: int|
                            0 <= yi < y ==> #[trigger] out@[(x as int) * (w as int) + yi]
                                == resolved_upto(self@, x as int, yi, l + 1),
                        forall|yi: int|
                            y <= yi < w ==> #[trigger] out@[(x as int) * (w as int) + yi]
                                == resolved_upto(self@, x as int, yi, l as int),
                        forall|xi: int, yi: int|
                            x < xi < h && 0 <= yi < w ==> #[trigger] out@[xi * (w as int) + yi]
                                == resolved_upto(self@, xi, yi, l as int),
                    decreases w - y,
                {
                    proof {
                        assert(0 <= (x as int) * (w as int) + y < (h as int) * (w as int))
                            by (nonlinear_arith)
                            requires
                                0 <= (x as int) < h,
                                0 <= (y as int) < w,
                        ;
                        assert((l as int) * ((h as int) * (w as int)) + (x as int) * (w as int) + (
                        y as int) < ((l + 1) as int) * ((h as int) * (w as int)))
                            by (nonlinear_arith)
                            requires
                                0 <= (x as int) < h,
                                0 <= (y as int) < w,
                        ;
                        assert(((l + 1) as int) * ((h as int) * (w as int)) <= (self@.layers as int)
                            * ((h as int) * (w as int))) by (nonlinear_arith)
                            requires
                                (l as int) < self@.layers,
                                (h as int) * (w as int) >= 0,
                        ;
                        assert(0 <= (l as int) * ((h as int) * (w as int))) by (nonlinear_arith)
                            requires
                                0 <= (l as int),
                                0 <= (h as int) * (w as int),
                        ;
                    }
                    let idx = x * w + y;
                    let curr = out[idx];
                    let new = self.get(x, y, l);
                    let ghost out_b = out@;
                    out[idx] = combine(curr, new);
                    proof {
                        assert forall|xi: int, yi: int|
                            0 <= xi < h && 0 <= yi < w && !(xi == x && yi == y) implies #[trigger] out@[xi
                            * (w as int) + yi] == out_b[xi * (w as int) + yi] by {
                            if xi * (w as int) + yi == (x as int) * (w as int) + (y as int) {
                                lemma_grid_injective(
                                    w as int,
                                    xi,
                                    yi,
                                    x as int,
                                    y as int,
                                );
                            }
                            assert(0 <= xi * (w as int) + yi < (h as int) * (w as int))
                                by (nonlinear_arith)
                                requires
                                    0 <= xi < h,
                                    0 <= yi < w,
                            ;
                        }
                        assert(out@[(x as int) * (w as int) + (y as int)] == resolved_upto(
                            self@,
                            x as int,
                            y as int,
                            l + 1,
                        ));
                    }
                    y = y + 1;
                }
                x = x + 1;
            }
            l = l + 1;
        }
        let r = Image { height: h, width: w, layers: 1, data: out };
        proof {
            assert((h as int) * (w as int) / ((h as int) * (w as int)) == 1) by (nonlinear_arith)
                requires
                    (h as int) * (w as int) >= 1,
            ;
        }
        r
    }
}

/// One layer of an image, with its own copy of the digits.
#[derive(Debug)]
pub struct Layer {
    number: usize,
    height: usize,
    width: usize,
    data: Vec<u8>,
}

/// The mathematical content of one layer.
pub ghost struct LayerV {
    pub number: nat,
    pub height: nat,
    pub width: nat,
    pub data: Seq<u8>,
}

impl View for Layer {
    type V = LayerV;

    closed spec fn view(&self) -> LayerV {
        LayerV {
            number: self.number as nat,
            height: self.height as nat,
            width: self.width as nat,
            data: self.data@,
        }
    }
}

impl Layer {
    /// The digit at `(x, y)` of this layer.
    pub fn get(&self, x: usize, y: usize) -> (r: u8)
        requires
            0 <= (y as int) + (x as int) * self@.width < self@.data.len(),
        ensures
            r == self@.data[(y as int) + (x as int) * self@.width],
    {
        let total = self.data.len();
        proof {
            assert(0 <= (x as int) * (self.width as int)) by (nonlinear_arith)
                requires
                    0 <= x as int,
                    0 <= self.width as int,
            ;
        }
        let idx = y + x * self.width;
        self.data[idx]
    }

    /// The `n`-th digit of this layer in row-major order.
    pub fn getn(&self, n: usize) -> (r: u8)
        requires
            n < self@.data.len(),
        ensures
            r == self@.data[n as int],
    {
        self.data[n]
    }

    /// All the layer's digits, in row-major order.
    pub fn pixels(&self) -> (r: Vec<u8>)
        ensures
            r@ == self@.data,
    {
        let mut v: Vec<u8> = Vec::new();
        let mut i: usize = 0;
        while i < self.data.len()
            invariant
                i <= self@.data.len(),
                v@ == self@.data.subrange(0, i as int),
            decreases self@.data.len() - i,
        {
            v.push(self.data[i]);
            proof {
                assert(v@ =~= self@.data.subrange(0, i + 1));
            }
            i = i + 1;
        }
        proof {
            assert(v@ =~= self@.data);
        }
        v
    }
}

/// Keep the upper pixel unless it is transparent (2).
fn combine(pixel1: u8, pixel2: u8) -> (r: u8)
    ensures
        r == (if pixel1 == 2 {
            pixel2
        } else {
            pixel1
        }),
{
    if pixel1 == 2 {
        pixel2
    } else {
        pixel1
    }
}

/// How many cells of a digit list hold the digit `d`.
fn count_pix(v: &Vec<u8>, d: u8) -> (c: usize)
    ensures
        c == count_in(v@, d),
        c <= v@.len(),
{
    let mut c: usize = 0;
    let mut i: usize = 0;
    while i < v.len()
        invariant
            i <= v@.len(),
            c <= i,
            c == count_in(v@.subrange(0, i as int), d),
        decreases v@.len() - i,
    {
        proof {
            assert(v@.subrange(0, i + 1).drop_last() =~= v@.subrange(0, i as int));
            assert(v@.subrange(0, i + 1).last() == v@[i as int]);
        }
        if v[i] == d {
            c = c + 1;
        }
        i = i + 1;
    }
    proof {
        assert(v@.subrange(0, v@.len() as int) =~= v@);
    }
    c
}

/// The digit values of an all-digit string.
fn digits_of(input: &String) -> (r: Vec<u8>)
    requires
        forall|i: int| 0 <= i < input@.len() ==> '0' <= #[trigger] input@[i] <= '9',
    ensures
        r@ == img_digits(input@),
{
    let bytes = input.as_str().as_bytes_vec();
    proof {
        assert(vstd::utf8::is_ascii_chars(input@));
        vstd::utf8::is_ascii_chars_encode_utf8(input@);
    }
    let mut digits: Vec<u8> = Vec::new();
    let mut i: usize = 0;
    while i < bytes.len()
        invariant
            i <= bytes@.len(),
            bytes@ == vstd::utf8::encode_utf8(input@),
            bytes@.len() == input@.len(),
            forall|k: int| 0 <= k < input@.len() ==> bytes@[k] == (#[trigger] input@[k]) as u8,
            forall|k: int| 0 <= k < input@.len() ==> '0' <= #[trigger] input@[k] <= '9',
            digits@.len() == i,
            forall|k: int| 0 <= k < i ==> #[trigger] digits@[k] == img_digits(input@)[k],
        decreases bytes@.len() - i,
    {
        let b = bytes[i];
        proof {
            assert('0' <= input@[i as int] <= '9');
            assert(input@[i as int] as u8 >= 48 && input@[i as int] as u8 <= 57);
        }
        digits.push(b - 48);
        i = i + 1;
    }
    proof {
        assert(digits@ =~= img_digits(input@));
    }
    digits
}

/// The digits of an all-digit character string.
pub open spec fn img_digits(s: Seq<char>) -> Seq<u8> {
    Seq::new(s.len(), |i: int| ((s[i] as u8) - 48) as u8)
}

/// Count of digit `v` in layer `j` of a six-row, 25-column digit stream.
pub open spec fn layer_count(d: Seq<u8>, j: int, v: u8) -> int {
    count_in(d.subrange(150 * j, 150 * j + 150), v)
}

/// Over the 6-by-25 layers of the digit stream, find the layer with the
/// fewest zeros (the first such layer when tied) and multiply its counts of
/// ones and twos.
pub fn part1(input: &String) -> (r: i32)
    requires
        forall|i: int| 0 <= i < input@.len() ==> '0' <= #[trigger] input@[i] <= '9',
        input@.len() >= 150,
    ensures
        exists|j: int|
            {
                &&& 0 <= j < (input@.len() as int) / 150
                &&& forall|k: int|
                    0 <= k < (input@.len() as int) / 150 ==> #[trigger] layer_count(
                        img_digits(input@),
                        k,
                        0,
                    ) >= layer_count(img_digits(input@), j, 0)
                &&& forall|k: int|
                    0 <= k < j ==> #[trigger] layer_count(img_digits(input@), k, 0) > layer_count(
                        img_digits(input@),
                        j,
                        0,
                    )
                &&& r == #[trigger] layer_count(img_digits(input@), j, 1) * layer_count(
                    img_digits(input@),
                    j,
                    2,
                )
            },
{
    let digits = digits_of(input);
    let ghost d = img_digits(input@);
    let ghost layers_g = (input@.len() as int) / 150;
    let img = Image::new(6, 25, digits);
    let ls = img.layers();
    proof {
        assert(ls@.len() == layers_g);
        assert(layers_g >= 1);
    }
    proof {
        assert forall|k: int| 0 <= k < ls@.len() implies (#[trigger] ls@[k])@.data =~= d.subrange(
            150 * k,
            150 * k + 150,
        ) by {
            assert(ls@[k]@.data == img@.data.subrange(
                k * ((6 as nat) * (25 as nat)),
                (k + 1) * ((6 as nat) * (25 as nat)),
            ));
            assert((6 as nat) * (25 as nat) == 150) by (nonlinear_arith);
            assert(img@.data == d);
            assert(k * 150 == 150 * k) by (nonlinear_arith);
            assert((k + 1) * 150 == 150 * k + 150) by (nonlinear_arith);
        }
    }
    let mut best_j: usize = 0;
    let mut best_zeros: usize = 0;
    let mut best_product: usize = 0;
    let mut j: usize = 0;
    while j < ls.len()
        invariant
            j <= ls@.len(),
            ls@.len() == layers_g,
            layers_g == (input@.len() as int) / 150,
            d == img_digits(input@),
            forall|k: int|
                0 <= k < ls@.len() ==> (#[trigger] ls@[k])@.data =~= d.subrange(
                    150 * k,
                    150 * k + 150,
                ),
            j > 0 ==> {
                &&& best_j < j
                &&& best_zeros == layer_count(d, best_j as int, 0)
                &&& best_product == layer_count(d, best_j as int, 1) * layer_count(
                    d,
                    best_j as int,
                    2,
                )
                &&& forall|k: int|
                    0 <= k < j ==> #[trigger] layer_count(d, k, 0) >= layer_count(
                        d,
                        best_j as int,
                        0,
                    )
                &&& forall|k: int|
                    0 <= k < best_j ==> #[trigger] layer_count(d, k, 0) > layer_count(
                        d,
                        best_j as int,
                        0,
                    )
            },
        decreases ls@.len() - j,
    {
        proof {
            vstd::arithmetic::div_mod::lemma_fundamental_div_mod(d.len() as int, 150);
            assert(150 * (j as int) + 150 <= d.len());
            assert(ls@[j as int]@.data.len() == 150);
        }
        let pix = ls[j].pixels();
        let zeros = count_pix(&pix, 0);
        if j == 0 || zeros < best_zeros {
            let ones = count_pix(&pix, 1);
            let twos = count_pix(&pix, 2);
            proof {
                assert((ones as int) * (twos as int) <= 22500) by (nonlinear_arith)
                    requires
                        0 <= ones as int <= 150,
                        0 <= twos as int <= 150,
                ;
            }
            best_j = j;
            best_zeros = zeros;
            best_product = ones * twos;
        }
        j = j + 1;
    }
    proof {
        assert(best_product == layer_count(d, best_j as int, 1) * layer_count(d, best_j as int, 2));
        assert(best_product <= 150 * 150) by {
            assert(layer_count(d, best_j as int, 1) <= 150 && layer_count(d, best_j as int, 2)
                <= 150 && layer_count(d, best_j as int, 1) >= 0 && layer_count(d, best_j as int, 2)
                >= 0) by {
                lemma_count_in_bounds(d.subrange(150 * (best_j as int), 150 * (best_j as int) + 150), 1);
                lemma_count_in_bounds(d.subrange(150 * (best_j as int), 150 * (best_j as int) + 150), 2);
            }
            assert(layer_count(d, best_j as int, 1) * layer_count(d, best_j as int, 2) <= 150
                * 150) by (nonlinear_arith)
                requires
                    0 <= layer_count(d, best_j as int, 1) <= 150,
                    0 <= layer_count(d, best_j as int, 2) <= 150,
            ;
        }
    }
    best_product as i32
}

/// A digit count is at least zero and at most the list's length.
proof fn lemma_count_in_bounds(s: Seq<u8>, d: u8)
    ensures
        0 <= count_in(s, d) <= s.len(),
    decreases s.len(),
{
    if s.len() > 0 {
        lemma_count_in_bounds(s.drop_last(), d);
    }
}

/// The numeric value of a decimal digit character, if it is one.
pub fn digit_to_u8(digit: char) -> (r: Option<u8>)
    ensures
        r == (if '0' <= digit && digit <= '9' {
            Some(((digit as u8) - 48) as u8)
        } else {
            None::<u8>
        }),
{
    let v = digit as u32;
    if 48 <= v && v <= 57 {
        Some((v - 48) as u8)
    } else {
        None
    }
}


/// Relies on `String::push` appending exactly one character.
pub assume_specification[ String::push ](s: &mut String, ch: char)
    ensures
        final(s)@ == old(s)@.push(ch),
;

/// How a digit shows on screen: black, white, transparent, or the raw value
/// as a character code.
pub open spec fn translate(p: u8) -> char {
    if p == 0 {
        '\u{2588}'
    } else if p == 1 {
        '\u{2591}'
    } else if p == 2 {
        ' '
    } else {
        p as char
    }
}

/// The characters of row `x` of the stacked 6-by-25 image.
pub open spec fn row_chars(img: ImageV, x: int) -> Seq<char> {
    Seq::new(25, |j: int| translate(resolved_upto(img, x, j, img.layers as int)))
}

/// The rendering of the stacked image, up to (not including) row `x`: the
/// layer header, then each row's pixels on a line of their own.
pub open spec fn render_upto(img: ImageV, x: int) -> Seq<char>
    decreases x,
{
    if x <= 0 {
        "Layer 0:\n"@
    } else {
        render_upto(img, x - 1) + row_chars(img, x - 1) + "\n"@
    }
}

/// The on-screen character for one digit.
fn translate_pixel(p: u8) -> (c: char)
    ensures
        c == translate(p),
{
    if p == 0 {
        '\u{2588}'
    } else if p == 1 {
        '\u{2591}'
    } else if p == 2 {
        ' '
    } else {
        p as char
    }
}

/// Stack the 6-by-25 layers of the digit stream and render the resulting
/// single layer, row by row, under its layer header.
#[verifier::rlimit(100)]
pub fn part2(input: &String) -> (r: String)
    requires
        forall|i: int| 0 <= i < input@.len() ==> '0' <= #[trigger] input@[i] <= '9',
    ensures
        r@ == render_upto(
            ImageV {
                height: 6,
                width: 25,
                layers: ((input@.len() as int) / 150) as nat,
                data: img_digits(input@),
            },
            6,
        ),
{
    let digits = digits_of(input);
    let img = Image::new(6, 25, digits);
    let ghost iv = img@;
    let flat = img.flatten();
    proof {
        assert((6 as nat) * (25 as nat) == 150) by (nonlinear_arith);
        assert(flat@.data.len() == 150);
    }
    let mut out = <String as vstd::string::StringExecFns>::from_str("Layer 0:\n");
    let mut x: usize = 0;
    while x < 6
        invariant
            x <= 6,
            iv == img@,
            iv.height == 6,
            iv.width == 25,
            flat@.height == 6,
            flat@.width == 25,
            flat@.data.len() == 150,
            forall|xi: int, yi: int|
                0 <= xi < 6 && 0 <= yi < 25 ==> #[trigger] flat@.data[xi * 25 + yi]
                    == resolved_upto(iv, xi, yi, iv.layers as int),
            out@ == render_upto(iv, x as int),
        decreases 6 - x,
    {
        let mut j: usize = 0;
        while j < 25
            invariant
                x < 6,
                j <= 25,
                iv.height == 6,
                iv.width == 25,
                flat@.height == 6,
                flat@.width == 25,
                flat@.data.len() == 150,
                forall|xi: int, yi: int|
                    0 <= xi < 6 && 0 <= yi < 25 ==> #[trigger] flat@.data[xi * 25 + yi]
                        == resolved_upto(iv, xi, yi, iv.layers as int),
                out@ == render_upto(iv, x as int) + row_chars(iv, x as int).subrange(0, j as int),
            decreases 25 - j,
        {
            proof {
                assert((0int) * ((flat@.height as int) * (flat@.width as int)) == 0)
                    by (nonlinear_arith);
                assert((x as int) * (flat@.width as int) == (x as int) * 25);
                assert(cell_index(flat@, x as int, j as int, 0) == (x as int) * 25 + (j as int));
                assert(0 <= (x as int) * 25 + (j as int) < 150) by (nonlinear_arith)
                    requires
                        0 <= (x as int) < 6,
                        0 <= (j as int) < 25,
                ;
            }
            let pix = flat.get(x, j, 0);
            let c = translate_pixel(pix);
            out.push(c);
            proof {
                assert(row_chars(iv, x as int).subrange(0, j + 1) =~= row_chars(
                    iv,
                    x as int,
                ).subrange(0, j as int).push(row_chars(iv, x as int)[j as int]));
                assert(out@ =~= render_upto(iv, x as int) + row_chars(iv, x as int).subrange(
                    0,
                    j + 1,
                ));
            }
            j = j + 1;
        }
        out.push('\n');
        proof {
            assert(row_chars(iv, x as int).subrange(0, 25) =~= row_chars(iv, x as int));
            reveal_strlit("\n");
            assert(out@ =~= render_upto(iv, x as int) + row_chars(iv, x as int) + "\n"@);
            assert(out@ == render_upto(iv, x + 1));
        }
        x = x + 1;
    }
    out
}

} // verus!
