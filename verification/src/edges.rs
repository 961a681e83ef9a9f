use vstd::prelude::*;

verus! {

/// Largest `r` with `r * r <= n`.
pub open spec fn isqrt(n: nat) -> nat
    decreases n,
{
    if n == 0 {
        0
    } else {
        let r = isqrt((n - 1) as nat);
        if (r + 1) * (r + 1) <= n {
            r + 1
        } else {
            r
        }
    }
}

/// `isqrt(n)` is the integer square root: its square is at most `n` and the
/// square of its successor exceeds `n`.
pub proof fn lemma_isqrt_bounds(n: nat)
    ensures
        isqrt(n) * isqrt(n) <= n < (isqrt(n) + 1) * (isqrt(n) + 1),
    decreases n,
{
    if n > 0 {
        lemma_isqrt_bounds((n - 1) as nat);
        let r = isqrt((n - 1) as nat);
        let q = isqrt(n);
        if (r + 1) * (r + 1) <= n {
            assert(q == r + 1);
            assert(q * q == n);
            assert(n < (q + 1) * (q + 1)) by (nonlinear_arith)
                requires
                    q * q == n,
                    q >= 1,
            ;
            assert(q * q <= n < (q + 1) * (q + 1));
        } else {
            assert(q == r);
            assert(r * r <= n);
            assert(n < (r + 1) * (r + 1));
            assert(q * q <= n < (q + 1) * (q + 1));
        }
    } else {
        assert(isqrt(n) == 0);
        assert(0 * 0 <= n < (0 + 1) * (0 + 1)) by (nonlinear_arith)
            requires
                n == 0,
        ;
    }
}

/// The bounds of `lemma_isqrt_bounds` determine the root: any `r` with
/// `r * r <= n < (r + 1) * (r + 1)` is `isqrt(n)`.
pub proof fn lemma_isqrt_unique(n: nat, r: nat)
    requires
        r * r <= n < (r + 1) * (r + 1),
    ensures
        r == isqrt(n),
{
    lemma_isqrt_bounds(n);
    let q = isqrt(n);
    if r < q {
        assert((r + 1) * (r + 1) <= q * q) by (nonlinear_arith)
            requires
                r + 1 <= q,
                r >= 0,
        ;
    } else if q < r {
        assert((q + 1) * (q + 1) <= r * r) by (nonlinear_arith)
            requires
                q + 1 <= r,
                q >= 0,
        ;
    }
}

/// Gradient magnitude of an edge pixel: the integer part of
/// `sqrt(gx * gx + gy * gy)`, saturated at 255.
pub open spec fn edge_magnitude_spec(gx: int, gy: int) -> int {
    let r = isqrt((gx * gx + gy * gy) as nat);
    if r > 255 {
        255
    } else {
        r as int
    }
}

/// Computes `edge_magnitude_spec(gx, gy)`.
pub fn edge_magnitude(gx: u8, gy: u8) -> (m: u8)
    ensures
        m == edge_magnitude_spec(gx as int, gy as int),
{
    let x: u32 = gx as u32;
    let y: u32 = gy as u32;
    assert(x * x <= 65025 && y * y <= 65025) by (nonlinear_arith)
        requires
            x <= 255,
            y <= 255,
    ;
    let s: u32 = x * x + y * y;
    let mut r: u32 = 0;
    // `next` holds the square of `r + 1`.
    let mut next: u32 = 1;
    while next <= s
        invariant
            s <= 130050,
            s == gx * gx + gy * gy,
            r <= 361,
            r * r <= s,
            next == (r + 1) * (r + 1),
        decreases 361 - r,
    {
        assert(r + 1 <= 360) by (nonlinear_arith)
            requires
                (r + 1) * (r + 1) <= s,
                s <= 130050,
        ;
        assert((r + 2) * (r + 2) == next + 2 * r + 3) by (nonlinear_arith)
            requires
                next == (r + 1) * (r + 1),
        ;
        next = next + 2 * r + 3;
        r = r + 1;
    }
    proof {
        lemma_isqrt_unique(s as nat, r as nat);
    }
    if r > 255 {
        255
    } else {
        r as u8
    }
}

/// The edge level does not depend on which of the two gradients is the
/// horizontal one.
pub proof fn lemma_edge_magnitude_symmetric(gx: int, gy: int)
    ensures
        edge_magnitude_spec(gx, gy) == edge_magnitude_spec(gy, gx),
{
    assert(gx * gx + gy * gy == gy * gy + gx * gx);
}

/// A gradient along one axis alone gives its own value as the edge level.
pub proof fn lemma_edge_magnitude_single_axis(g: int)
    requires
        0 <= g <= 255,
    ensures
        edge_magnitude_spec(g, 0) == g,
{
    assert(g * g <= g * g + 0 * 0 < (g + 1) * (g + 1)) by (nonlinear_arith)
        requires
            0 <= g,
    ;
    lemma_isqrt_unique((g * g + 0 * 0) as nat, g as nat);
}

/// `isqrt` never decreases as its argument grows.
pub proof fn lemma_isqrt_monotone(a: nat, b: nat)
    requires
        a <= b,
    ensures
        isqrt(a) <= isqrt(b),
{
    lemma_isqrt_bounds(a);
    lemma_isqrt_bounds(b);
    let ra = isqrt(a);
    let rb = isqrt(b);
    if rb < ra {
        assert((rb + 1) * (rb + 1) <= ra * ra) by (nonlinear_arith)
            requires
                rb + 1 <= ra,
                rb >= 0,
        ;
    }
}

/// A stronger gradient never gives a weaker edge.
pub proof fn lemma_edge_magnitude_monotone(gx: int, gy: int, hx: int, hy: int)
    requires
        0 <= gx <= hx,
        0 <= gy <= hy,
    ensures
        edge_magnitude_spec(gx, gy) <= edge_magnitude_spec(hx, hy),
{
    assert(gx * gx + gy * gy <= hx * hx + hy * hy) by (nonlinear_arith)
        requires
            0 <= gx <= hx,
            0 <= gy <= hy,
    ;
    lemma_isqrt_monotone((gx * gx + gy * gy) as nat, (hx * hx + hy * hy) as nat);
}

/// The edge level is the integer square root of `gx * gx + gy * gy`,
/// saturated at 255: it lies in `0 ..= 255`; below the saturation point its
/// square is at most the sum and the square of its successor exceeds it.
pub proof fn lemma_edge_magnitude_is_saturated_root(gx: int, gy: int)
    ensures
        0 <= edge_magnitude_spec(gx, gy) <= 255,
        gx * gx + gy * gy >= 255 * 255 ==> edge_magnitude_spec(gx, gy) == 255,
        gx * gx + gy * gy < 255 * 255 ==> {
            let m = edge_magnitude_spec(gx, gy);
            m * m <= gx * gx + gy * gy < (m + 1) * (m + 1)
        },
{
    let s = gx * gx + gy * gy;
    assert(gx * gx + gy * gy >= 0) by (nonlinear_arith);
    let n = s as nat;
    lemma_isqrt_bounds(n);
    let r = isqrt(n);
    if s >= 255 * 255 {
        if r <= 255 {
            if r < 255 {
                assert((r + 1) * (r + 1) <= 255 * 255) by (nonlinear_arith)
                    requires
                        r + 1 <= 255,
                        r >= 0,
                ;
            } else {
                lemma_isqrt_unique(n, 255);
            }
        }
    } else {
        if r >= 255 {
            assert(255 * 255 <= r * r) by (nonlinear_arith)
                requires
                    r >= 255,
            ;
        }
    }
}

/// A grey opaque pixel has its level on each of the three colour bytes and
/// 255 on the alpha byte, wherever it stands in the image.
pub proof fn lemma_grey_opaque_pixel_bytes(data: Seq<u8>, p: int, m: int)
    ensures
        is_grey_opaque_pixel(data, p, m) <==> (data[4 * p] == m && data[4 * p + 1] == m && data[4
            * p + 2] == m && data[4 * p + 3] == 255),
{
}

/// An RGBA image held as row-major bytes, four per pixel (red, green, blue,
/// alpha); pixel `(x, y)` starts at byte `4 * (y * width + x)`.
pub struct RgbaFrame {
    pub width: u32,
    pub height: u32,
    pub data: Vec<u8>,
}

impl RgbaFrame {
    /// Number of pixels of the frame.
    pub open spec fn pixel_count(&self) -> int {
        self.width as int * self.height as int
    }

    /// The byte buffer holds exactly four bytes per pixel.
    pub open spec fn wf(&self) -> bool {
        self.data.len() == 4 * self.pixel_count()
    }
}

/// The four bytes of pixel `p` in `data` are the grey level `m` on each
/// colour channel and a fully opaque alpha.
pub open spec fn is_grey_opaque_pixel(data: Seq<u8>, p: int, m: int) -> bool {
    &&& data[4 * p] == m
    &&& data[4 * p + 1] == m
    &&& data[4 * p + 2] == m
    &&& data[4 * p + 3] == 255
}

/// The one-channel plane that an 8-bit grey image of the frame's width and
/// height reads when it is laid over the frame's raw RGBA bytes: the first
/// `width * height` bytes of the buffer, taken one byte per grey pixel.
pub fn gray_plane(frame: &RgbaFrame) -> (r: Vec<u8>)
    requires
        frame.wf(),
    ensures
        r@ == frame.data@.take(frame.pixel_count()),
{
    let w: usize = frame.width as usize;
    let h: usize = frame.height as usize;
    assert(w * h <= frame.data.len()) by (nonlinear_arith)
        requires
            frame.data.len() == 4 * (w * h),
    ;
    let n: usize = w * h;
    let mut r: Vec<u8> = Vec::new();
    let mut p: usize = 0;
    while p < n
        invariant
            n == frame.pixel_count(),
            n <= frame.data.len(),
            p <= n,
            r@ == frame.data@.take(p as int),
        decreases n - p,
    {
        r.push(frame.data[p]);
        p = p + 1;
        assert(r@ =~= frame.data@.take(p as int));
    }
    r
}

/// Builds the edge image from the horizontal and vertical gradient planes:
/// pixel `p` is grey with level `edge_magnitude_spec(gradx[p], grady[p])`
/// and fully opaque.
pub fn edges_from_gradients(width: u32, height: u32, gradx: &Vec<u8>, grady: &Vec<u8>) -> (r:
    RgbaFrame)
    requires
        gradx.len() == width * height,
        grady.len() == width * height,
        4 * (width * height) <= usize::MAX,
    ensures
        r.width == width,
        r.height == height,
        r.wf(),
        forall|p: int|
            0 <= p < width * height ==> #[trigger] is_grey_opaque_pixel(
                r.data@,
                p,
                edge_magnitude_spec(gradx[p] as int, grady[p] as int),
            ),
        forall|p: int|
            #![trigger gradx@[p]]
            0 <= p < width * height ==> {
                &&& r.data@[4 * p] == edge_magnitude_spec(gradx@[p] as int, grady@[p] as int)
                &&& r.data@[4 * p + 1] == edge_magnitude_spec(gradx@[p] as int, grady@[p] as int)
                &&& r.data@[4 * p + 2] == edge_magnitude_spec(gradx@[p] as int, grady@[p] as int)
                &&& r.data@[4 * p + 3] == 255
            },
{
    let n: usize = gradx.len();
    let mut data: Vec<u8> = Vec::new();
    let mut p: usize = 0;
    while p < n
        invariant
            n == gradx.len(),
            n == grady.len(),
            4 * n <= usize::MAX,
            p <= n,
            data.len() == 4 * p,
            forall|q: int|
                0 <= q < p ==> #[trigger] is_grey_opaque_pixel(
                    data@,
                    q,
                    edge_magnitude_spec(gradx[q] as int, grady[q] as int),
                ),
        decreases n - p,
    {
        let m = edge_magnitude(gradx[p], grady[p]);
        let ghost before = data@;
        data.push(m);
        data.push(m);
        data.push(m);
        data.push(255);
        assert forall|q: int| 0 <= q < p + 1 implies #[trigger] is_grey_opaque_pixel(
            data@,
            q,
            edge_magnitude_spec(gradx[q] as int, grady[q] as int),
        ) by {
            if q < p {
                assert(is_grey_opaque_pixel(
                    before,
                    q,
                    edge_magnitude_spec(gradx[q] as int, grady[q] as int),
                ));
                assert(data@[4 * q] == before[4 * q]);
                assert(data@[4 * q + 1] == before[4 * q + 1]);
                assert(data@[4 * q + 2] == before[4 * q + 2]);
                assert(data@[4 * q + 3] == before[4 * q + 3]);
            }
        }
        p = p + 1;
    }
    assert forall|q: int|
        #![trigger gradx@[q]]
        0 <= q < width * height implies {
        &&& data@[4 * q] == edge_magnitude_spec(gradx@[q] as int, grady@[q] as int)
        &&& data@[4 * q + 1] == edge_magnitude_spec(gradx@[q] as int, grady@[q] as int)
        &&& data@[4 * q + 2] == edge_magnitude_spec(gradx@[q] as int, grady@[q] as int)
        &&& data@[4 * q + 3] == 255
    } by {
        assert(is_grey_opaque_pixel(
            data@,
            q,
            edge_magnitude_spec(gradx[q] as int, grady[q] as int),
        ));
    }
    RgbaFrame { width, height, data }
}

} // verus!
