//! Triangle-filter resampling, used to downscale supersampled artwork
//! (window controls, rounded corners) and to fit backdrop images.
//!
//! The resampling itself is done by the `image` crate; this module converts
//! between the crate's own canvas and the raw RGBA byte buffer that call
//! consumes, and names its result so that contracts can speak about it.

use crate::canvas::Canvas;
use crate::canvas::Rgba;
use vstd::prelude::*;

verus! {

/// The flat RGBA byte buffer of a pixel buffer, four bytes per pixel.
pub open spec fn bytes_of(d: Seq<Rgba>) -> Seq<u8> {
    Seq::new(
        4 * d.len(),
        |i: int|
            {
                let p = d[i / 4];
                if i % 4 == 0 {
                    p.r
                } else if i % 4 == 1 {
                    p.g
                } else if i % 4 == 2 {
                    p.b
                } else {
                    p.a
                }
            },
    )
}

/// The pixel buffer read back from a flat RGBA byte buffer.
pub open spec fn pixels_of(b: Seq<u8>) -> Seq<Rgba> {
    Seq::new(
        b.len() / 4,
        |i: int| Rgba { r: b[4 * i], g: b[4 * i + 1], b: b[4 * i + 2], a: b[4 * i + 3] },
    )
}

/// What Triangle-filter resampling of the raw buffer `bytes` (of size `w` x
/// `h`) to `nw` x `nh` returns.  The result depends on the bytes and the four
/// dimensions alone.
pub uninterp spec fn resized(bytes: Seq<u8>, w: int, h: int, nw: int, nh: int) -> Seq<u8>;

/// Relies on image::imageops::resize with FilterType::Triangle: a pure
/// resampling of the source buffer whose output holds exactly `nw * nh`
/// pixels of four bytes each.
#[verifier::external_body]
fn resize_triangle_raw(bytes: &Vec<u8>, w: u32, h: u32, nw: u32, nh: u32) -> (r: Vec<u8>)
    requires
        bytes@.len() == 4 * w * h,
        4 * nw as int * nh as int <= usize::MAX,
        16 * w as int * nh as int <= usize::MAX,
        16 * nw as int * nh as int <= usize::MAX,
    ensures
        r@.len() == 4 * nw * nh,
        r@ == resized(bytes@, w as int, h as int, nw as int, nh as int),
{
    let img = image::RgbaImage::from_raw(w, h, bytes.clone()).unwrap();
    let out = image::imageops::resize(&img, nw, nh, image::imageops::FilterType::Triangle);
    out.into_raw()
}

/// The canvas a Triangle-filter resampling to `nw` x `nh` yields.
pub open spec fn sp_resized(d: Seq<Rgba>, w: int, h: int, nw: int, nh: int) -> Seq<Rgba> {
    pixels_of(resized(bytes_of(d), w, h, nw, nh))
}

/// Flatten a canvas into its raw RGBA bytes.
fn canvas_to_bytes(c: &Canvas) -> (r: Vec<u8>)
    requires
        c.wf(),
    ensures
        r@ == bytes_of(c@),
{
    let n = c.data.len();
    let mut r: Vec<u8> = Vec::new();
    let mut i: usize = 0;
    while i < n
        invariant
            i <= n,
            n == c@.len(),
            r@.len() == 4 * i,
            forall|j: int| 0 <= j < r@.len() ==> r@[j] == bytes_of(c@)[j],
        decreases n - i,
    {
        let p = c.data[i];
        proof {
            vstd::arithmetic::div_mod::lemma_fundamental_div_mod_converse(
                4 * i as int,
                4,
                i as int,
                0,
            );
            vstd::arithmetic::div_mod::lemma_fundamental_div_mod_converse(
                4 * i as int + 1,
                4,
                i as int,
                1,
            );
            vstd::arithmetic::div_mod::lemma_fundamental_div_mod_converse(
                4 * i as int + 2,
                4,
                i as int,
                2,
            );
            vstd::arithmetic::div_mod::lemma_fundamental_div_mod_converse(
                4 * i as int + 3,
                4,
                i as int,
                3,
            );
        }
        r.push(p.r);
        r.push(p.g);
        r.push(p.b);
        r.push(p.a);
        i = i + 1;
    }
    proof {
        assert(r@ =~= bytes_of(c@));
    }
    r
}

/// Assemble a canvas of the given size from its raw RGBA bytes.
fn canvas_from_bytes(w: u32, h: u32, bytes: &Vec<u8>) -> (out: Canvas)
    requires
        bytes@.len() == 4 * w as int * h as int,
    ensures
        out.wf(),
        out.spec_width() == w,
        out.spec_height() == h,
        out@ == pixels_of(bytes@),
{
    let total = bytes.len() / 4;
    proof {
        assert(4 * w as int * h as int == 4 * (w as int * h as int)) by (nonlinear_arith);
        vstd::arithmetic::div_mod::lemma_fundamental_div_mod_converse(
            4 * (w as int * h as int),
            4,
            w as int * h as int,
            0,
        );
    }
    // reading the length ties the byte count to usize for the indexing
    let blen = bytes.len();
    let mut data: Vec<Rgba> = Vec::new();
    let mut i: usize = 0;
    while i < total
        invariant
            i <= total,
            total == w as int * h as int,
            bytes@.len() == 4 * total,
            4 * total <= usize::MAX,
            data@.len() == i,
            forall|j: int| 0 <= j < data@.len() ==> data@[j] == pixels_of(bytes@)[j],
        decreases total - i,
    {
        let p = Rgba {
            r: bytes[4 * i],
            g: bytes[4 * i + 1],
            b: bytes[4 * i + 2],
            a: bytes[4 * i + 3],
        };
        data.push(p);
        i = i + 1;
    }
    proof {
        assert(data@ =~= pixels_of(bytes@));
    }
    Canvas { width: w, height: h, data }
}

/// Resample a canvas to `nw` x `nh` with the Triangle filter.
pub fn resize_canvas(src: &Canvas, nw: u32, nh: u32) -> (out: Canvas)
    requires
        src.wf(),
        4 * nw as int * nh as int <= usize::MAX,
        16 * src.spec_width() as int * nh as int <= usize::MAX,
        16 * nw as int * nh as int <= usize::MAX,
    ensures
        out.wf(),
        out.spec_width() == nw,
        out.spec_height() == nh,
        out@ == sp_resized(
            src@,
            src.spec_width() as int,
            src.spec_height() as int,
            nw as int,
            nh as int,
        ),
{
    let bytes = canvas_to_bytes(src);
    proof {
        assert(4 * src@.len() == 4 * (src.spec_width() as int * src.spec_height() as int));
        assert(4 * (src.spec_width() as int * src.spec_height() as int) == 4
            * src.spec_width() as int * src.spec_height() as int) by (nonlinear_arith);
    }
    let raw = resize_triangle_raw(&bytes, src.width(), src.height(), nw, nh);
    proof {
        assert(4 * nw as int * nh as int == 4 * (nw as int * nh as int)) by (nonlinear_arith);
    }
    let out = canvas_from_bytes(nw, nh, &raw);
    out
}

} // verus!
