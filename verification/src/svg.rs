//! Sizing for vector output: how large an SVG rendering of a document
//! would be, from the same font metrics the raster pipeline uses.

use crate::font::FontCollection;
use crate::font::collection_wf;
use crate::font::sp_collection_height;
use crate::font::sp_text_width;
use vstd::prelude::*;

verus! {

/// The width of the widest of the first `n` lines.
pub open spec fn sp_max_line_width(fc: FontCollection, v: Seq<Vec<char>>, n: int) -> int
    decreases n,
{
    if n <= 0 {
        0
    } else {
        let prev = sp_max_line_width(fc, v, n - 1);
        let w = sp_text_width(fc, v[n - 1]@);
        if w > prev {
            w
        } else {
            prev
        }
    }
}

/// Dimensions of a vector rendering of a document.
#[derive(Debug, PartialEq, Eq, Structural, Clone, Copy)]
pub struct SVGFormatter {
    pub width: u64,
    pub height: u64,
}

impl SVGFormatter {
    /// The size a document occupies: one band per line plus one, and the
    /// width of the widest line.
    pub fn get_svg_size(v: &Vec<Vec<char>>, font: &FontCollection) -> (size: (u64, u64))
        requires
            collection_wf(*font),
            1 <= v@.len() <= 0x1_0000,
            forall|i: int| 0 <= i < v@.len() ==> (#[trigger] v@[i])@.len() <= 0x10_0000,
        ensures
            size.0 == sp_max_line_width(*font, v@, v@.len() as int),
            size.1 == sp_collection_height(*font) * (v@.len() + 1),
    {
        proof {
            crate::formatter::lemma_collection_height_bounds(*font);
            assert(sp_collection_height(*font) * (v@.len() + 1) <= 0x0800_4000 * 0x1_0001)
                by (nonlinear_arith)
                requires
                    sp_collection_height(*font) <= 0x0800_4000,
                    v@.len() + 1 <= 0x1_0001,
            ;
            assert(sp_collection_height(*font) * (v@.len() + 1) >= 0) by (nonlinear_arith)
                requires
                    sp_collection_height(*font) >= 0,
                    v@.len() + 1 >= 0,
            ;
        }
        let fh = font.get_font_height() as u64;
        let n = v.len();
        let height = fh * (n as u64 + 1);
        let mut width: u64 = 0;
        let mut i: usize = 0;
        while i < n
            invariant
                i <= n,
                n == v@.len() <= 0x1_0000,
                collection_wf(*font),
                forall|k: int| 0 <= k < v@.len() ==> (#[trigger] v@[k])@.len() <= 0x10_0000,
                width == sp_max_line_width(*font, v@, i as int),
                width <= 0x4_0000_0000_0000,
            decreases n - i,
        {
            proof {
                assert((v@[i as int])@.len() <= 0x10_0000);
            }
            let w = font.get_text_len(&v[i]);
            proof {
                crate::font::lemma_text_width_bounds(*font, v@[i as int]@);
                assert(v@[i as int]@.len() * 0x0400_0000 <= 0x10_0000 * 0x0400_0000)
                    by (nonlinear_arith)
                    requires
                        v@[i as int]@.len() <= 0x10_0000,
                ;
            }
            if w > width {
                width = w;
            }
            i = i + 1;
        }
        (width, height)
    }
}

} // verus!
