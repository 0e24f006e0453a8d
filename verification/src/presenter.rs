//! The terminal presenter: diffs the freshly rendered pixel buffer against
//! the previous frame's and emits one glyph write per changed cell, colored
//! to match; the pixel-scale expansion then maps each logical pixel onto an
//! `N x N` block of terminal cells.
use vstd::prelude::*;
use colored::Colorize;
use rand::Rng;
use crate::{Color, SceneParams};
use crate::raster::PixelBuffer;

verus! {

/// One glyph write: the logical pixel it paints, the color it carries and
/// the character shown.
#[derive(Clone, Debug, PartialEq, Eq)]
pub struct CellWrite {
    pub x: usize,
    pub y: usize,
    pub color: Color,
    pub character: char,
}

/// One terminal operation: print `text` at the terminal cell
/// `(col, row)`.
#[derive(Clone, Debug, PartialEq, Eq)]
pub struct TermOp {
    pub col: u32,
    pub row: u32,
    pub text: String,
}

/// Whether the cell at flat index `idx` of `cur` must be repainted: it must
/// whenever the previous buffer has different dimensions (the first frame's
/// previous buffer is empty, forcing a full paint) or holds another color
/// there.
pub open spec fn cell_differs(prev: PixelBuffer, cur: PixelBuffer, idx: int) -> bool {
    let x = idx % (cur.width as int);
    let y = idx / (cur.width as int);
    !(prev.width == cur.width && prev.height == cur.height && prev.at(x, y) == cur.at(x, y))
}

/// The flat indices below `n` whose cells must be repainted, in row-major
/// order.
pub open spec fn diff_upto(prev: PixelBuffer, cur: PixelBuffer, n: nat) -> Seq<int>
    decreases n,
{
    if n == 0 {
        Seq::empty()
    } else {
        diff_upto(prev, cur, (n - 1) as nat) + if cell_differs(prev, cur, n as int - 1) {
            seq![n as int - 1]
        } else {
            Seq::empty()
        }
    }
}

/// All flat indices of `cur` whose cells must be repainted.
pub open spec fn diff_cells(prev: PixelBuffer, cur: PixelBuffer) -> Seq<int> {
    diff_upto(prev, cur, (cur.width * cur.height) as nat)
}

/// The character a write may carry: the configured fixed character, or any
/// lowercase letter when random mode is on.
pub open spec fn char_ok(params: SceneParams, ch: char) -> bool {
    if params.is_random_chars {
        'a' <= ch && ch <= 'z'
    } else {
        ch == params.character
    }
}

/// Relies on rand's `Rng::gen_range` on `thread_rng`: a sample drawn from
/// the half-open integer range `0..n` lies within it.
#[verifier::external_body]
fn random_index(n: u32) -> (r: u32)
    requires
        n > 0,
    ensures
        r < n,
{
    rand::thread_rng().gen_range(0..n)
}

/// A random lowercase letter, for the random-characters presentation mode.
pub fn random_letter() -> (c: char)
    ensures
        'a' <= c && c <= 'z',
{
    let i = random_index(26);
    let b: u8 = 97 + i as u8;
    b as char
}

/// Diffs the two buffers and produces one write per changed cell, in
/// row-major order: its position, the new color, and the configured (or
/// random) character.
pub fn present(prev: &PixelBuffer, cur: &PixelBuffer, scene_params: &SceneParams)
    -> (writes: Vec<CellWrite>)
    requires
        prev.well_formed(),
        cur.well_formed(),
    ensures
        writes@.len() == diff_cells(*prev, *cur).len(),
        forall|i: int| 0 <= i < writes@.len() ==> {
            let idx = #[trigger] diff_cells(*prev, *cur)[i];
            &&& writes@[i].x as int == idx % (cur.width as int)
            &&& writes@[i].y as int == idx / (cur.width as int)
            &&& writes@[i].color == cur.at(idx % (cur.width as int), idx / (cur.width as int))
            &&& char_ok(*scene_params, writes@[i].character)
        },
{
    let mut writes: Vec<CellWrite> = Vec::new();
    if cur.width == 0 {
        assert(cur.width * cur.height == 0) by (nonlinear_arith)
            requires cur.width == 0;
        assert(diff_cells(*prev, *cur) =~= Seq::empty());
        return writes;
    }
    let w = cur.width;
    let h = cur.height;
    assert(w * h <= 0xFFFF * 0xFFFF) by (nonlinear_arith)
        requires 0 <= w <= 0xFFFF && 0 <= h <= 0xFFFF;
    let n = w * h;
    let mut k: usize = 0;
    while k < n
        invariant
            cur.well_formed(),
            prev.well_formed(),
            0 < w == cur.width,
            h == cur.height,
            n == w * h,
            k <= n,
            writes@.len() == diff_upto(*prev, *cur, k as nat).len(),
            forall|i: int| 0 <= i < writes@.len() ==> {
                let idx = #[trigger] diff_upto(*prev, *cur, k as nat)[i];
                &&& writes@[i].x as int == idx % (cur.width as int)
                &&& writes@[i].y as int == idx / (cur.width as int)
                &&& writes@[i].color == cur.at(
                    idx % (cur.width as int), idx / (cur.width as int))
                &&& char_ok(*scene_params, writes@[i].character)
            },
        decreases n - k,
    {
        let x = k % w;
        let y = k / w;
        proof {
            let ki = k as int;
            let wi = w as int;
            let hi = h as int;
            vstd::arithmetic::div_mod::lemma_mod_bound(ki, wi);
            assert(ki / wi < hi) by (nonlinear_arith)
                requires ki < wi * hi && wi > 0 && 0 <= ki;
            vstd::arithmetic::div_mod::lemma_div_pos_is_pos(ki, wi);
        }
        let differs: bool = if prev.width == w && prev.height == h {
            let pc = prev.get_pixel(x, y);
            let cc = cur.get_pixel(x, y);
            pc != cc
        } else {
            true
        };
        let ghost pre = writes@;
        if differs {
            let ch: char = if scene_params.is_random_chars {
                random_letter()
            } else {
                scene_params.character
            };
            let color = cur.get_pixel(x, y);
            writes.push(CellWrite { x, y, color, character: ch });
        }
        proof {
            assert(diff_upto(*prev, *cur, (k + 1) as nat)
                == diff_upto(*prev, *cur, k as nat)
                    + if cell_differs(*prev, *cur, k as int) {
                        seq![k as int]
                    } else {
                        Seq::empty()
                    });
            if cell_differs(*prev, *cur, k as int) {
                assert(differs);
            } else {
                assert(!differs);
            }
            assert(diff_upto(*prev, *cur, (k + 1) as nat)
                =~= if differs {
                    diff_upto(*prev, *cur, k as nat).push(k as int)
                } else {
                    diff_upto(*prev, *cur, k as nat)
                });
        }
        k = k + 1;
    }
    writes
}

/// Idempotence: presenting a frame identical to the previous one repaints
/// nothing — the diff is empty.
pub proof fn lemma_identical_frames_no_writes(prev: PixelBuffer, cur: PixelBuffer)
    requires
        prev.width == cur.width,
        prev.height == cur.height,
        prev.data@ == cur.data@,
    ensures
        diff_cells(prev, cur).len() == 0,
{
    lemma_diff_upto_identical(prev, cur, (cur.width * cur.height) as nat);
}

proof fn lemma_diff_upto_identical(prev: PixelBuffer, cur: PixelBuffer, n: nat)
    requires
        prev.width == cur.width,
        prev.height == cur.height,
        prev.data@ == cur.data@,
    ensures
        diff_upto(prev, cur, n).len() == 0,
    decreases n,
{
    if n > 0 {
        lemma_diff_upto_identical(prev, cur, (n - 1) as nat);
    }
}

/// A full repaint: when the previous buffer's dimensions differ (as after a
/// camera resize, which empties it), every cell of the new frame is
/// written.
pub proof fn lemma_resized_full_repaint(prev: PixelBuffer, cur: PixelBuffer)
    requires
        prev.width != cur.width || prev.height != cur.height,
    ensures
        diff_cells(prev, cur).len() == cur.width * cur.height,
        forall|i: int| 0 <= i < cur.width * cur.height
            ==> #[trigger] diff_cells(prev, cur)[i] == i,
{
    lemma_diff_upto_all(prev, cur, (cur.width * cur.height) as nat);
}

proof fn lemma_diff_upto_all(prev: PixelBuffer, cur: PixelBuffer, n: nat)
    requires
        prev.width != cur.width || prev.height != cur.height,
    ensures
        diff_upto(prev, cur, n).len() == n,
        forall|i: int| 0 <= i < n ==> #[trigger] diff_upto(prev, cur, n)[i] == i,
    decreases n,
{
    if n > 0 {
        lemma_diff_upto_all(prev, cur, (n - 1) as nat);
        let whole = diff_upto(prev, cur, n);
        let head = diff_upto(prev, cur, (n - 1) as nat);
        assert(cell_differs(prev, cur, n as int - 1));
        assert(whole == head + seq![n as int - 1]);
        assert forall|i: int| 0 <= i < n implies #[trigger] whole[i] == i by {
            if i < n - 1 {
                assert(whole[i] == head[i]);
            } else {
                assert(whole[i] == n as int - 1);
            }
        }
    }
}

/// Relies on colored's `Colorize::truecolor`: whether escape codes are
/// emitted depends on the terminal environment, but both of its branches
/// (plain text, or style prefix + text + reset) keep the original
/// character in the output.
#[verifier::external_body]
fn styled_char(ch: char, r: u8, g: u8, b: u8) -> (out: String)
    ensures
        out@.len() >= 1,
        out@.contains(ch),
{
    let mut s = String::new();
    s.push(ch);
    s.as_str().truecolor(r, g, b).to_string()
}

proof fn lemma_block_index(jj: int, ll: int, j: int, pi: int)
    by (nonlinear_arith)
    requires
        0 <= jj < j,
        0 <= ll < pi,
    ensures
        0 <= jj * pi + ll < j * pi,
{
}

proof fn lemma_outer_index(q: int, r: int, i: int, blk: int)
    by (nonlinear_arith)
    requires
        0 <= q < i,
        0 <= r < blk,
    ensures
        0 <= q * blk + r < i * blk,
{
}

/// One write's `N x N` block of terminal cells: the cell at block offset
/// `(l, j)` prints the write's character, styled in the write's color, at
/// terminal position `(x*N + l, y*N + j)`.
pub fn expand_write(wr: &CellWrite, pixel_scale: u16) -> (ops: Vec<TermOp>)
    requires
        pixel_scale >= 1,
        wr.x <= u16::MAX,
        wr.y <= u16::MAX,
    ensures
        ops@.len() == pixel_scale * pixel_scale,
        forall|j: int, l: int|
            0 <= j < pixel_scale && 0 <= l < pixel_scale
            ==> {
                let op = #[trigger] ops@[j * pixel_scale + l];
                &&& op.col as int == wr.x * pixel_scale + l
                &&& op.row as int == wr.y * pixel_scale + j
                &&& op.text@.len() >= 1
                &&& op.text@.contains(wr.character)
            },
{
    let ps = pixel_scale as usize;
    assert(ps * ps <= 0x1_0000 * 0x1_0000) by (nonlinear_arith)
        requires 0 <= ps <= 0x1_0000;
    let mut ops: Vec<TermOp> = Vec::new();
    let mut j: usize = 0;
    while j < ps
        invariant
            ps == pixel_scale,
            1 <= ps <= 0x1_0000,
            wr.x <= u16::MAX,
            wr.y <= u16::MAX,
            j <= ps,
            ops@.len() == j * ps,
            j * ps <= ps * ps,
            forall|jj: int, ll: int|
                0 <= jj < j && 0 <= ll < ps
                ==> {
                    let op = #[trigger] ops@[jj * ps + ll];
                    &&& op.col as int == wr.x * ps + ll
                    &&& op.row as int == wr.y * ps + jj
                    &&& op.text@.len() >= 1
                    &&& op.text@.contains(wr.character)
                },
        decreases ps - j,
    {
        proof {
            let ji = j as int;
            let pi = ps as int;
            assert(ji * pi + pi == (ji + 1) * pi) by (nonlinear_arith);
            assert((ji + 1) * pi <= pi * pi) by (nonlinear_arith)
                requires ji + 1 <= pi && pi >= 1;
        }
        let ghost row_base = ops@.len() as int;
        let mut l: usize = 0;
        while l < ps
            invariant
                ps == pixel_scale,
                1 <= ps <= 0x1_0000,
                wr.x <= u16::MAX,
                wr.y <= u16::MAX,
                j < ps,
                l <= ps,
                row_base == j * ps,
                ops@.len() == j * ps + l,
                j * ps + ps <= ps * ps,
                forall|jj: int, ll: int|
                    0 <= jj < j && 0 <= ll < ps
                    ==> {
                        let op = #[trigger] ops@[jj * ps + ll];
                        &&& op.col as int == wr.x * ps + ll
                        &&& op.row as int == wr.y * ps + jj
                        &&& op.text@.len() >= 1
                        &&& op.text@.contains(wr.character)
                    },
                forall|ll: int|
                    0 <= ll < l
                    ==> {
                        let op = #[trigger] ops@[j * ps + ll];
                        &&& op.col as int == wr.x * ps + ll
                        &&& op.row as int == wr.y * ps + j
                        &&& op.text@.len() >= 1
                        &&& op.text@.contains(wr.character)
                    },
            decreases ps - l,
        {
            proof {
                assert(wr.x * ps + l <= 0xFFFF * 0x1_0000 + 0xFFFF) by (nonlinear_arith)
                    requires wr.x <= 0xFFFF && 0 <= ps <= 0x1_0000 && 0 <= l <= 0xFFFF;
                assert(wr.y * ps + j <= 0xFFFF * 0x1_0000 + 0xFFFF) by (nonlinear_arith)
                    requires wr.y <= 0xFFFF && 0 <= ps <= 0x1_0000 && 0 <= j <= 0xFFFF;
            }
            let ghost pre = ops@;
            let col = (wr.x * ps + l) as u32;
            let row = (wr.y * ps + j) as u32;
            let text = styled_char(wr.character, wr.color.r, wr.color.g, wr.color.b);
            ops.push(TermOp { col, row, text });
            proof {
                assert forall|jj: int, ll: int|
                    0 <= jj < j && 0 <= ll < ps
                    implies #[trigger] ops@[jj * ps + ll] == pre[jj * ps + ll] by {
                    lemma_block_index(jj, ll, j as int, ps as int);
                }
            }
            l = l + 1;
        }
        j = j + 1;
        proof {
            assert forall|jj: int, ll: int|
                0 <= jj < j && 0 <= ll < ps
                implies ({
                    let op = #[trigger] ops@[jj * ps + ll];
                    op.col as int == wr.x * ps + ll
                        && op.row as int == wr.y * ps + jj
                        && op.text@.len() >= 1
                        && op.text@.contains(wr.character)
                }) by {
                if jj < j as int - 1 {
                } else {
                    assert(jj == j as int - 1);
                }
            }
        }
    }
    proof {
        assert(ps * ps == pixel_scale * pixel_scale);
    }
    ops
}

/// Expands the glyph writes by the pixel scale: write `i`'s block occupies
/// positions `i*N*N ..< (i+1)*N*N` of the result, laid out as in
/// [`expand_write`].
pub fn terminal_ops(writes: &Vec<CellWrite>, pixel_scale: u16) -> (ops: Vec<TermOp>)
    requires
        pixel_scale >= 1,
        forall|i: int| 0 <= i < writes@.len()
            ==> (#[trigger] writes@[i]).x <= u16::MAX && writes@[i].y <= u16::MAX,
    ensures
        ops@.len() == writes@.len() * (pixel_scale * pixel_scale),
        forall|i: int, j: int, l: int|
            0 <= i < writes@.len() && 0 <= j < pixel_scale && 0 <= l < pixel_scale
            ==> {
                let op = #[trigger] ops@[
                    i * (pixel_scale as int * pixel_scale) + j * pixel_scale + l];
                &&& op.col as int == writes@[i].x * pixel_scale + l
                &&& op.row as int == writes@[i].y * pixel_scale + j
                &&& op.text@.len() >= 1
                &&& op.text@.contains(writes@[i].character)
            },
{
    let ghost psps: int = pixel_scale as int * pixel_scale;
    let mut ops: Vec<TermOp> = Vec::new();
    let mut i: usize = 0;
    while i < writes.len()
        invariant
            pixel_scale >= 1,
            psps == pixel_scale as int * pixel_scale,
            forall|q: int| 0 <= q < writes@.len()
                ==> (#[trigger] writes@[q]).x <= u16::MAX && writes@[q].y <= u16::MAX,
            i <= writes@.len(),
            ops@.len() == i * psps,
            forall|q: int, j: int, l: int|
                0 <= q < i && 0 <= j < pixel_scale && 0 <= l < pixel_scale
                ==> {
                    let op = #[trigger] ops@[q * psps + j * pixel_scale + l];
                    &&& op.col as int == writes@[q].x * pixel_scale + l
                    &&& op.row as int == writes@[q].y * pixel_scale + j
                    &&& op.text@.len() >= 1
                    &&& op.text@.contains(writes@[q].character)
                },
        decreases writes@.len() - i,
    {
        let ghost pre = ops@;
        let mut block = expand_write(&writes[i], pixel_scale);
        let ghost blockv = block@;
        ops.append(&mut block);
        proof {
            assert(i as int * psps + psps == (i as int + 1) * psps) by (nonlinear_arith);
            assert forall|q: int, j: int, l: int|
                0 <= q < i as int + 1 && 0 <= j < pixel_scale && 0 <= l < pixel_scale
                implies ({
                    let op = #[trigger] ops@[q * psps + j * pixel_scale + l];
                    op.col as int == writes@[q].x * pixel_scale + l
                        && op.row as int == writes@[q].y * pixel_scale + j
                        && op.text@.len() >= 1
                        && op.text@.contains(writes@[q].character)
                }) by {
                lemma_block_index(j, l, pixel_scale as int, pixel_scale as int);
                if q < i as int {
                    lemma_outer_index(q, j * (pixel_scale as int) + l, i as int, psps);
                    assert(ops@[q * psps + j * pixel_scale + l]
                        == pre[q * psps + j * pixel_scale + l]);
                } else {
                    assert(q == i as int);
                    assert(ops@[q * psps + j * pixel_scale + l]
                        == blockv[j * pixel_scale + l]);
                }
            }
        }
        i = i + 1;
    }
    proof {
        assert(writes@.len() * psps == writes@.len() * (pixel_scale as int * pixel_scale));
    }
    ops
}

} // verus!
