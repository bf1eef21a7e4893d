//! The soft mouse cursor of the virtio GPU driver: its image, and how it is
//! drawn on and removed from the frame buffer.
use vstd::prelude::*;
use crate::config::{VIRTGPU_XRES, VIRTGPU_YRES};

verus! {

/// The 32-bit little-endian number at `off` in `data`.
pub open spec fn le_u32_at(data: Seq<u8>, off: int) -> int {
    data[off] + data[off + 1] * 0x100 + data[off + 2] * 0x10000 + data[off + 3] * 0x1000000
}

/// Where the pixel data of the BMP file `data` starts, as its file header says.
pub open spec fn bmp_data_offset(data: Seq<u8>) -> int {
    le_u32_at(data, 10)
}

/// The 16-bit little-endian number at `off` in `data`.
pub open spec fn le_u16_at(data: Seq<u8>, off: int) -> int {
    data[off] + data[off + 1] * 0x100
}

/// The number of colour-table entries tinybmp reads for a file with `bpp` bits
/// per pixel whose header says `colors_used`: that number, or when it is zero
/// the full table of a palette image (2 or 256 entries) and none otherwise.
pub open spec fn bmp_color_entries(bpp: int, colors_used: int) -> int {
    if colors_used == 0 {
        if bpp == 1 { 2 } else if bpp == 8 { 256 } else { 0 }
    } else {
        colors_used
    }
}

/// Whether tinybmp accepts `data` as a BMP file for 24-bit RGB pixels: the
/// signature `BM`; a device-independent header of 40, 56, 108 or 124 bytes
/// that fits in the file; 1, 8, 24 or 32 bits per pixel (at 28); no
/// compression or bit fields (at 30); and room in the file for the colour
/// table after the header, its size given by the colours used (at 46).
pub open spec fn bmp_rgb888_accepts(data: Seq<u8>) -> bool {
    &&& bmp_headers_present(data)
    &&& {
        let d = le_u32_at(data, 14);
        let bpp = le_u16_at(data, 28);
        let compression = le_u32_at(data, 30);
        &&& (bpp == 1 || bpp == 8 || bpp == 24 || bpp == 32)
        &&& (compression == 0 || compression == 3)
        &&& data.len() >= 14 + d + 4 * bmp_color_entries(bpp, le_u32_at(data, 46))
    }
}

/// The 32-bit little-endian number at 22 in the file, the image height.
pub open spec fn bmp_height_bits(data: Seq<u8>) -> int {
    le_u32_at(data, 22)
}

/// The file has the signature `BM` and a device-independent header of one of
/// the four sizes tinybmp reads (40, 56, 108 or 124 bytes) that fits in it.
/// tinybmp reads the image height and slices the pixel data only for such files.
pub open spec fn bmp_headers_present(data: Seq<u8>) -> bool {
    &&& data.len() >= 18
    &&& data[0] == 0x42u8
    &&& data[1] == 0x4du8
    &&& {
        let d = le_u32_at(data, 14);
        &&& (d == 40 || d == 56 || d == 108 || d == 124)
        &&& data.len() >= 14 + d
    }
}

/// A file on which tinybmp does not panic: when its headers are present, the
/// offset of the pixel data lies within the file, the height is not the
/// smallest 32-bit signed number, whose absolute value overflows, and the
/// colours used (at 46) are fewer than 2^30, so that the size of the colour
/// table in bytes fits in a 32-bit machine word.
pub open spec fn bmp_file_fits(data: Seq<u8>) -> bool {
    bmp_headers_present(data) ==> {
        &&& bmp_data_offset(data) <= data.len()
        &&& bmp_height_bits(data) != 0x8000_0000
        &&& le_u32_at(data, 46) < 0x4000_0000
    }
}

/// Calls `tinybmp::Bmp::<Rgb888>::from_slice` on `data`, and on success gives
/// the bytes of `RawBmp::image_data`. The contract claims that tinybmp
/// succeeds exactly on the files `bmp_rgb888_accepts` describes, and that the
/// image data is the rest of the file from the offset written in its header. tinybmp slices the file at that
/// offset without checking it, and takes the absolute value of the height, so
/// the file must fit as `bmp_file_fits` says.
#[verifier::external_body]
fn bmp_image_data(data: &[u8]) -> (r: Option<Vec<u8>>)
    requires
        bmp_file_fits(data@),
    ensures
        r is Some == bmp_rgb888_accepts(data@),
        r matches Some(v) ==> v@ == data@.skip(bmp_data_offset(data@)),
{
    match tinybmp::Bmp::<embedded_graphics::pixelcolor::Rgb888>::from_slice(data) {
        Ok(bmp) => Some(bmp.as_raw().image_data().to_vec()),
        Err(_) => None,
    }
}

/// Whether tinybmp can be given `bmp` without panicking, as
/// `cursor_image_from_bmp` requires.
pub fn bmp_fits(bmp: &[u8]) -> (r: bool)
    ensures
        r == bmp_file_fits(bmp@),
{
    let n = bmp.len();
    if n < 18 || bmp[0] != 0x42u8 || bmp[1] != 0x4du8 {
        return true;
    }
    let d: u64 = bmp[14] as u64 + bmp[15] as u64 * 0x100 + bmp[16] as u64 * 0x10000 + bmp[17] as u64 * 0x1000000;
    if !(d == 40 || d == 56 || d == 108 || d == 124) || (n as u64) < 14 + d {
        return true;
    }
    let off: u64 = bmp[10] as u64 + bmp[11] as u64 * 0x100 + bmp[12] as u64 * 0x10000 + bmp[13] as u64 * 0x1000000;
    let h: u64 = bmp[22] as u64 + bmp[23] as u64 * 0x100 + bmp[24] as u64 * 0x10000 + bmp[25] as u64 * 0x1000000;
    let used: u64 = bmp[46] as u64 + bmp[47] as u64 * 0x100 + bmp[48] as u64 * 0x10000 + bmp[49] as u64 * 0x1000000;
    off <= n as u64 && h != 0x8000_0000 && used < 0x4000_0000
}

/// The alpha byte of a pixel: transparent for white, opaque otherwise.
pub open spec fn alpha_of(chunk: Seq<u8>) -> u8 {
    if chunk == seq![255u8, 255u8, 255u8] { 0u8 } else { 0xffu8 }
}

/// The cursor image made from 24-bit pixel data: each group of three bytes,
/// followed by its alpha byte.
pub open spec fn cursor_pixels(raw: Seq<u8>) -> Seq<u8>
    decreases raw.len(),
{
    if raw.len() == 0 {
        Seq::empty()
    } else {
        let n = if raw.len() < 3 { raw.len() as int } else { 3 };
        let chunk = raw.take(n);
        chunk.push(alpha_of(chunk)) + cursor_pixels(raw.skip(n))
    }
}

/// The image of a prefix of whole pixels and of the rest join up.
proof fn lemma_cursor_pixels_split(raw: Seq<u8>, k: int)
    requires
        0 <= k <= raw.len(),
        k % 3 == 0,
    ensures
        cursor_pixels(raw) == cursor_pixels(raw.take(k)) + cursor_pixels(raw.skip(k)),
    decreases k,
{
    if k == 0 {
        assert(raw.take(0) =~= Seq::<u8>::empty());
        assert(raw.skip(0) =~= raw);
        assert(cursor_pixels(raw.take(0)) =~= Seq::<u8>::empty());
        assert(cursor_pixels(raw) =~= Seq::<u8>::empty() + cursor_pixels(raw));
    } else {
        let t = raw.take(k);
        assert(t.take(3) =~= raw.take(3));
        assert(t.skip(3) =~= raw.skip(3).take(k - 3));
        assert(raw.skip(3).skip(k - 3) =~= raw.skip(k));
        lemma_cursor_pixels_split(raw.skip(3), k - 3);
        let c = raw.take(3);
        assert(cursor_pixels(raw) == c.push(alpha_of(c)) + cursor_pixels(raw.skip(3)));
        assert(cursor_pixels(t) == c.push(alpha_of(c)) + cursor_pixels(t.skip(3)));
        assert(cursor_pixels(raw) =~= cursor_pixels(t) + cursor_pixels(raw.skip(k)));
    }
}

/// Pixel `i` of the cursor image made from 24-bit pixel data `raw` holds the
/// three bytes of pixel `i` of `raw`, followed by an alpha byte that is 0
/// (transparent) exactly when the three bytes are all 255 (white), and 0xff
/// (opaque) otherwise.
pub proof fn lemma_cursor_pixel_at(raw: Seq<u8>, i: int)
    requires
        0 <= i,
        3 * i + 3 <= raw.len(),
    ensures
        cursor_pixels(raw).len() >= 4 * i + 4,
        cursor_pixels(raw)[4 * i] == raw[3 * i],
        cursor_pixels(raw)[4 * i + 1] == raw[3 * i + 1],
        cursor_pixels(raw)[4 * i + 2] == raw[3 * i + 2],
        cursor_pixels(raw)[4 * i + 3] == if raw[3 * i] == 255 && raw[3 * i + 1] == 255 && raw[3 * i + 2] == 255 { 0u8 } else { 0xffu8 },
    decreases i,
{
    let c = raw.take(3);
    let tail = cursor_pixels(raw.skip(3));
    assert(cursor_pixels(raw) == c.push(alpha_of(c)) + tail);
    if i == 0 {
        if raw[0] == 255 && raw[1] == 255 && raw[2] == 255 {
            assert(c =~= seq![255u8, 255u8, 255u8]);
        } else {
            assert(c != seq![255u8, 255u8, 255u8]) by {
                if c == seq![255u8, 255u8, 255u8] {
                    assert(c[0] == raw[0] && c[1] == raw[1] && c[2] == raw[2]);
                }
            }
        }
    } else {
        lemma_cursor_pixel_at(raw.skip(3), i - 1);
        let r = raw.skip(3);
        assert(r[3 * (i - 1)] == raw[3 * i]);
        assert(r[3 * (i - 1) + 1] == raw[3 * i + 1]);
        assert(r[3 * (i - 1) + 2] == raw[3 * i + 2]);
        assert(cursor_pixels(raw)[4 * i] == tail[4 * (i - 1)]);
        assert(cursor_pixels(raw)[4 * i + 1] == tail[4 * (i - 1) + 1]);
        assert(cursor_pixels(raw)[4 * i + 2] == tail[4 * (i - 1) + 2]);
        assert(cursor_pixels(raw)[4 * i + 3] == tail[4 * (i - 1) + 3]);
    }
}

/// The cursor image has four bytes for each whole pixel of the data, and one
/// byte more than the data for a last partial pixel of one or two bytes.
pub proof fn lemma_cursor_pixels_len(raw: Seq<u8>)
    ensures
        cursor_pixels(raw).len() == raw.len() / 3 * 4 + if raw.len() % 3 == 0 { 0int } else { (raw.len() % 3 + 1) as int },
    decreases raw.len(),
{
    let n = raw.len() as int;
    if n >= 3 {
        lemma_cursor_pixels_len(raw.skip(3));
        let c = raw.take(3);
        assert(cursor_pixels(raw) == c.push(alpha_of(c)) + cursor_pixels(raw.skip(3)));
        assert((n - 3) / 3 == n / 3 - 1 && (n - 3) % 3 == n % 3) by (nonlinear_arith)
            requires n >= 3;
    } else if n > 0 {
        let c = raw.take(n);
        assert(raw.skip(n) =~= Seq::<u8>::empty());
        assert(cursor_pixels(raw) == c.push(alpha_of(c)) + cursor_pixels(raw.skip(n)));
        assert(n / 3 == 0 && n % 3 == n);
    }
}

/// Makes the cursor image from 24-bit pixel data: each group of three bytes
/// gets an alpha byte, transparent for white.
pub fn cursor_image(raw: &[u8]) -> (r: Vec<u8>)
    ensures
        r@ == cursor_pixels(raw@),
{
    let mut b: Vec<u8> = Vec::new();
    let mut i: usize = 0;
    let n = raw.len();
    while i < n
        invariant
            n == raw@.len(),
            i <= n,
            i % 3 == 0 || i == n,
            b@ == cursor_pixels(raw@.take(i as int)),
        decreases n - i,
    {
        let m = if n - i < 3 { n - i } else { 3 };
        let ghost chunk = raw@.subrange(i as int, i + m);
        let mut j: usize = 0;
        let ghost b0 = b@;
        while j < m
            invariant
                i + m <= n,
                j <= m,
                n == raw@.len(),
                b@ == b0 + raw@.subrange(i as int, i + j),
            decreases m - j,
        {
            b.push(raw[i + j]);
            assert(b@ =~= b0 + raw@.subrange(i as int, i + j + 1));
            j = j + 1;
        }
        let white = m == 3 && raw[i] == 255 && raw[i + 1] == 255 && raw[i + 2] == 255;
        assert(white == (chunk == seq![255u8, 255u8, 255u8])) by {
            if m == 3 && chunk == seq![255u8, 255u8, 255u8] {
                assert(chunk[0] == raw@[i as int]);
                assert(chunk[1] == raw@[i + 1]);
                assert(chunk[2] == raw@[i + 2]);
            }
            if white {
                assert(chunk =~= seq![255u8, 255u8, 255u8]);
            }
        }
        if white {
            b.push(0x00);
        } else {
            b.push(0xff);
        }
        proof {
            let next = raw@.take(i + m);
            lemma_cursor_pixels_split(next, i as int);
            assert(next.take(i as int) =~= raw@.take(i as int));
            assert(next.skip(i as int) =~= chunk);
            let nn = if chunk.len() < 3 { chunk.len() as int } else { 3 };
            assert(chunk.len() > 0);
            assert(chunk.take(nn) =~= chunk);
            assert(chunk.skip(nn) =~= Seq::<u8>::empty());
            assert(cursor_pixels(Seq::<u8>::empty()) =~= Seq::<u8>::empty());
            assert(cursor_pixels(chunk) == chunk.take(nn).push(alpha_of(chunk.take(nn))) + cursor_pixels(chunk.skip(nn)));
            assert(cursor_pixels(chunk) =~= chunk.push(alpha_of(chunk)) + Seq::<u8>::empty());
            assert(b@ =~= cursor_pixels(raw@.take(i as int)) + chunk.push(alpha_of(chunk)));
        }
        i = i + m;
    }
    assert(raw@.take(n as int) =~= raw@);
    b
}

/// Makes the cursor image from a BMP file of 24-bit pixels, or `None` when
/// tinybmp does not accept the file.
pub fn cursor_image_from_bmp(bmp: &[u8]) -> (r: Option<Vec<u8>>)
    requires
        bmp_file_fits(bmp@),
    ensures
        r is Some == bmp_rgb888_accepts(bmp@),
        r matches Some(v) ==> v@ == cursor_pixels(bmp@.skip(bmp_data_offset(bmp@))),
{
    match bmp_image_data(bmp) {
        Some(data) => Some(cursor_image(data.as_slice())),
        None => None,
    }
}

} // verus!

verus! {

/// Width and height of the cursor image in pixels.
pub const CURSOR_SIZE: usize = 64;

/// Frame buffer byte `k` lies under the cursor drawn at `(px, py)`: its pixel
/// is on the screen, within the 64 by 64 square at the cursor position, the
/// cursor image of `buf_len` bytes has that pixel, and the pixel is not the
/// last one of the frame buffer of `fb_len` bytes.
pub open spec fn covered(px: int, py: int, buf_len: int, fb_len: int, k: int) -> bool {
    let p = k / 4;
    let fy = p / (VIRTGPU_XRES as int);
    let fx = p % (VIRTGPU_XRES as int);
    let yo = fy - py;
    let xo = fx - px;
    &&& 0 <= k
    &&& fy < VIRTGPU_YRES
    &&& 0 <= yo < CURSOR_SIZE
    &&& 0 <= xo < CURSOR_SIZE
    &&& (yo * (CURSOR_SIZE as int) + xo) * 4 + 2 < buf_len
    &&& p * 4 + 4 < fb_len
}

/// The byte of the cursor image drawn on the frame buffer byte `k` when the
/// cursor is at `(px, py)`.
pub open spec fn cursor_byte(px: int, py: int, k: int) -> int {
    let p = k / 4;
    let yo = p / (VIRTGPU_XRES as int) - py;
    let xo = p % (VIRTGPU_XRES as int) - px;
    (yo * (CURSOR_SIZE as int) + xo) * 4 + k % 4
}

/// The first byte of the pixel of the cursor image drawn on frame buffer byte `k`.
pub open spec fn cursor_pixel_base(px: int, py: int, k: int) -> int {
    cursor_byte(px, py, k) - k % 4
}

/// Cursor image byte `j` is drawn on the screen when the cursor is at `(px, py)`.
pub open spec fn saved(px: int, py: int, buf_len: int, fb_len: int, j: int) -> bool {
    let q = j / 4;
    let fy = py + q / (CURSOR_SIZE as int);
    let fx = px + q % (CURSOR_SIZE as int);
    &&& 0 <= j
    &&& q / (CURSOR_SIZE as int) < CURSOR_SIZE
    &&& fy < VIRTGPU_YRES
    &&& fx < VIRTGPU_XRES
    &&& q * 4 + 2 < buf_len
    &&& (fy * (VIRTGPU_XRES as int) + fx) * 4 + 4 < fb_len
}

/// The frame buffer byte on which cursor image byte `j` is drawn.
pub open spec fn screen_byte(px: int, py: int, j: int) -> int {
    let q = j / 4;
    let fy = py + q / (CURSOR_SIZE as int);
    let fx = px + q % (CURSOR_SIZE as int);
    (fy * (VIRTGPU_XRES as int) + fx) * 4 + j % 4
}

/// The frame buffer `fb` with the bytes hidden under the cursor at `(px, py)` put back.
pub open spec fn recovered_screen(fb: Seq<u8>, hidden: Seq<u8>, px: int, py: int) -> Seq<u8> {
    Seq::new(fb.len(), |k: int| if covered(px, py, hidden.len() as int, fb.len() as int, k) { hidden[cursor_byte(px, py, k)] } else { fb[k] })
}

/// The frame buffer `fb` with the opaque pixels of the cursor image `img` drawn at `(px, py)`.
pub open spec fn drawn_screen(fb: Seq<u8>, img: Seq<u8>, px: int, py: int) -> Seq<u8> {
    Seq::new(fb.len(), |k: int|
        if covered(px, py, img.len() as int, fb.len() as int, k) && img[cursor_pixel_base(px, py, k) + 3] != 0 {
            img[cursor_byte(px, py, k)]
        } else {
            fb[k]
        })
}

/// The hidden bytes after the screen bytes of `fb` under the cursor at `(px, py)` are saved.
pub open spec fn saved_hidden(fb: Seq<u8>, img: Seq<u8>, hidden: Seq<u8>, px: int, py: int) -> Seq<u8> {
    Seq::new(hidden.len(), |j: int| if saved(px, py, img.len() as int, fb.len() as int, j) { fb[screen_byte(px, py, j)] } else { hidden[j] })
}

/// How the bytes of a pixel of the screen and of the cursor are numbered.
proof fn lemma_pixel(px: int, py: int, yo: int, xo: int, c: int)
    requires
        0 <= px,
        0 <= py,
        0 <= yo < CURSOR_SIZE,
        0 <= xo < CURSOR_SIZE,
        px + xo < VIRTGPU_XRES,
        0 <= c < 4,
    ensures
        ({
            let k = ((py + yo) * 1280 + px + xo) * 4 + c;
            let j = (yo * 64 + xo) * 4 + c;
            &&& k / 4 == (py + yo) * 1280 + px + xo
            &&& k % 4 == c
            &&& (k / 4) / 1280 == py + yo
            &&& (k / 4) % 1280 == px + xo
            &&& j / 4 == yo * 64 + xo
            &&& j % 4 == c
            &&& (j / 4) / 64 == yo
            &&& (j / 4) % 64 == xo
        }),
{
    let k = ((py + yo) * 1280 + px + xo) * 4 + c;
    let j = (yo * 64 + xo) * 4 + c;
    assert(k / 4 == (py + yo) * 1280 + px + xo && k % 4 == c) by (nonlinear_arith)
        requires k == ((py + yo) * 1280 + px + xo) * 4 + c, 0 <= c < 4, 0 <= py + yo, 0 <= px + xo;
    assert(((py + yo) * 1280 + px + xo) / 1280 == py + yo && ((py + yo) * 1280 + px + xo) % 1280 == px + xo) by (nonlinear_arith)
        requires 0 <= px + xo < 1280, 0 <= py + yo;
    assert(j / 4 == yo * 64 + xo && j % 4 == c) by (nonlinear_arith)
        requires j == (yo * 64 + xo) * 4 + c, 0 <= c < 4, 0 <= yo, 0 <= xo;
    assert((yo * 64 + xo) / 64 == yo && (yo * 64 + xo) % 64 == xo) by (nonlinear_arith)
        requires 0 <= xo < 64, 0 <= yo;
}

/// A screen byte and a cursor byte belong to the pixel whose row and column
/// they give.
proof fn lemma_byte_in_pixel(px: int, py: int, yo: int, xo: int, k: int, j: int)
    requires
        0 <= px,
        0 <= py,
        0 <= k,
        0 <= j,
    ensures
        (k / 4) / 1280 - py == yo && (k / 4) % 1280 - px == xo ==> {
            let fi = ((py + yo) * 1280 + px + xo) * 4;
            &&& fi <= k < fi + 4
            &&& k / 4 == (py + yo) * 1280 + px + xo
        },
        (j / 4) / 64 == yo && (j / 4) % 64 == xo ==> {
            let ci = (yo * 64 + xo) * 4;
            &&& ci <= j < ci + 4
            &&& j / 4 == yo * 64 + xo
        },
{
    let p = k / 4;
    assert(k == p * 4 + k % 4 && 0 <= k % 4 < 4) by (nonlinear_arith)
        requires p == k / 4, 0 <= k;
    assert(p == (p / 1280) * 1280 + p % 1280) by (nonlinear_arith)
        requires 0 <= p;
    let q = j / 4;
    assert(j == q * 4 + j % 4 && 0 <= j % 4 < 4) by (nonlinear_arith)
        requires q == j / 4, 0 <= j;
    assert(q == (q / 64) * 64 + q % 64) by (nonlinear_arith)
        requires 0 <= q;
}

/// The soft cursor of the GPU: its image, the screen bytes it hides, and its position.
pub struct CursorState {
    cursor_origin_buf: Vec<u8>,
    cursor_buf: Vec<u8>,
    cursor_pos: (u32, u32),
    use_soft_cursor: bool,
    cursor_visible: bool,
}

impl CursorState {
    /// The image, four bytes per pixel.
    pub closed spec fn image(&self) -> Seq<u8> {
        self.cursor_buf@
    }

    /// The screen bytes hidden under the cursor, four bytes per pixel.
    pub closed spec fn hidden(&self) -> Seq<u8> {
        self.cursor_origin_buf@
    }

    /// The position of the cursor.
    pub closed spec fn position(&self) -> (u32, u32) {
        self.cursor_pos
    }

    /// Whether the cursor is drawn by software.
    pub closed spec fn soft(&self) -> bool {
        self.use_soft_cursor
    }

    /// Whether the cursor is shown.
    pub closed spec fn visible(&self) -> bool {
        self.cursor_visible
    }

    /// The image does not end with a pixel of three bytes, whose missing
    /// fourth byte would be read, and the hidden bytes match it in size.
    pub closed spec fn wf(&self) -> bool {
        &&& self.cursor_buf@.len() % 4 != 3
        &&& self.cursor_origin_buf@.len() == self.cursor_buf@.len()
    }

    /// What well-formedness says of the image and of the hidden bytes.
    pub proof fn lemma_wf(&self)
        requires
            self.wf(),
        ensures
            self.image().len() % 4 != 3,
            self.hidden().len() == self.image().len(),
    {
    }

    /// A visible cursor at `(0, 0)` with the image `cursor_buf`.
    pub fn new(cursor_buf: Vec<u8>, use_soft_cursor: bool) -> (r: Self)
        requires
            cursor_buf@.len() % 4 != 3,
        ensures
            r.wf(),
            r.image() == cursor_buf@,
            r.hidden() == Seq::new(cursor_buf@.len(), |i: int| 0u8),
            r.position() == (0u32, 0u32),
            r.soft() == use_soft_cursor,
            r.visible(),
    {
        let mut z: Vec<u8> = Vec::new();
        let mut i: usize = 0;
        while i < cursor_buf.len()
            invariant
                i <= cursor_buf@.len(),
                z@ == Seq::new(i as nat, |j: int| 0u8),
            decreases cursor_buf@.len() - i,
        {
            z.push(0);
            i = i + 1;
            assert(z@ =~= Seq::new(i as nat, |j: int| 0u8));
        }
        CursorState { cursor_origin_buf: z, cursor_buf, cursor_pos: (0, 0), use_soft_cursor, cursor_visible: true }
    }

    /// The position of the cursor.
    pub fn get_cursor_pos(&self) -> (r: (u32, u32))
        ensures
            r == self.position(),
    {
        self.cursor_pos
    }

    /// Puts back on the frame buffer `fb` the screen bytes hidden under the cursor.
    pub fn recover_origin_cursor(&self, fb: &mut [u8])
        requires
            self.wf(),
        ensures
            final(fb)@ == recovered_screen(old(fb)@, self.hidden(), self.position().0 as int, self.position().1 as int),
            final(fb)@.len() == old(fb)@.len(),
            forall|k: int| 0 <= k < old(fb)@.len() ==> #[trigger] final(fb)@[k] ==
                if covered(self.position().0 as int, self.position().1 as int, self.hidden().len() as int, old(fb)@.len() as int, k) {
                    self.hidden()[cursor_byte(self.position().0 as int, self.position().1 as int, k)]
                } else {
                    old(fb)@[k]
                },
    {
        let ghost f0 = fb@;
        let (pos_x, pos_y) = self.cursor_pos;
        let px = pos_x as u64;
        let py = pos_y as u64;
        let ghost blen = self.cursor_origin_buf@.len() as int;
        let ghost flen = f0.len() as int;
        let mut y_offset: u64 = 0;
        while y_offset < CURSOR_SIZE as u64
            invariant
                self.wf(),
                px == self.cursor_pos.0,
                py == self.cursor_pos.1,
                blen == self.cursor_origin_buf@.len(),
                fb@.len() == f0.len(),
                flen == f0.len(),
                y_offset <= CURSOR_SIZE,
                forall|k: int| 0 <= k < flen ==> #[trigger] fb@[k] ==
                    if covered(px as int, py as int, blen, flen, k) && (k / 4) / 1280 - py < y_offset {
                        self.cursor_origin_buf@[cursor_byte(px as int, py as int, k)]
                    } else {
                        f0[k]
                    },
            ensures
                fb@.len() == f0.len(),
                forall|k: int| 0 <= k < flen ==> #[trigger] fb@[k] ==
                    if covered(px as int, py as int, blen, flen, k) {
                        self.cursor_origin_buf@[cursor_byte(px as int, py as int, k)]
                    } else {
                        f0[k]
                    },
            decreases CURSOR_SIZE - y_offset,
        {
            let fb_y = py + y_offset;
            if fb_y >= VIRTGPU_YRES as u64 {
                break;
            }
            let mut x_offset: u64 = 0;
            while x_offset < CURSOR_SIZE as u64
                invariant
                    self.wf(),
                    px == self.cursor_pos.0,
                    py == self.cursor_pos.1,
                    blen == self.cursor_origin_buf@.len(),
                    fb@.len() == f0.len(),
                    flen == f0.len(),
                    y_offset < CURSOR_SIZE,
                    fb_y == py + y_offset,
                    fb_y < VIRTGPU_YRES,
                    x_offset <= CURSOR_SIZE,
                    forall|k: int| 0 <= k < flen ==> #[trigger] fb@[k] ==
                        if covered(px as int, py as int, blen, flen, k) && ((k / 4) / 1280 - py < y_offset
                            || ((k / 4) / 1280 - py == y_offset && (k / 4) % 1280 - px < x_offset)) {
                            self.cursor_origin_buf@[cursor_byte(px as int, py as int, k)]
                        } else {
                            f0[k]
                        },
                ensures
                    fb@.len() == f0.len(),
                    forall|k: int| 0 <= k < flen ==> #[trigger] fb@[k] ==
                        if covered(px as int, py as int, blen, flen, k) && (k / 4) / 1280 - py <= y_offset {
                            self.cursor_origin_buf@[cursor_byte(px as int, py as int, k)]
                        } else {
                            f0[k]
                        },
                decreases CURSOR_SIZE - x_offset,
            {
                let fb_x = px + x_offset;
                if fb_x >= VIRTGPU_XRES as u64 {
                    break;
                }
                let cursor_idx = ((y_offset as usize) * CURSOR_SIZE + x_offset as usize) * 4;
                let cob = &self.cursor_origin_buf;
                if cursor_idx + 2 < cob.len() {
                    let row = fb_y as usize;
                    let col = fb_x as usize;
                    assert(row < 800 && col < 1280);
                    let fb_idx = (row * 1280 + col) * 4;
                    if fb_idx + 4 < fb.len() {
                        proof {
                            assert forall|k: int| fb_idx <= k < fb_idx + 4 implies {
                                &&& #[trigger] covered(px as int, py as int, blen, flen, k)
                                &&& cursor_byte(px as int, py as int, k) == cursor_idx + (k - fb_idx)
                                &&& (k / 4) / 1280 - py == y_offset
                                &&& (k / 4) % 1280 - px == x_offset
                            } by {
                                lemma_pixel(px as int, py as int, y_offset as int, x_offset as int, k - fb_idx);
                            }
                        }
                        fb[fb_idx] = cob[cursor_idx];
                        fb[fb_idx + 1] = cob[cursor_idx + 1];
                        fb[fb_idx + 2] = cob[cursor_idx + 2];
                        fb[fb_idx + 3] = cob[cursor_idx + 3];
                    }
                }
                x_offset = x_offset + 1;
            }
            y_offset = y_offset + 1;
        }
        assert(fb@ =~= recovered_screen(f0, self.cursor_origin_buf@, px as int, py as int));
    }

    /// Draws the cursor on the frame buffer `fb`, first saving the screen bytes
    /// it hides. Transparent pixels of the image leave the screen as it is.
    /// Nothing happens when the cursor is not drawn by software or is hidden.
    pub fn draw_soft_cursor(&mut self, fb: &mut [u8])
        requires
            old(self).wf(),
        ensures
            final(self).wf(),
            final(fb)@.len() == old(fb)@.len(),
            final(self).image() == old(self).image(),
            final(self).position() == old(self).position(),
            final(self).soft() == old(self).soft(),
            final(self).visible() == old(self).visible(),
            !old(self).soft() || !old(self).visible() ==> final(fb)@ == old(fb)@ && final(self).hidden() == old(self).hidden(),
            old(self).soft() && old(self).visible() ==> {
                &&& final(fb)@ == drawn_screen(old(fb)@, old(self).image(), old(self).position().0 as int, old(self).position().1 as int)
                &&& final(self).hidden() == saved_hidden(old(fb)@, old(self).image(), old(self).hidden(),
                    old(self).position().0 as int, old(self).position().1 as int)
            },
            old(self).soft() && old(self).visible() ==> {
                let px = old(self).position().0 as int;
                let py = old(self).position().1 as int;
                let img = old(self).image();
                &&& final(self).hidden().len() == old(self).hidden().len()
                &&& forall|k: int| 0 <= k < old(fb)@.len() ==> #[trigger] final(fb)@[k] ==
                    if covered(px, py, img.len() as int, old(fb)@.len() as int, k) && img[cursor_pixel_base(px, py, k) + 3] != 0 {
                        img[cursor_byte(px, py, k)]
                    } else {
                        old(fb)@[k]
                    }
                &&& forall|j: int| 0 <= j < img.len() ==> #[trigger] final(self).hidden()[j] ==
                    if saved(px, py, img.len() as int, old(fb)@.len() as int, j) {
                        old(fb)@[screen_byte(px, py, j)]
                    } else {
                        old(self).hidden()[j]
                    }
            },
    {
        if !self.use_soft_cursor || !self.cursor_visible {
            return;
        }
        let ghost f0 = fb@;
        let ghost c0 = self.cursor_origin_buf@;
        let ghost img = self.cursor_buf@;
        let (pos_x, pos_y) = self.cursor_pos;
        let px = pos_x as u64;
        let py = pos_y as u64;
        let ghost blen = img.len() as int;
        let ghost flen = f0.len() as int;
        let mut y_offset: u64 = 0;
        while y_offset < CURSOR_SIZE as u64
            invariant
                self.wf(),
                self.cursor_buf@ == img,
                self.cursor_pos == old(self).cursor_pos,
                self.use_soft_cursor == old(self).use_soft_cursor,
                self.cursor_visible == old(self).cursor_visible,
                px == self.cursor_pos.0,
                py == self.cursor_pos.1,
                blen == img.len(),
                c0.len() == img.len(),
                fb@.len() == f0.len(),
                flen == f0.len(),
                y_offset <= CURSOR_SIZE,
                forall|k: int| 0 <= k < flen ==> #[trigger] fb@[k] ==
                    if covered(px as int, py as int, blen, flen, k) && (k / 4) / 1280 - py < y_offset && img[cursor_pixel_base(px as int, py as int, k) + 3] != 0 {
                        img[cursor_byte(px as int, py as int, k)]
                    } else {
                        f0[k]
                    },
                forall|j: int| 0 <= j < blen ==> #[trigger] self.cursor_origin_buf@[j] ==
                    if saved(px as int, py as int, blen, flen, j) && (j / 4) / 64 < y_offset {
                        f0[screen_byte(px as int, py as int, j)]
                    } else {
                        c0[j]
                    },
            ensures
                self.wf(),
                self.cursor_buf@ == img,
                self.cursor_pos == old(self).cursor_pos,
                self.use_soft_cursor == old(self).use_soft_cursor,
                self.cursor_visible == old(self).cursor_visible,
                fb@.len() == f0.len(),
                forall|k: int| 0 <= k < flen ==> #[trigger] fb@[k] ==
                    if covered(px as int, py as int, blen, flen, k) && img[cursor_pixel_base(px as int, py as int, k) + 3] != 0 {
                        img[cursor_byte(px as int, py as int, k)]
                    } else {
                        f0[k]
                    },
                forall|j: int| 0 <= j < blen ==> #[trigger] self.cursor_origin_buf@[j] ==
                    if saved(px as int, py as int, blen, flen, j) {
                        f0[screen_byte(px as int, py as int, j)]
                    } else {
                        c0[j]
                    },
            decreases CURSOR_SIZE - y_offset,
        {
            let fb_y = py + y_offset;
            if fb_y >= VIRTGPU_YRES as u64 {
                break;
            }
            let mut x_offset: u64 = 0;
            while x_offset < CURSOR_SIZE as u64
                invariant
                    self.wf(),
                    self.cursor_buf@ == img,
                    self.cursor_pos == old(self).cursor_pos,
                    self.use_soft_cursor == old(self).use_soft_cursor,
                    self.cursor_visible == old(self).cursor_visible,
                    px == self.cursor_pos.0,
                    py == self.cursor_pos.1,
                    blen == img.len(),
                    c0.len() == img.len(),
                    fb@.len() == f0.len(),
                    flen == f0.len(),
                    y_offset < CURSOR_SIZE,
                    fb_y == py + y_offset,
                    fb_y < VIRTGPU_YRES,
                    x_offset <= CURSOR_SIZE,
                    forall|k: int| 0 <= k < flen ==> #[trigger] fb@[k] ==
                        if covered(px as int, py as int, blen, flen, k) && ((k / 4) / 1280 - py < y_offset
                            || ((k / 4) / 1280 - py == y_offset && (k / 4) % 1280 - px < x_offset))
                            && img[cursor_pixel_base(px as int, py as int, k) + 3] != 0 {
                            img[cursor_byte(px as int, py as int, k)]
                        } else {
                            f0[k]
                        },
                    forall|j: int| 0 <= j < blen ==> #[trigger] self.cursor_origin_buf@[j] ==
                        if saved(px as int, py as int, blen, flen, j) && ((j / 4) / 64 < y_offset
                            || ((j / 4) / 64 == y_offset && (j / 4) % 64 < x_offset)) {
                            f0[screen_byte(px as int, py as int, j)]
                        } else {
                            c0[j]
                        },
                ensures
                    self.wf(),
                    self.cursor_buf@ == img,
                    self.cursor_pos == old(self).cursor_pos,
                    self.use_soft_cursor == old(self).use_soft_cursor,
                    self.cursor_visible == old(self).cursor_visible,
                    fb@.len() == f0.len(),
                    forall|k: int| 0 <= k < flen ==> #[trigger] fb@[k] ==
                        if covered(px as int, py as int, blen, flen, k) && (k / 4) / 1280 - py <= y_offset
                            && img[cursor_pixel_base(px as int, py as int, k) + 3] != 0 {
                            img[cursor_byte(px as int, py as int, k)]
                        } else {
                            f0[k]
                        },
                    forall|j: int| 0 <= j < blen ==> #[trigger] self.cursor_origin_buf@[j] ==
                        if saved(px as int, py as int, blen, flen, j) && (j / 4) / 64 <= y_offset {
                            f0[screen_byte(px as int, py as int, j)]
                        } else {
                            c0[j]
                        },
                decreases CURSOR_SIZE - x_offset,
            {
                let fb_x = px + x_offset;
                if fb_x >= VIRTGPU_XRES as u64 {
                    break;
                }
                let cursor_idx = ((y_offset as usize) * CURSOR_SIZE + x_offset as usize) * 4;
                if cursor_idx + 2 < self.cursor_buf.len() {
                    let row = fb_y as usize;
                    let col = fb_x as usize;
                    assert(row < 800 && col < 1280);
                    let fb_idx = (row * 1280 + col) * 4;
                    if fb_idx + 4 < fb.len() {
                        proof {
                            assert forall|k: int| fb_idx <= k < fb_idx + 4 implies {
                                &&& #[trigger] covered(px as int, py as int, blen, flen, k)
                                &&& cursor_byte(px as int, py as int, k) == cursor_idx + (k - fb_idx)
                                &&& cursor_pixel_base(px as int, py as int, k) == cursor_idx
                                &&& (k / 4) / 1280 - py == y_offset
                                &&& (k / 4) % 1280 - px == x_offset
                            } by {
                                lemma_pixel(px as int, py as int, y_offset as int, x_offset as int, k - fb_idx);
                            }
                            assert forall|j: int| cursor_idx <= j < cursor_idx + 4 implies {
                                &&& #[trigger] saved(px as int, py as int, blen, flen, j)
                                &&& screen_byte(px as int, py as int, j) == fb_idx + (j - cursor_idx)
                                &&& (j / 4) / 64 == y_offset
                                &&& (j / 4) % 64 == x_offset
                            } by {
                                lemma_pixel(px as int, py as int, y_offset as int, x_offset as int, j - cursor_idx);
                            }
                        }
                        let ghost fb_before = fb@;
                        let ghost cob_before = self.cursor_origin_buf@;
                        self.save_and_draw_pixel(fb, cursor_idx, fb_idx);
                        proof {
                            assert forall|k: int| 0 <= k < flen implies #[trigger] fb@[k] ==
                                if covered(px as int, py as int, blen, flen, k) && ((k / 4) / 1280 - py < y_offset
                                    || ((k / 4) / 1280 - py == y_offset && (k / 4) % 1280 - px < x_offset + 1))
                                    && img[cursor_pixel_base(px as int, py as int, k) + 3] != 0 {
                                    img[cursor_byte(px as int, py as int, k)]
                                } else {
                                    f0[k]
                                } by {
                                lemma_byte_in_pixel(px as int, py as int, y_offset as int, x_offset as int, k, 0);
                                if fb_idx <= k < fb_idx + 4 {
                                    assert(covered(px as int, py as int, blen, flen, k));
                                }
                            }
                            assert forall|j: int| 0 <= j < blen implies #[trigger] self.cursor_origin_buf@[j] ==
                                if saved(px as int, py as int, blen, flen, j) && ((j / 4) / 64 < y_offset
                                    || ((j / 4) / 64 == y_offset && (j / 4) % 64 < x_offset + 1)) {
                                    f0[screen_byte(px as int, py as int, j)]
                                } else {
                                    c0[j]
                                } by {
                                lemma_byte_in_pixel(px as int, py as int, y_offset as int, x_offset as int, 0, j);
                                if cursor_idx <= j < cursor_idx + 4 {
                                    assert(saved(px as int, py as int, blen, flen, j));
                                    let k = screen_byte(px as int, py as int, j);
                                    assert(fb_idx <= k < fb_idx + 4);
                                    assert(!((k / 4) / 1280 - py < y_offset || ((k / 4) / 1280 - py == y_offset && (k / 4) % 1280 - px < x_offset)));
                                    assert(fb_before[k] == f0[k]);
                                }
                            }
                        }
                    } else {
                        proof {
                            assert forall|k: int| 0 <= k < flen && covered(px as int, py as int, blen, flen, k) implies
                                !((k / 4) / 1280 - py == y_offset && (k / 4) % 1280 - px == x_offset) by {
                                lemma_byte_in_pixel(px as int, py as int, y_offset as int, x_offset as int, k, 0);
                            }
                            assert forall|j: int| 0 <= j < blen && saved(px as int, py as int, blen, flen, j) implies
                                !((j / 4) / 64 == y_offset && (j / 4) % 64 == x_offset) by {
                                lemma_byte_in_pixel(px as int, py as int, y_offset as int, x_offset as int, 0, j);
                            }
                        }
                    }
                } else {
                    proof {
                        assert forall|k: int| 0 <= k < flen && covered(px as int, py as int, blen, flen, k) implies
                            !((k / 4) / 1280 - py == y_offset && (k / 4) % 1280 - px == x_offset) by {
                            lemma_byte_in_pixel(px as int, py as int, y_offset as int, x_offset as int, k, 0);
                        }
                        assert forall|j: int| 0 <= j < blen && saved(px as int, py as int, blen, flen, j) implies
                            !((j / 4) / 64 == y_offset && (j / 4) % 64 == x_offset) by {
                            lemma_byte_in_pixel(px as int, py as int, y_offset as int, x_offset as int, 0, j);
                        }
                    }
                }
                x_offset = x_offset + 1;
            }
            y_offset = y_offset + 1;
        }
        assert(fb@ =~= drawn_screen(f0, img, px as int, py as int));
        assert(self.cursor_origin_buf@ =~= saved_hidden(f0, img, c0, px as int, py as int));
    }

    /// Moves the cursor to `(pos_x, pos_y)`. A soft cursor is removed from the
    /// frame buffer `fb`, moved, and drawn again; the result tells whether the
    /// hardware cursor must be moved instead.
    pub fn update_cursor(&mut self, fb: &mut [u8], pos_x: u32, pos_y: u32) -> (hardware: bool)
        requires
            old(self).wf(),
        ensures
            final(self).wf(),
            hardware == !old(self).soft(),
            final(self).image() == old(self).image(),
            final(self).soft() == old(self).soft(),
            final(self).visible() == old(self).visible(),
            hardware ==> final(fb)@ == old(fb)@ && final(self).hidden() == old(self).hidden()
                && final(self).position() == old(self).position(),
            !hardware ==> final(self).position() == (pos_x, pos_y),
            !hardware && !old(self).visible() ==> final(self).hidden() == old(self).hidden()
                && final(fb)@ == recovered_screen(old(fb)@, old(self).hidden(), old(self).position().0 as int, old(self).position().1 as int),
            !hardware && old(self).visible() ==> {
                let back = recovered_screen(old(fb)@, old(self).hidden(), old(self).position().0 as int, old(self).position().1 as int);
                &&& final(fb)@ == drawn_screen(back, old(self).image(), pos_x as int, pos_y as int)
                &&& final(self).hidden() == saved_hidden(back, old(self).image(), old(self).hidden(), pos_x as int, pos_y as int)
            },
    {
        if self.use_soft_cursor {
            self.recover_origin_cursor(fb);
            self.cursor_pos = (pos_x, pos_y);
            self.draw_soft_cursor(fb);
            false
        } else {
            true
        }
    }

    /// Saves the four screen bytes at `fb_idx` into the hidden bytes at
    /// `cursor_idx`, then draws the cursor pixel at `cursor_idx` there unless
    /// it is transparent.
    fn save_and_draw_pixel(&mut self, fb: &mut [u8], cursor_idx: usize, fb_idx: usize)
        requires
            old(self).wf(),
            cursor_idx + 3 < old(self).cursor_buf@.len(),
            fb_idx + 3 < old(fb)@.len(),
        ensures
            final(self).wf(),
            final(self).cursor_buf == old(self).cursor_buf,
            final(self).cursor_pos == old(self).cursor_pos,
            final(self).use_soft_cursor == old(self).use_soft_cursor,
            final(self).cursor_visible == old(self).cursor_visible,
            final(fb)@.len() == old(fb)@.len(),
            final(self).cursor_origin_buf@.len() == old(self).cursor_origin_buf@.len(),
            forall|j: int| 0 <= j < old(self).cursor_origin_buf@.len() ==> #[trigger] final(self).cursor_origin_buf@[j] ==
                if cursor_idx <= j < cursor_idx + 4 { old(fb)@[fb_idx + (j - cursor_idx)] } else { old(self).cursor_origin_buf@[j] },
            forall|k: int| 0 <= k < old(fb)@.len() ==> #[trigger] final(fb)@[k] ==
                if fb_idx <= k < fb_idx + 4 && old(self).cursor_buf@[cursor_idx + 3] != 0 {
                    old(self).cursor_buf@[cursor_idx + (k - fb_idx)]
                } else {
                    old(fb)@[k]
                },
    {
        let n = self.cursor_buf.len();
        assert(cursor_idx + 3 < n);
        let b0 = fb[fb_idx];
        let b1 = fb[fb_idx + 1];
        let b2 = fb[fb_idx + 2];
        let b3 = fb[fb_idx + 3];
        let (c1, c2, c3) = (cursor_idx + 1, cursor_idx + 2, cursor_idx + 3);
        self.cursor_origin_buf.set(cursor_idx, b0);
        self.cursor_origin_buf.set(c1, b1);
        self.cursor_origin_buf.set(c2, b2);
        self.cursor_origin_buf.set(c3, b3);
        if self.cursor_buf[cursor_idx + 3] > 0 {
            fb[fb_idx] = self.cursor_buf[cursor_idx];
            fb[fb_idx + 1] = self.cursor_buf[cursor_idx + 1];
            fb[fb_idx + 2] = self.cursor_buf[cursor_idx + 2];
            fb[fb_idx + 3] = self.cursor_buf[cursor_idx + 3];
        }
    }
}

} // verus!

verus! {

/// Drawing the cursor and then taking it away at the same place gives back
/// the screen as it was.
pub proof fn lemma_draw_then_recover(fb: Seq<u8>, img: Seq<u8>, hidden: Seq<u8>, px: u32, py: u32)
    requires
        hidden.len() == img.len(),
        img.len() % 4 != 3,
    ensures
        recovered_screen(drawn_screen(fb, img, px as int, py as int), saved_hidden(fb, img, hidden, px as int, py as int),
            px as int, py as int) == fb,
{
    let x = px as int;
    let y = py as int;
    let d = drawn_screen(fb, img, x, y);
    let h = saved_hidden(fb, img, hidden, x, y);
    let r = recovered_screen(d, h, x, y);
    assert forall|k: int| 0 <= k < fb.len() implies #[trigger] r[k] == fb[k] by {
        if covered(x, y, h.len() as int, d.len() as int, k) {
            let p = k / 4;
            let yo = p / 1280 - y;
            let xo = p % 1280 - x;
            let c = k % 4;
            lemma_byte_in_pixel(x, y, yo, xo, k, 0);
            lemma_pixel(x, y, yo, xo, c);
            let j = cursor_byte(x, y, k);
            assert(j == (yo * 64 + xo) * 4 + c);
            let q = yo * 64 + xo;
            assert(q * 4 + 3 < img.len()) by (nonlinear_arith)
                requires q * 4 + 2 < img.len(), img.len() % 4 != 3, 0 <= q;
            assert(saved(x, y, img.len() as int, fb.len() as int, j));
            assert(screen_byte(x, y, j) == k);
            assert(h[j] == fb[k]);
        }
    }
    assert(r =~= fb);
}

/// For a well-formed cursor, drawing it at its position on any frame buffer
/// and then taking it away gives that frame buffer back.
pub proof fn lemma_cursor_round_trip(c: &CursorState, fb: Seq<u8>)
    requires
        c.wf(),
    ensures
        ({
            let (px, py) = c.position();
            recovered_screen(drawn_screen(fb, c.image(), px as int, py as int),
                saved_hidden(fb, c.image(), c.hidden(), px as int, py as int), px as int, py as int) == fb
        }),
{
    c.lemma_wf();
    lemma_draw_then_recover(fb, c.image(), c.hidden(), c.position().0, c.position().1);
}

/// The cursor covers the whole 64 by 64 square at its position: for a pixel
/// `(xo, yo)` of the square that is on the screen (and not the last pixel of
/// the frame buffer), drawing puts there the image pixel `yo * 64 + xo` if it
/// is opaque, saving keeps the screen pixel in that image pixel, and taking
/// the cursor away puts the saved pixel back there.
pub proof fn lemma_cursor_square(fb: Seq<u8>, img: Seq<u8>, hidden: Seq<u8>, px: u32, py: u32, xo: int, yo: int, c: int)
    requires
        0 <= xo < 64,
        0 <= yo < 64,
        0 <= c < 4,
        py + yo < VIRTGPU_YRES,
        px + xo < VIRTGPU_XRES,
        ((py + yo) * 1280 + px + xo) * 4 + 4 < fb.len(),
        (yo * 64 + xo) * 4 + 3 < img.len(),
        hidden.len() == img.len(),
    ensures
        ({
            let k = ((py + yo) * 1280 + px + xo) * 4 + c;
            let j = (yo * 64 + xo) * 4 + c;
            &&& drawn_screen(fb, img, px as int, py as int)[k] == if img[(yo * 64 + xo) * 4 + 3] != 0 { img[j] } else { fb[k] }
            &&& saved_hidden(fb, img, hidden, px as int, py as int)[j] == fb[k]
            &&& recovered_screen(fb, hidden, px as int, py as int)[k] == hidden[j]
        }),
{
    let x = px as int;
    let y = py as int;
    lemma_pixel(x, y, yo, xo, c);
    let k = ((y + yo) * 1280 + x + xo) * 4 + c;
    let j = (yo * 64 + xo) * 4 + c;
    assert(covered(x, y, img.len() as int, fb.len() as int, k));
    assert(covered(x, y, hidden.len() as int, fb.len() as int, k));
    assert(cursor_byte(x, y, k) == j);
    assert(cursor_pixel_base(x, y, k) == (yo * 64 + xo) * 4);
    assert(saved(x, y, img.len() as int, fb.len() as int, j));
    assert(screen_byte(x, y, j) == k);
}

/// The cursor leaves alone every screen pixel outside the 64 by 64 square at
/// its position: drawing and taking it away change nothing there.
pub proof fn lemma_cursor_outside_square(fb: Seq<u8>, img: Seq<u8>, hidden: Seq<u8>, px: u32, py: u32, k: int)
    requires
        0 <= k < fb.len(),
        !(py <= (k / 4) / 1280 < py + 64 && px <= (k / 4) % 1280 < px + 64),
    ensures
        drawn_screen(fb, img, px as int, py as int)[k] == fb[k],
        recovered_screen(fb, hidden, px as int, py as int)[k] == fb[k],
{
}

} // verus!
