//! Raster pipeline: grayscale images, binarization and packing into wire lines.
use vstd::prelude::*;

use crate::codec::{BYTES_PER_LINE, MAX_DOTS_PER_LINE, PACKED_LINE_BYTES, PackedLine};

verus! {

/// A grayscale image, row-major, one byte per pixel (0 is black, 255 white).
#[derive(Debug, Clone)]
pub struct GrayImage {
    pub width: usize,
    pub height: usize,
    pub pixels: Vec<u8>,
}

impl GrayImage {
    pub open spec fn wf(&self) -> bool {
        self.pixels@.len() == self.width * self.height
    }

    /// The pixel at column `x` of row `y`.
    pub open spec fn pixel(&self, x: int, y: int) -> u8 {
        self.pixels@[y * self.width + x]
    }

    /// An image of the given size with every pixel set to `value`; `None` when
    /// the pixel count does not fit in memory.
    pub fn from_pixel(width: usize, height: usize, value: u8) -> (r: Option<GrayImage>)
        ensures
            width * height <= usize::MAX <==> r is Some,
            r matches Some(img) ==> img.wf() && img.width == width && img.height == height
                && forall|i: int| 0 <= i < img.pixels@.len() ==> #[trigger] img.pixels@[i] == value,
    {
        let n = width.checked_mul(height);
        match n {
            None => None,
            Some(n) => {
                let mut pixels: Vec<u8> = Vec::new();
                let mut i: usize = 0;
                while i < n
                    invariant
                        i <= n,
                        pixels@.len() == i,
                        forall|j: int| 0 <= j < i ==> #[trigger] pixels@[j] == value,
                    decreases n - i,
                {
                    pixels.push(value);
                    i = i + 1;
                }
                Some(GrayImage { width, height, pixels })
            },
        }
    }

    /// Wraps row-major pixels; `None` unless there are exactly `width * height` of them.
    pub fn from_raw(width: usize, height: usize, pixels: Vec<u8>) -> (r: Option<GrayImage>)
        ensures
            (width * height == pixels@.len()) <==> r is Some,
            r matches Some(img) ==> img.wf() && img.width == width && img.height == height
                && img.pixels@ == pixels@,
    {
        let len = pixels.len();
        match width.checked_mul(height) {
            Some(n) => {
                if n == len {
                    Some(GrayImage { width, height, pixels })
                } else {
                    None
                }
            },
            None => None,
        }
    }

    pub fn get_pixel(&self, x: usize, y: usize) -> (r: u8)
        requires
            self.wf(),
            x < self.width,
            y < self.height,
        ensures
            r == self.pixel(x as int, y as int),
    {
        let len = self.pixels.len();
        proof {
            lemma_index_in_bounds(self.width as int, self.height as int, x as int, y as int);
        }
        self.pixels[y * self.width + x]
    }

    /// Flips every pixel (`255 - v`).
    pub fn invert(&mut self)
        requires
            old(self).wf(),
        ensures
            final(self).wf(),
            final(self).width == old(self).width,
            final(self).height == old(self).height,
            forall|i: int|
                0 <= i < final(self).pixels@.len() ==> #[trigger] final(self).pixels@[i] == 255
                    - old(self).pixels@[i],
    {
        let n = self.pixels.len();
        let mut i: usize = 0;
        while i < n
            invariant
                i <= n,
                n == old(self).pixels@.len(),
                self.pixels@.len() == n,
                self.width == old(self).width,
                self.height == old(self).height,
                forall|j: int| 0 <= j < i ==> #[trigger] self.pixels@[j] == 255 - old(self).pixels@[j],
                forall|j: int| i <= j < n ==> #[trigger] self.pixels@[j] == old(self).pixels@[j],
            decreases n - i,
        {
            let v = self.pixels[i];
            self.pixels.set(i, 255 - v);
            i = i + 1;
        }
    }
}

proof fn lemma_index_in_bounds(w: int, h: int, x: int, y: int)
    requires
        0 <= x < w,
        0 <= y < h,
    ensures
        0 <= y * w + x < w * h,
{
    assert(y * w + x < w * h) by (nonlinear_arith)
        requires
            0 <= x < w,
            0 <= y < h,
    ;
    assert(0 <= y * w) by (nonlinear_arith)
        requires
            0 <= y,
            0 <= x < w,
    ;
}

// ---------------------------------------------------------------------------
// Packing
// ---------------------------------------------------------------------------

/// Columns that reach the print head: the width, at most 384.
pub open spec fn print_width(img: GrayImage) -> int {
    if img.width < MAX_DOTS_PER_LINE {
        img.width as int
    } else {
        MAX_DOTS_PER_LINE as int
    }
}

/// Whether the dot at `(x, y)` is printed: inside the printed area and no lighter than `threshold`.
pub open spec fn is_ink(img: GrayImage, threshold: u8, x: int, y: int) -> bool {
    0 <= x < print_width(img) && 0 <= y < img.height && img.pixel(x, y) <= threshold
}

/// The first `k` dots of byte `b` of row `y`, read as a number, most significant first.
pub open spec fn dot_bits(img: GrayImage, threshold: u8, y: int, b: int, k: nat) -> nat
    decreases k,
{
    if k == 0 {
        0
    } else {
        dot_bits(img, threshold, y, b, (k - 1) as nat) * 2 + if is_ink(
            img,
            threshold,
            b * 8 + k - 1,
            y,
        ) {
            1nat
        } else {
            0nat
        }
    }
}

/// Wire line `l`: rows `2l` and `2l + 1`, 48 bytes each, bit 7 of a byte is its leftmost dot.
pub open spec fn packed_line(img: GrayImage, threshold: u8, l: int) -> Seq<u8> {
    Seq::new(
        PACKED_LINE_BYTES as nat,
        |i: int|
            dot_bits(
                img,
                threshold,
                2 * l + i / (BYTES_PER_LINE as int),
                i % (BYTES_PER_LINE as int),
                8,
            ) as u8,
    )
}

/// Number of wire lines for an image: its rows taken two at a time.
pub open spec fn line_count(img: GrayImage) -> int {
    (img.height as int + 1) / 2
}

/// The bytes of each wire line.
pub open spec fn lines_view(lines: Seq<PackedLine>) -> Seq<Seq<u8>> {
    lines.map_values(|l: PackedLine| l@)
}

proof fn lemma_lines_view_push(v: Seq<PackedLine>, x: PackedLine)
    ensures
        lines_view(v.push(x)) == lines_view(v).push(x@),
{
    assert(lines_view(v.push(x)) =~= lines_view(v).push(x@));
}

/// All the wire lines of an image, untrimmed.
pub open spec fn packed_lines(img: GrayImage, threshold: u8) -> Seq<Seq<u8>> {
    Seq::new(line_count(img) as nat, |l: int| packed_line(img, threshold, l))
}

proof fn lemma_dot_bits_bound(img: GrayImage, threshold: u8, y: int, b: int, k: nat)
    ensures
        dot_bits(img, threshold, y, b, k) < pow2(k),
    decreases k,
{
    if k > 0 {
        lemma_dot_bits_bound(img, threshold, y, b, (k - 1) as nat);
        assert(pow2(k) == 2 * pow2((k - 1) as nat));
    }
}

pub open spec fn pow2(k: nat) -> nat
    decreases k,
{
    if k == 0 {
        1
    } else {
        2 * pow2((k - 1) as nat)
    }
}

fn pack_byte(img: &GrayImage, threshold: u8, width: usize, y: usize, b: usize) -> (r: u8)
    requires
        img.wf(),
        width == print_width(*img),
        y < img.height,
        b < BYTES_PER_LINE,
    ensures
        r as nat == dot_bits(*img, threshold, y as int, b as int, 8),
{
    let mut acc: u8 = 0;
    let mut k: usize = 0;
    while k < 8
        invariant
            k <= 8,
            img.wf(),
            width == print_width(*img),
            y < img.height,
            b < BYTES_PER_LINE,
            acc as nat == dot_bits(*img, threshold, y as int, b as int, k as nat),
        decreases 8 - k,
    {
        proof {
            lemma_dot_bits_bound(*img, threshold, y as int, b as int, k as nat);
            assert(pow2(k as nat) <= 128) by {
                assert(pow2(0) == 1);
                assert(pow2(1) == 2);
                assert(pow2(2) == 4);
                assert(pow2(3) == 8);
                assert(pow2(4) == 16);
                assert(pow2(5) == 32);
                assert(pow2(6) == 64);
                assert(pow2(7) == 128);
            }
        }
        let x = b * 8 + k;
        let ink = x < width && img.get_pixel(x, y) <= threshold;
        acc = acc * 2 + if ink { 1 } else { 0 };
        k = k + 1;
    }
    acc
}

fn pack_line(img: &GrayImage, threshold: u8, width: usize, l: usize) -> (r: PackedLine)
    requires
        img.wf(),
        width == print_width(*img),
        l < line_count(*img),
    ensures
        r@ == packed_line(*img, threshold, l as int),
{
    let mut line: PackedLine = [0u8; PACKED_LINE_BYTES];
    let mut i: usize = 0;
    while i < PACKED_LINE_BYTES
        invariant
            i <= PACKED_LINE_BYTES,
            img.wf(),
            width == print_width(*img),
            l < line_count(*img),
            line@.len() == PACKED_LINE_BYTES,
            forall|j: int| 0 <= j < i ==> #[trigger] line@[j] == packed_line(*img, threshold, l as int)[j],
            forall|j: int| i <= j < PACKED_LINE_BYTES ==> #[trigger] line@[j] == 0,
        decreases PACKED_LINE_BYTES - i,
    {
        let row = i / BYTES_PER_LINE;
        let y = 2 * l + row;
        if y < img.height {
            line[i] = pack_byte(img, threshold, width, y, i % BYTES_PER_LINE);
        } else {
            proof {
                lemma_no_ink_past_end(*img, threshold, y as int, (i % BYTES_PER_LINE) as int, 8);
            }
        }
        i = i + 1;
    }
    proof {
        assert(line@ =~= packed_line(*img, threshold, l as int));
    }
    line
}

proof fn lemma_no_ink_past_end(img: GrayImage, threshold: u8, y: int, b: int, k: nat)
    requires
        y >= img.height,
    ensures
        dot_bits(img, threshold, y, b, k) == 0,
    decreases k,
{
    if k > 0 {
        lemma_no_ink_past_end(img, threshold, y, b, (k - 1) as nat);
    }
}

/// Packs an image into wire lines; a dot is printed where the pixel is no lighter
/// than `threshold`. With `trim_blank`, blank lines at the top and bottom are dropped.
pub fn image_to_packed_lines(img: &GrayImage, threshold: u8, trim_blank: bool) -> (r: Vec<PackedLine>)
    requires
        img.wf(),
    ensures
        lines_view(r@) == if trim_blank {
            trim(packed_lines(*img, threshold))
        } else {
            packed_lines(*img, threshold)
        },
        forall|i: int| 0 <= i < r@.len() ==> (#[trigger] r@[i])@.len() == PACKED_LINE_BYTES,
{
    let width = if img.width < MAX_DOTS_PER_LINE {
        img.width
    } else {
        MAX_DOTS_PER_LINE
    };
    let n = img.height / 2 + img.height % 2;
    let mut out: Vec<PackedLine> = Vec::new();
    let mut l: usize = 0;
    while l < n
        invariant
            l <= n,
            n == line_count(*img),
            img.wf(),
            width == print_width(*img),
            lines_view(out@) == packed_lines(*img, threshold).subrange(0, l as int),
        decreases n - l,
    {
        let line = pack_line(img, threshold, width, l);
        proof {
            lemma_lines_view_push(out@, line);
        }
        out.push(line);
        l = l + 1;
        proof {
            assert(lines_view(out@) =~= packed_lines(*img, threshold).subrange(0, l as int));
        }
    }
    proof {
        assert(packed_lines(*img, threshold).subrange(0, n as int) =~= packed_lines(*img, threshold));
    }
    if trim_blank {
        trim_blank_lines(&out)
    } else {
        out
    }
}

/// Packs a black-and-white image: a dot is printed where the pixel is 0.
pub fn pack_bw_image(img: &GrayImage, trim_blank: bool) -> (r: Vec<PackedLine>)
    requires
        img.wf(),
    ensures
        lines_view(r@) == if trim_blank {
            trim(packed_lines(*img, 0))
        } else {
            packed_lines(*img, 0)
        },
{
    image_to_packed_lines(img, 0, trim_blank)
}

/// Bit `k` (0 is the most significant) of a byte.
pub open spec fn bit_at(byte: u8, k: int) -> bool {
    (byte as int / pow2((7 - k) as nat) as int) % 2 == 1
}

/// The pixel at `(x, y)` read back from wire lines: black where its dot is set.
pub open spec fn unpacked_pixel(lines: Seq<Seq<u8>>, x: int, y: int) -> u8 {
    if bit_at(lines[y / 2][(y % 2) * (BYTES_PER_LINE as int) + x / 8], x % 8) {
        0
    } else {
        255
    }
}

proof fn lemma_pow2_pos(k: nat)
    ensures
        pow2(k) > 0,
    decreases k,
{
    if k > 0 {
        lemma_pow2_pos((k - 1) as nat);
    }
}

proof fn lemma_dot_bits_bit(img: GrayImage, threshold: u8, y: int, b: int, n: nat, k: nat)
    requires
        k < n,
    ensures
        (dot_bits(img, threshold, y, b, n) / pow2((n - 1 - k) as nat)) % 2 == if is_ink(
            img,
            threshold,
            b * 8 + k,
            y,
        ) {
            1int
        } else {
            0int
        },
    decreases n,
{
    let prev = dot_bits(img, threshold, y, b, (n - 1) as nat);
    let c: int = if is_ink(img, threshold, b * 8 + n - 1, y) {
        1
    } else {
        0
    };
    assert(dot_bits(img, threshold, y, b, n) == prev * 2 + c);
    if k == n - 1 {
        assert(pow2(0) == 1);
        assert((prev * 2 + c) / 1 == prev * 2 + c);
        assert((prev * 2 + c) % 2 == c) by (nonlinear_arith)
            requires
                0 <= c < 2,
                prev >= 0,
        ;
    } else {
        lemma_dot_bits_bit(img, threshold, y, b, (n - 1) as nat, k);
        let m = pow2((n - 2 - k) as nat);
        lemma_pow2_pos((n - 2 - k) as nat);
        assert(pow2((n - 1 - k) as nat) == 2 * m);
        assert((prev * 2 + c) / 2 == prev) by (nonlinear_arith)
            requires
                0 <= c < 2,
                prev >= 0,
        ;
        vstd::arithmetic::div_mod::lemma_div_denominator(prev * 2 + c, 2, m as int);
    }
}

/// Packing is undone by unpacking: a black-and-white image at most 384 dots wide
/// and of even height is read back unchanged from the lines `pack_bw_image` makes.
pub proof fn lemma_unpack_pack(img: GrayImage)
    requires
        img.wf(),
        img.width <= MAX_DOTS_PER_LINE,
        img.height % 2 == 0,
        forall|i: int| 0 <= i < img.pixels@.len() ==> #[trigger] img.pixels@[i] == 0
            || img.pixels@[i] == 255,
    ensures
        forall|x: int, y: int|
            0 <= x < img.width && 0 <= y < img.height ==> #[trigger] unpacked_pixel(
                packed_lines(img, 0),
                x,
                y,
            ) == img.pixel(x, y),
{
    assert forall|x: int, y: int| 0 <= x < img.width && 0 <= y < img.height implies #[trigger] unpacked_pixel(
        packed_lines(img, 0),
        x,
        y,
    ) == img.pixel(x, y) by {
        let l = y / 2;
        let row = y % 2;
        let i = row * 48 + x / 8;
        assert(0 <= i < 96);
        assert(i / 48 == row && i % 48 == x / 8);
        assert(2 * l + row == y);
        let byte = packed_line(img, 0, l)[i];
        assert(l < line_count(img));
        assert(packed_lines(img, 0)[l] == packed_line(img, 0, l));
        let v = dot_bits(img, 0, y, x / 8, 8);
        lemma_dot_bits_bound(img, 0, y, x / 8, 8);
        assert(pow2(8) == 256) by {
            assert(pow2(0) == 1);
            assert(pow2(1) == 2);
            assert(pow2(2) == 4);
            assert(pow2(3) == 8);
            assert(pow2(4) == 16);
            assert(pow2(5) == 32);
            assert(pow2(6) == 64);
            assert(pow2(7) == 128);
        }
        assert(byte as int == v);
        lemma_dot_bits_bit(img, 0, y, x / 8, 8, (x % 8) as nat);
        assert((x / 8) * 8 + x % 8 == x);
        lemma_index_in_bounds(img.width as int, img.height as int, x, y);
        assert(img.pixel(x, y) == 0 || img.pixel(x, y) == 255);
    }
}

// ---------------------------------------------------------------------------
// Blank trim
// ---------------------------------------------------------------------------

pub open spec fn is_blank(line: Seq<u8>) -> bool {
    forall|i: int| 0 <= i < line.len() ==> #[trigger] line[i] == 0
}

/// The lines from the first non-blank one on.
pub open spec fn drop_leading_blank(s: Seq<Seq<u8>>) -> Seq<Seq<u8>>
    decreases s.len(),
{
    if s.len() > 0 && is_blank(s[0]) {
        drop_leading_blank(s.drop_first())
    } else {
        s
    }
}

/// The lines up to the last non-blank one.
pub open spec fn drop_trailing_blank(s: Seq<Seq<u8>>) -> Seq<Seq<u8>>
    decreases s.len(),
{
    if s.len() > 0 && is_blank(s.last()) {
        drop_trailing_blank(s.drop_last())
    } else {
        s
    }
}

/// Blank lines dropped at both ends; all-blank input gives nothing.
pub open spec fn trim(s: Seq<Seq<u8>>) -> Seq<Seq<u8>> {
    drop_trailing_blank(drop_leading_blank(s))
}

proof fn lemma_drop_leading_shape(s: Seq<Seq<u8>>)
    ensures
        drop_leading_blank(s).len() <= s.len(),
        drop_leading_blank(s) == s.subrange(s.len() - drop_leading_blank(s).len(), s.len() as int),
        drop_leading_blank(s).len() > 0 ==> !is_blank(drop_leading_blank(s)[0]),
        (forall|i: int| 0 <= i < s.len() ==> is_blank(#[trigger] s[i])) ==> drop_leading_blank(
            s,
        ).len() == 0,
    decreases s.len(),
{
    if s.len() > 0 && is_blank(s[0]) {
        let rest = s.drop_first();
        lemma_drop_leading_shape(rest);
        assert(rest.subrange(rest.len() - drop_leading_blank(rest).len(), rest.len() as int)
            =~= s.subrange(s.len() - drop_leading_blank(rest).len(), s.len() as int));
        if forall|i: int| 0 <= i < s.len() ==> is_blank(#[trigger] s[i]) {
            assert forall|i: int| 0 <= i < rest.len() implies is_blank(#[trigger] rest[i]) by {
                assert(rest[i] == s[i + 1]);
            }
        }
    } else {
        assert(s.subrange(0, s.len() as int) =~= s);
    }
}

proof fn lemma_drop_trailing_shape(s: Seq<Seq<u8>>)
    ensures
        drop_trailing_blank(s).len() <= s.len(),
        drop_trailing_blank(s) == s.subrange(0, drop_trailing_blank(s).len() as int),
        drop_trailing_blank(s).len() > 0 ==> !is_blank(drop_trailing_blank(s).last()),
    decreases s.len(),
{
    if s.len() > 0 && is_blank(s.last()) {
        let rest = s.drop_last();
        lemma_drop_trailing_shape(rest);
        assert(rest.subrange(0, drop_trailing_blank(rest).len() as int) =~= s.subrange(
            0,
            drop_trailing_blank(rest).len() as int,
        ));
    } else {
        assert(s.subrange(0, s.len() as int) =~= s);
    }
}

/// Blank trim is idempotent: trimming what was trimmed changes nothing; and
/// lines that are all blank trim to nothing.
pub proof fn lemma_trim_idempotent(lines: Seq<Seq<u8>>)
    ensures
        trim(trim(lines)) == trim(lines),
        (forall|i: int| 0 <= i < lines.len() ==> is_blank(#[trigger] lines[i])) ==> trim(lines).len()
            == 0,
{
    let lead = drop_leading_blank(lines);
    lemma_drop_leading_shape(lines);
    lemma_drop_trailing_shape(lead);
    let t = drop_trailing_blank(lead);
    if t.len() > 0 {
        assert(t[0] == lead[0]);
        assert(drop_leading_blank(t) == t);
        lemma_drop_trailing_shape(t);
        assert(drop_trailing_blank(t) == t);
    } else {
        assert(drop_leading_blank(t) == t);
        assert(drop_trailing_blank(t) == t);
    }
    if forall|i: int| 0 <= i < lines.len() ==> is_blank(#[trigger] lines[i]) {
        assert(lead.len() == 0);
        assert(drop_trailing_blank(lead) == lead);
    }
}

fn line_is_blank(line: &PackedLine) -> (r: bool)
    ensures
        r == is_blank(line@),
{
    let mut i: usize = 0;
    while i < PACKED_LINE_BYTES
        invariant
            i <= PACKED_LINE_BYTES,
            line@.len() == PACKED_LINE_BYTES,
            forall|j: int| 0 <= j < i ==> #[trigger] line@[j] == 0,
        decreases PACKED_LINE_BYTES - i,
    {
        if line[i] != 0 {
            return false;
        }
        i = i + 1;
    }
    true
}

/// Drops blank lines at the top and bottom.
pub fn trim_blank_lines(lines: &Vec<PackedLine>) -> (r: Vec<PackedLine>)
    ensures
        lines_view(r@) == trim(lines_view(lines@)),
{
    let ghost s = lines_view(lines@);
    let n = lines.len();
    proof {
        assert(s.subrange(0, n as int) =~= s);
    }
    let mut start: usize = 0;
    while start < n && line_is_blank(&lines[start])
        invariant
            start <= n,
            n == lines@.len(),
            s == lines_view(lines@),
            drop_leading_blank(s.subrange(start as int, n as int)) == drop_leading_blank(s),
        decreases n - start,
    {
        proof {
            assert(s.subrange(start as int, n as int).drop_first() =~= s.subrange(
                start as int + 1,
                n as int,
            ));
        }
        start = start + 1;
    }
    let ghost lead = s.subrange(start as int, n as int);
    proof {
        assert(drop_leading_blank(lead) == lead);
    }
    let mut end: usize = n;
    while end > start && line_is_blank(&lines[end - 1])
        invariant
            start <= end <= n,
            n == lines@.len(),
            s == lines_view(lines@),
            lead == s.subrange(start as int, n as int),
            drop_trailing_blank(s.subrange(start as int, end as int)) == drop_trailing_blank(lead),
        decreases end - start,
    {
        proof {
            assert(s.subrange(start as int, end as int).drop_last() =~= s.subrange(
                start as int,
                end as int - 1,
            ));
        }
        end = end - 1;
    }
    proof {
        assert(drop_trailing_blank(s.subrange(start as int, end as int)) == s.subrange(
            start as int,
            end as int,
        ));
    }
    let mut out: Vec<PackedLine> = Vec::new();
    let mut i: usize = start;
    while i < end
        invariant
            start <= i <= end <= n,
            n == lines@.len(),
            s == lines_view(lines@),
            lines_view(out@) == s.subrange(start as int, i as int),
        decreases end - i,
    {
        proof {
            lemma_lines_view_push(out@, lines@[i as int]);
        }
        out.push(lines[i]);
        i = i + 1;
        proof {
            assert(lines_view(out@) =~= s.subrange(start as int, i as int));
        }
    }
    out
}

// ---------------------------------------------------------------------------
// Binarization
// ---------------------------------------------------------------------------

/// How a grayscale image is turned into black and white.
#[derive(Debug, Clone, Copy, PartialEq, Eq, Structural)]
pub enum DitherMethod {
    Threshold,
    FloydSteinberg,
}

/// A pixel's value after the optional inversion.
pub open spec fn oriented(v: u8, invert: bool) -> int {
    if invert {
        255 - v
    } else {
        v as int
    }
}

/// Plain thresholding of one pixel: black when no lighter than `threshold`.
pub open spec fn threshold_pixel(v: u8, threshold: u8, invert: bool) -> u8 {
    if oriented(v, invert) <= threshold {
        0
    } else {
        255
    }
}

/// Every pixel thresholded on its own; the size is kept.
pub fn threshold_binarize(gray: &GrayImage, threshold: u8, invert: bool) -> (r: GrayImage)
    requires
        gray.wf(),
    ensures
        r.wf(),
        r.width == gray.width,
        r.height == gray.height,
        forall|i: int|
            0 <= i < r.pixels@.len() ==> #[trigger] r.pixels@[i] == threshold_pixel(
                gray.pixels@[i],
                threshold,
                invert,
            ),
{
    let n = gray.pixels.len();
    let mut pixels: Vec<u8> = Vec::new();
    let mut i: usize = 0;
    while i < n
        invariant
            i <= n,
            n == gray.pixels@.len(),
            pixels@.len() == i,
            forall|j: int|
                0 <= j < i ==> #[trigger] pixels@[j] == threshold_pixel(
                    gray.pixels@[j],
                    threshold,
                    invert,
                ),
        decreases n - i,
    {
        let mut v = gray.pixels[i];
        if invert {
            v = 255 - v;
        }
        let bw: u8 = if v <= threshold {
            0
        } else {
            255
        };
        pixels.push(bw);
        i = i + 1;
    }
    GrayImage { width: gray.width, height: gray.height, pixels }
}

/// Error diffusion works in fixed point: one gray level is this many units.
pub const FS_UNIT: i64 = 256;

/// White in fixed point.
pub const FS_WHITE: i64 = 65280;

/// Bound on a stored value. The error that reaches a pixel is a weighted mean of
/// errors within one gray range, so this bound is never met; it only keeps the
/// arithmetic finite.
pub const FS_CAP: i64 = 1048576;

pub open spec fn clamp(v: int, lo: int, hi: int) -> int {
    if v < lo {
        lo
    } else if v > hi {
        hi
    } else {
        v
    }
}

/// The value a pixel is quantized from: its buffer value, clamped to the gray range.
pub open spec fn fs_old(v: int) -> int {
    clamp(v, 0, FS_WHITE as int)
}

/// The quantized value: black when no lighter than the threshold, else white.
pub open spec fn fs_new(v: int, threshold: u8) -> int {
    if fs_old(v) <= threshold as int * FS_UNIT {
        0
    } else {
        FS_WHITE as int
    }
}

/// The fraction `k / 16` of an error, rounded toward zero.
pub open spec fn fs_share(err: int, k: int) -> int {
    if err >= 0 {
        err * k / 16
    } else {
        -((-err) * k / 16)
    }
}

/// Adds `d` to entry `i`, within the bound.
pub open spec fn fs_add(buf: Seq<int>, i: int, d: int) -> Seq<int> {
    buf.update(i, clamp(buf[i] + d, -FS_CAP as int, FS_CAP as int))
}

/// Quantizes pixel `idx` and spreads its error: 7/16 right, 3/16 down-left,
/// 5/16 down, 1/16 down-right.
pub open spec fn fs_diffuse(buf: Seq<int>, idx: int, w: int, h: int, threshold: u8) -> Seq<int> {
    let err = fs_old(buf[idx]) - fs_new(buf[idx], threshold);
    let x = idx % w;
    let y = idx / w;
    let b1 = if x + 1 < w {
        fs_add(buf, idx + 1, fs_share(err, 7))
    } else {
        buf
    };
    let b2 = if y + 1 < h && x > 0 {
        fs_add(b1, idx + w - 1, fs_share(err, 3))
    } else {
        b1
    };
    let b3 = if y + 1 < h {
        fs_add(b2, idx + w, fs_share(err, 5))
    } else {
        b2
    };
    if y + 1 < h && x + 1 < w {
        fs_add(b3, idx + w + 1, fs_share(err, 1))
    } else {
        b3
    }
}

/// The buffer before pixel `k` is quantized.
pub open spec fn fs_buffer(gray: GrayImage, threshold: u8, invert: bool, k: nat) -> Seq<int>
    decreases k,
{
    if k == 0 {
        Seq::new(gray.pixels@.len(), |i: int| oriented(gray.pixels@[i], invert) * FS_UNIT)
    } else {
        fs_diffuse(
            fs_buffer(gray, threshold, invert, (k - 1) as nat),
            k - 1,
            gray.width as int,
            gray.height as int,
            threshold,
        )
    }
}

/// Output pixel `i` of Floyd-Steinberg dithering.
pub open spec fn fs_pixel(gray: GrayImage, threshold: u8, invert: bool, i: int) -> u8 {
    if fs_new(fs_buffer(gray, threshold, invert, i as nat)[i], threshold) == 0 {
        0
    } else {
        255
    }
}

pub open spec fn ints(v: Seq<i64>) -> Seq<int> {
    v.map_values(|x: i64| x as int)
}

pub open spec fn within_cap(v: Seq<int>) -> bool {
    forall|i: int| 0 <= i < v.len() ==> -FS_CAP <= #[trigger] v[i] <= FS_CAP
}

proof fn lemma_fs_buffer_shape(gray: GrayImage, threshold: u8, invert: bool, k: nat)
    requires
        gray.wf(),
        k <= gray.pixels@.len(),
    ensures
        fs_buffer(gray, threshold, invert, k).len() == gray.pixels@.len(),
        within_cap(fs_buffer(gray, threshold, invert, k)),
    decreases k,
{
    if k > 0 {
        lemma_fs_buffer_shape(gray, threshold, invert, (k - 1) as nat);
        lemma_fs_diffuse_shape(
            fs_buffer(gray, threshold, invert, (k - 1) as nat),
            k - 1,
            gray.width as int,
            gray.height as int,
            threshold,
        );
    } else {
        let b = fs_buffer(gray, threshold, invert, 0);
        assert forall|i: int| 0 <= i < b.len() implies -FS_CAP <= #[trigger] b[i] <= FS_CAP by {
            assert(0 <= oriented(gray.pixels@[i], invert) <= 255);
        }
    }
}

proof fn lemma_fs_add_shape(buf: Seq<int>, i: int, d: int)
    requires
        0 <= i < buf.len(),
        within_cap(buf),
    ensures
        fs_add(buf, i, d).len() == buf.len(),
        within_cap(fs_add(buf, i, d)),
{
}

proof fn lemma_fs_diffuse_shape(buf: Seq<int>, idx: int, w: int, h: int, threshold: u8)
    requires
        buf.len() == w * h,
        0 <= idx < w * h,
        w >= 0,
        within_cap(buf),
    ensures
        fs_diffuse(buf, idx, w, h, threshold).len() == buf.len(),
        within_cap(fs_diffuse(buf, idx, w, h, threshold)),
{
    lemma_neighbours(idx, w, h);
    let err = fs_old(buf[idx]) - fs_new(buf[idx], threshold);
    let x = idx % w;
    let y = idx / w;
    let b1 = if x + 1 < w {
        fs_add(buf, idx + 1, fs_share(err, 7))
    } else {
        buf
    };
    if x + 1 < w {
        lemma_fs_add_shape(buf, idx + 1, fs_share(err, 7));
    }
    let b2 = if y + 1 < h && x > 0 {
        fs_add(b1, idx + w - 1, fs_share(err, 3))
    } else {
        b1
    };
    if y + 1 < h && x > 0 {
        lemma_fs_add_shape(b1, idx + w - 1, fs_share(err, 3));
    }
    let b3 = if y + 1 < h {
        fs_add(b2, idx + w, fs_share(err, 5))
    } else {
        b2
    };
    if y + 1 < h {
        lemma_fs_add_shape(b2, idx + w, fs_share(err, 5));
    }
    if y + 1 < h && x + 1 < w {
        lemma_fs_add_shape(b3, idx + w + 1, fs_share(err, 1));
    }
}

proof fn lemma_ints_push(v: Seq<i64>, x: i64)
    ensures
        ints(v.push(x)) == ints(v).push(x as int),
{
    assert(ints(v.push(x)) =~= ints(v).push(x as int));
}

fn fs_add_exec(buf: &mut Vec<i64>, i: usize, d: i64)
    requires
        i < old(buf)@.len(),
        within_cap(ints(old(buf)@)),
        -FS_CAP <= d <= FS_CAP,
    ensures
        final(buf)@.len() == old(buf)@.len(),
        ints(final(buf)@) == fs_add(ints(old(buf)@), i as int, d as int),
        within_cap(ints(final(buf)@)),
{
    proof {
        assert(ints(buf@)[i as int] == buf@[i as int] as int);
    }
    let v = buf[i] + d;
    let c = if v < -FS_CAP {
        -FS_CAP
    } else if v > FS_CAP {
        FS_CAP
    } else {
        v
    };
    buf.set(i, c);
    proof {
        assert(ints(buf@) =~= fs_add(ints(old(buf)@), i as int, d as int));
    }
}

fn fs_share_exec(err: i64, k: i64) -> (r: i64)
    requires
        -FS_WHITE <= err <= FS_WHITE,
        0 <= k <= 16,
    ensures
        r == fs_share(err as int, k as int),
        -FS_CAP <= r <= FS_CAP,
{
    if err >= 0 {
        assert(err * k <= FS_WHITE * 16) by (nonlinear_arith)
            requires
                0 <= err <= FS_WHITE,
                0 <= k <= 16,
        ;
        err * k / 16
    } else {
        assert((-err) * k <= FS_WHITE * 16) by (nonlinear_arith)
            requires
                0 <= -err <= FS_WHITE,
                0 <= k <= 16,
        ;
        -((-err) * k / 16)
    }
}

proof fn lemma_neighbours(idx: int, w: int, h: int)
    requires
        0 <= idx < w * h,
        w >= 0,
    ensures
        w > 0,
        idx / w < h,
        idx == (idx / w) * w + idx % w,
        idx % w + 1 < w ==> idx + 1 < w * h,
        idx / w + 1 < h ==> idx + w < w * h,
        idx / w + 1 < h && idx % w + 1 < w ==> idx + w + 1 < w * h,
        idx / w + 1 < h && idx % w > 0 ==> 0 <= idx + w - 1,
{
    assert(w > 0) by (nonlinear_arith)
        requires
            w >= 0,
            0 <= idx < w * h,
    ;
    let y = idx / w;
    let x = idx % w;
    assert(idx == y * w + x && 0 <= x < w && 0 <= y) by (nonlinear_arith)
        requires
            w > 0,
            idx >= 0,
            y == idx / w,
            x == idx % w,
    ;
    assert(y < h) by (nonlinear_arith)
        requires
            idx == y * w + x,
            0 <= x,
            idx < w * h,
            w > 0,
    ;
    assert((y + 1) * w <= w * h) by (nonlinear_arith)
        requires
            0 <= y < h,
            w > 0,
    ;
    assert((y + 1) * w == y * w + w) by (nonlinear_arith);
    if y + 1 < h {
        assert((y + 2) * w <= w * h) by (nonlinear_arith)
            requires
                0 <= y,
                y + 1 < h,
                w > 0,
        ;
        assert((y + 2) * w == y * w + w + w) by (nonlinear_arith);
    }
}

/// Floyd-Steinberg error diffusion: row by row, each pixel is quantized against
/// the threshold and its error is spread to the pixels not yet visited.
pub fn floyd_steinberg_binarize(gray: &GrayImage, threshold: u8, invert: bool) -> (r: GrayImage)
    requires
        gray.wf(),
    ensures
        r.wf(),
        r.width == gray.width,
        r.height == gray.height,
        forall|i: int|
            0 <= i < r.pixels@.len() ==> #[trigger] r.pixels@[i] == fs_pixel(
                *gray,
                threshold,
                invert,
                i,
            ),
{
    let n = gray.pixels.len();
    let w = gray.width;
    let h = gray.height;
    let mut buf: Vec<i64> = Vec::new();
    let mut i: usize = 0;
    while i < n
        invariant
            i <= n,
            n == gray.pixels@.len(),
            ints(buf@) == fs_buffer(*gray, threshold, invert, 0).subrange(0, i as int),
        decreases n - i,
    {
        let mut v = gray.pixels[i] as i64;
        if invert {
            v = 255 - v;
        }
        let scaled = v * FS_UNIT;
        proof {
            lemma_ints_push(buf@, scaled);
        }
        buf.push(scaled);
        i = i + 1;
        proof {
            assert(ints(buf@) =~= fs_buffer(*gray, threshold, invert, 0).subrange(0, i as int));
        }
    }
    proof {
        assert(fs_buffer(*gray, threshold, invert, 0).subrange(0, n as int) =~= fs_buffer(
            *gray,
            threshold,
            invert,
            0,
        ));
        lemma_fs_buffer_shape(*gray, threshold, invert, 0);
    }
    let mut out: Vec<u8> = Vec::new();
    let mut idx: usize = 0;
    while idx < n
        invariant
            idx <= n,
            n == gray.pixels@.len(),
            n == w * h,
            w == gray.width,
            h == gray.height,
            gray.wf(),
            ints(buf@) == fs_buffer(*gray, threshold, invert, idx as nat),
            within_cap(ints(buf@)),
            out@.len() == idx,
            forall|j: int| 0 <= j < idx ==> #[trigger] out@[j] == fs_pixel(*gray, threshold, invert, j),
        decreases n - idx,
    {
        proof {
            lemma_neighbours(idx as int, w as int, h as int);
            lemma_fs_buffer_shape(*gray, threshold, invert, idx as nat);
            assert(ints(buf@)[idx as int] == buf@[idx as int] as int);
        }
        let ghost before = ints(buf@);
        let cur = buf[idx];
        let old_v = if cur < 0 {
            0
        } else if cur > FS_WHITE {
            FS_WHITE
        } else {
            cur
        };
        let new_v = if old_v <= threshold as i64 * FS_UNIT {
            0
        } else {
            FS_WHITE
        };
        let err = old_v - new_v;
        out.push(if new_v == 0 {
            0u8
        } else {
            255u8
        });
        let x = idx % w;
        let y = idx / w;
        if x + 1 < w {
            let d = fs_share_exec(err, 7);
            fs_add_exec(&mut buf, idx + 1, d);
        }
        if y + 1 < h {
            if x > 0 {
                let d = fs_share_exec(err, 3);
                fs_add_exec(&mut buf, idx + w - 1, d);
            }
            let d = fs_share_exec(err, 5);
            fs_add_exec(&mut buf, idx + w, d);
            if x + 1 < w {
                let d = fs_share_exec(err, 1);
                fs_add_exec(&mut buf, idx + w + 1, d);
            }
        }
        proof {
            assert(ints(buf@) == fs_diffuse(before, idx as int, w as int, h as int, threshold));
        }
        idx = idx + 1;
    }
    GrayImage { width: w, height: h, pixels: out }
}

/// `bw` is `gray` turned black and white by `method`.
pub open spec fn binarized(
    gray: GrayImage,
    bw: GrayImage,
    threshold: u8,
    method: DitherMethod,
    invert: bool,
) -> bool {
    &&& bw.wf()
    &&& bw.width == gray.width
    &&& bw.height == gray.height
    &&& forall|i: int|
        0 <= i < bw.pixels@.len() ==> #[trigger] bw.pixels@[i] == match method {
            DitherMethod::Threshold => threshold_pixel(gray.pixels@[i], threshold, invert),
            DitherMethod::FloydSteinberg => fs_pixel(gray, threshold, invert, i),
        }
}

/// Thresholding or error diffusion, as `method` says.
pub fn binarize_preview(gray: &GrayImage, threshold: u8, method: DitherMethod, invert: bool) -> (r:
    GrayImage)
    requires
        gray.wf(),
    ensures
        binarized(*gray, r, threshold, method, invert),
{
    match method {
        DitherMethod::Threshold => threshold_binarize(gray, threshold, invert),
        DitherMethod::FloydSteinberg => floyd_steinberg_binarize(gray, threshold, invert),
    }
}

// ---------------------------------------------------------------------------
// Resize and preview
// ---------------------------------------------------------------------------

pub open spec fn at_least_one(v: u32) -> int {
    if v == 0 {
        1
    } else {
        v as int
    }
}

/// Height that keeps the aspect ratio at the target width: `round(src_h * width / src_w)`,
/// rounding halves up, kept within `1..=u32::MAX` and, when given, at most `max(max_height, 1)`.
pub open spec fn resize_height(src_width: u32, src_height: u32, width: u32, max_height: Option<u32>) -> int {
    let sw = at_least_one(src_width);
    let sh = at_least_one(src_height);
    let rounded = (2 * sh * width + sw) / (2 * sw);
    let capped = if rounded > u32::MAX {
        u32::MAX as int
    } else {
        rounded
    };
    let t = if capped < 1 {
        1
    } else {
        capped
    };
    match max_height {
        Some(m) => if t < at_least_one(m) {
            t
        } else {
            at_least_one(m)
        },
        None => t,
    }
}

/// Target height for resizing a `src_width` x `src_height` image to `width` columns.
pub fn target_height(src_width: u32, src_height: u32, width: u32, max_height: Option<u32>) -> (r: u32)
    ensures
        r as int == resize_height(src_width, src_height, width, max_height),
{
    let sw: u128 = if src_width == 0 {
        1
    } else {
        src_width as u128
    };
    let sh: u128 = if src_height == 0 {
        1
    } else {
        src_height as u128
    };
    assert(2 * sh * width as u128 + sw <= 0x4_0000_0000_0000_0000u128) by (nonlinear_arith)
        requires
            1 <= sh <= u32::MAX,
            1 <= sw <= u32::MAX,
            width <= u32::MAX,
    ;
    let rounded: u128 = (2 * sh * width as u128 + sw) / (2 * sw);
    let capped: u32 = if rounded > u32::MAX as u128 {
        u32::MAX
    } else {
        rounded as u32
    };
    let t: u32 = if capped < 1 {
        1
    } else {
        capped
    };
    match max_height {
        Some(m) => {
            let m1: u32 = if m == 0 {
                1
            } else {
                m
            };
            if t < m1 {
                t
            } else {
                m1
            }
        },
        None => t,
    }
}

// ---------------------------------------------------------------------------
// Decoding and resizing
// ---------------------------------------------------------------------------

/// Width, height and grayscale pixels of the image that an encoded file holds,
/// when the image decoder accepts the bytes.
pub uninterp spec fn decoded_gray(bytes: Seq<u8>) -> Option<(nat, nat, Seq<u8>)>;

/// Relies on `image::load_from_memory` followed by `DynamicImage::to_luma8`: the
/// decoded image in 8-bit grayscale, or an error when the bytes are no image it reads.
#[verifier::external_body]
fn decode_gray(bytes: &[u8]) -> (r: Option<GrayImage>)
    ensures
        match r {
            Some(img) => img.wf() && img.width <= u32::MAX && img.height <= u32::MAX
                && decoded_gray(bytes@) == Some((img.width as nat, img.height as nat, img.pixels@)),
            None => decoded_gray(bytes@) is None,
        },
{
    let gray = image::load_from_memory(bytes).ok()?.to_luma8();
    let (width, height) = gray.dimensions();
    Some(GrayImage { width: width as usize, height: height as usize, pixels: gray.into_raw() })
}

/// Relies on `image::imageops::resize` with `FilterType::Lanczos3`: an image of
/// exactly the requested size (an empty source gives a blank one). Its pixels
/// come from floating-point sines, which may differ between machines, so
/// nothing is said of them.
#[verifier::external_body]
fn resize_lanczos3(img: &GrayImage, new_width: u32, new_height: u32) -> (r: GrayImage)
    requires
        img.wf(),
        img.width <= u32::MAX,
        img.height <= u32::MAX,
        new_width >= 1,
        new_height >= 1,
    ensures
        r.wf(),
        r.width == new_width,
        r.height == new_height,
{
    let src = image::GrayImage::from_raw(img.width as u32, img.height as u32, img.pixels.clone())
        .expect("pixel count matches the size");
    let out = image::imageops::resize(&src, new_width, new_height, image::imageops::FilterType::Lanczos3);
    GrayImage { width: new_width as usize, height: new_height as usize, pixels: out.into_raw() }
}

/// Decodes an image file to grayscale and resizes it to `width` columns, the
/// height following the aspect ratio (see `resize_height`). `None` when the
/// bytes are not an image.
pub fn load_for_print(bytes: &[u8], width: u32, max_height: Option<u32>) -> (r: Option<GrayImage>)
    requires
        width >= 1,
    ensures
        match decoded_gray(bytes@) {
            None => r is None,
            Some(d) => r matches Some(img) && img.wf() && img.width == width && img.height
                == resize_height(d.0 as u32, d.1 as u32, width, max_height),
        },
{
    let gray = match decode_gray(bytes) {
        Some(g) => g,
        None => {
            return None;
        },
    };
    let height = target_height(gray.width as u32, gray.height as u32, width, max_height);
    Some(resize_lanczos3(&gray, width, height))
}

/// What can go wrong while encoding a preview.
#[derive(Debug, Clone, Copy, PartialEq, Eq, Structural)]
pub enum EncodeError {
    /// The image has no pixels (its width or height is 0).
    Empty,
    /// The image is larger than the encoder takes (width or height over `u32::MAX`).
    TooLarge,
}

/// The PNG file that the image encoder writes for an 8-bit grayscale image.
pub uninterp spec fn png_encoding(width: nat, height: nat, pixels: Seq<u8>) -> Seq<u8>;

/// The eight bytes that open every PNG file.
pub open spec fn png_signature() -> Seq<u8> {
    seq![0x89u8, 0x50u8, 0x4eu8, 0x47u8, 0x0du8, 0x0au8, 0x1au8, 0x0au8]
}

/// Relies on `image::DynamicImage::write_to` with `ImageFormat::Png` (the png
/// crate's encoder): it refuses only a zero width or height, writes the PNG
/// signature first, and writes into memory, which cannot fail.
#[verifier::external_body]
fn write_png(img: &GrayImage) -> (r: Option<Vec<u8>>)
    requires
        img.wf(),
        img.width <= u32::MAX,
        img.height <= u32::MAX,
    ensures
        img.width > 0 && img.height > 0 ==> r is Some,
        r matches Some(b) ==> b@ == png_encoding(img.width as nat, img.height as nat, img.pixels@),
        r matches Some(b) ==> b@.len() >= 8 && b@.subrange(0, 8) == png_signature(),
{
    let buf = image::GrayImage::from_raw(img.width as u32, img.height as u32, img.pixels.clone())?;
    let mut cursor = std::io::Cursor::new(Vec::<u8>::new());
    image::DynamicImage::ImageLuma8(buf).write_to(&mut cursor, image::ImageFormat::Png).ok()?;
    Some(cursor.into_inner())
}

/// An image the encoder takes: at least one pixel, each side at most `u32::MAX`.
pub open spec fn encodable(img: GrayImage) -> bool {
    1 <= img.width <= u32::MAX && 1 <= img.height <= u32::MAX
}

/// The image as a PNG file.
pub fn encode_png(img: &GrayImage) -> (r: Result<Vec<u8>, EncodeError>)
    requires
        img.wf(),
    ensures
        (img.width == 0 || img.height == 0) <==> r == Err::<Vec<u8>, EncodeError>(
            EncodeError::Empty,
        ),
        (img.width > 0 && img.height > 0 && (img.width > u32::MAX || img.height > u32::MAX))
            <==> r == Err::<Vec<u8>, EncodeError>(EncodeError::TooLarge),
        encodable(*img) <==> r is Ok,
        r matches Ok(b) ==> b@ == png_encoding(img.width as nat, img.height as nat, img.pixels@)
            && b@.len() >= 8 && b@.subrange(0, 8) == png_signature(),
{
    if img.width == 0 || img.height == 0 {
        return Err(EncodeError::Empty);
    }
    if img.width > u32::MAX as usize || img.height > u32::MAX as usize {
        return Err(EncodeError::TooLarge);
    }
    match write_png(img) {
        Some(b) => Ok(b),
        None => Err(EncodeError::Empty),
    }
}

} // verus!
