//! The timestamp codec: a timestamp goes into a frame as a QR code of its
//! decimal text, and comes back out of a frame by reading that code.
//!
//! Reading takes two calls.  [`image_to_scan`] turns a frame into the grey
//! image in which to look for codes; the caller looks, and
//! [`pick_timestamp`] reads the timestamp out of what was found.  The
//! search itself is the caller's: a detector may give up on a picture by
//! unwinding, and only the caller can catch that and count it as nothing
//! found.

use vstd::prelude::*;
use vstd::arithmetic::div_mod::*;
use vstd::arithmetic::mul::*;
use crate::text::{decimal_text, parse_text, parse_timestamp, timestamp_text, TEXT_LIMIT};

verus! {

/// Why no timestamp could be read from a frame.
#[derive(Clone, Copy, Debug, PartialEq, Eq, Structural)]
pub enum DecodeError {
    /// The frame shows no legible code.
    NoCodeFound,
    /// The code's text is not a timestamp.
    ValueParseError,
    /// The frame shows more than one legible code.
    MultipleAmbiguous,
}

/// A frame's pixels: RGB, three bytes per pixel, row by row without
/// padding.
#[derive(Debug)]
pub struct PixelBuffer {
    width: u32,
    height: u32,
    data: Vec<u8>,
}

/// The RGBA pixels, row by row, of the image that `qrc` draws of the QR
/// code for `text`, `side` pixels wide and high.
pub uninterp spec fn qr_image(text: Seq<char>, side: u32) -> Seq<u8>;

/// The grey levels, one byte per pixel and row by row, that `image`
/// gives for a tightly packed RGB image of the given size.
pub uninterp spec fn luma_of(rgb: Seq<u8>, width: u32, height: u32) -> Seq<u8>;

/// Whether an image of `side` by `side` pixels with four bytes each can be
/// allocated at all.
pub open spec fn side_fits(side: u32) -> bool {
    4 * side * side <= isize::MAX
}

/// Calls `qrc::QRCode::from_string` and `QRCode::to_png`, and hands back
/// the raw bytes of the image.
///
/// Trusted: the image is a function of the text and the side alone, and
/// holds `side * side` pixels of four bytes.  `to_png` panics on data that
/// fits no QR code; text of at most `TEXT_LIMIT` characters fits the
/// smallest size class that `qrcode` tries.
#[verifier::external_body]
fn render_qr(text: String, side: u32) -> (rgba: Vec<u8>)
    requires
        text@.len() <= TEXT_LIMIT,
        side_fits(side),
    ensures
        rgba@ == qr_image(text@, side),
        rgba@.len() == 4 * side * side,
{
    qrc::QRCode::from_string(text).to_png(side).into_raw()
}

/// Calls `image::DynamicImage::to_luma8` on the pixels, taken as an
/// `image::RgbImage`, and hands back the raw bytes of the grey image.
///
/// Trusted: the grey image is a function of the pixels and the size alone,
/// and holds one byte for each pixel.  `image` multiplies the width by
/// three before it looks at the height, so an image without rows must not
/// be wider than a third of the address space: images without pixels are
/// left out.
#[verifier::external_body]
fn to_luma(rgb: &Vec<u8>, width: u32, height: u32) -> (luma: Vec<u8>)
    requires
        width > 0,
        height > 0,
        rgb@.len() == 3 * width * height,
    ensures
        luma@ == luma_of(rgb@, width, height),
        luma@.len() == width * height,
{
    let picture = image::RgbImage::from_vec(width, height, rgb.clone()).unwrap();
    image::DynamicImage::ImageRgb8(picture).to_luma8().into_raw()
}

/// The largest width and the largest height of an image that is handed
/// out for scanning.
///
/// Detectors work on pixel coordinates in 32-bit arithmetic; `rqrr`
/// multiplies three of them to find where lines through corners meet.
/// Coordinates below 800 keep such products of pixels of the image within
/// 32 bits, and a code that fills 800 pixels is as legible as one that
/// fills more.
pub const SCAN_LIMIT: u32 = 800;

/// A grey image to scan for codes: one byte per pixel, row by row, at
/// least one pixel and no more than `SCAN_LIMIT` on either axis.
#[derive(Debug)]
pub struct GreyImage {
    width: u32,
    height: u32,
    data: Vec<u8>,
}

/// The pixels of an RGBA image with the alpha byte of every pixel left
/// out: of each group of four bytes the first three, in order.  Bytes
/// after the last whole group are left out too.
pub open spec fn without_alpha(rgba: Seq<u8>) -> Seq<u8> {
    Seq::new(3 * (rgba.len() / 4), |i: int| rgba[4 * (i / 3) + i % 3])
}

/// Drops the alpha channel of an RGBA image.
pub fn drop_alpha(rgba: &Vec<u8>) -> (rgb: Vec<u8>)
    ensures
        rgb@ == without_alpha(rgba@),
{
    let pixels: usize = rgba.len() / 4;
    let mut rgb: Vec<u8> = Vec::new();
    let mut p: usize = 0;
    while p < pixels
        invariant
            p <= pixels,
            pixels == rgba@.len() / 4,
            4 * pixels <= rgba@.len() <= usize::MAX,
            rgb@.len() == 3 * p,
            forall|i: int| 0 <= i < 3 * p ==> rgb@[i] == rgba@[4 * (i / 3) + i % 3],
        decreases pixels - p,
    {
        rgb.push(rgba[4 * p]);
        rgb.push(rgba[4 * p + 1]);
        rgb.push(rgba[4 * p + 2]);
        p += 1;
    }
    assert(rgb@ =~= without_alpha(rgba@));
    rgb
}

/// The texts of the grids that decoded, in order.
pub open spec fn legible_texts(found: Seq<Option<Seq<char>>>) -> Seq<Seq<char>>
    decreases found.len(),
{
    if found.len() == 0 {
        Seq::empty()
    } else {
        let before = legible_texts(found.drop_last());
        match found.last() {
            Some(text) => before.push(text),
            None => before,
        }
    }
}

/// The timestamp that a scan yields: the one legible code's text, read as
/// a timestamp.
pub open spec fn timestamp_among(found: Seq<Option<Seq<char>>>) -> Result<u128, DecodeError> {
    let texts = legible_texts(found);
    if texts.len() == 0 {
        Err(DecodeError::NoCodeFound)
    } else if texts.len() > 1 {
        Err(DecodeError::MultipleAmbiguous)
    } else {
        match parse_text(texts[0]) {
            Some(timestamp) => Ok(timestamp),
            None => Err(DecodeError::ValueParseError),
        }
    }
}

/// Picks the timestamp out of what a scan found.
///
/// Grids that did not decode count for nothing.  No legible code gives
/// `NoCodeFound`, more than one `MultipleAmbiguous`; the text of a single
/// one is read as a timestamp, and gives `ValueParseError` where it is
/// none.
pub fn pick_timestamp(found: &Vec<Option<String>>) -> (r: Result<u128, DecodeError>)
    ensures
        r == timestamp_among(found.deep_view()),
{
    let ghost all = found.deep_view();
    let mut count: usize = 0;
    let mut first: usize = 0;
    let mut i: usize = 0;
    assert(all.take(0) =~= Seq::empty());
    while i < found.len()
        invariant
            i <= found.len(),
            all == found.deep_view(),
            count <= i,
            count == legible_texts(all.take(i as int)).len(),
            count >= 1 ==> first < i && all[first as int] == Some(
                legible_texts(all.take(i as int))[0],
            ),
        decreases found.len() - i,
    {
        proof {
            assert(all.take(i + 1).drop_last() =~= all.take(i as int));
            assert(all.take(i + 1).last() == all[i as int]);
        }
        if found[i].is_some() {
            if count == 0 {
                first = i;
            }
            count += 1;
        }
        i += 1;
    }
    assert(all.take(found.len() as int) =~= all);
    if count == 0 {
        Err(DecodeError::NoCodeFound)
    } else if count > 1 {
        Err(DecodeError::MultipleAmbiguous)
    } else {
        match &found[first] {
            Some(text) => match parse_timestamp(text.as_str()) {
                Some(timestamp) => Ok(timestamp),
                None => Err(DecodeError::ValueParseError),
            },
            None => Err(DecodeError::NoCodeFound),
        }
    }
}

impl PixelBuffer {
    /// Width in pixels.
    pub closed spec fn width(self) -> u32 {
        self.width
    }

    /// Height in pixels.
    pub closed spec fn height(self) -> u32 {
        self.height
    }

    /// The bytes of the pixels.
    pub closed spec fn pixels(self) -> Seq<u8> {
        self.data@
    }

    /// A buffer holds three bytes for each of its pixels, no more and no
    /// fewer.
    #[verifier::type_invariant]
    pub closed spec fn wf(self) -> bool {
        self.data@.len() == 3 * self.width * self.height
    }

    /// Takes `data` as the pixels of a `width` by `height` frame; `None`
    /// where it is not exactly three bytes per pixel.
    pub fn from_rgb(width: u32, height: u32, data: Vec<u8>) -> (r: Option<PixelBuffer>)
        ensures
            r is Some <==> data@.len() == 3 * width * height,
            r is Some ==> r.unwrap().width() == width && r.unwrap().height() == height
                && r.unwrap().pixels() == data@ && r.unwrap().wf(),
    {
        proof {
            lemma_area(width, height);
        }
        let area: u64 = (width as u64) * (height as u64);
        let wanted: u128 = 3 * (area as u128);
        if data.len() as u128 == wanted {
            Some(PixelBuffer { width, height, data })
        } else {
            None
        }
    }

    pub fn get_width(&self) -> (r: u32)
        ensures
            r == self.width(),
    {
        self.width
    }

    pub fn get_height(&self) -> (r: u32)
        ensures
            r == self.height(),
    {
        self.height
    }

    /// The bytes of the pixels, row by row.
    pub fn data(&self) -> (r: &Vec<u8>)
        ensures
            r@ == self.pixels(),
            r@.len() == 3 * self.width() * self.height(),
    {
        proof {
            use_type_invariant(self);
        }
        &self.data
    }

    /// Gives up the buffer for its bytes.
    pub fn into_data(self) -> (r: Vec<u8>)
        ensures
            r@ == self.pixels(),
            r@.len() == 3 * self.width() * self.height(),
    {
        proof {
            use_type_invariant(&self);
        }
        self.data
    }
}

/// The pixel count of a frame fits in 64 bits, and byte counts may be
/// taken per pixel.
proof fn lemma_area(width: u32, height: u32)
    ensures
        0 <= width * height <= u64::MAX,
        3 * width * height == 3 * (width * height),
        4 * width * height == 4 * (width * height),
{
    assert(0 <= width * height <= 0xffff_ffff * 0xffff_ffff) by (nonlinear_arith)
        requires
            0 <= width <= 0xffff_ffff,
            0 <= height <= 0xffff_ffff,
    ;
    assert(3 * width * height == 3 * (width * height)) by (nonlinear_arith);
    assert(4 * width * height == 4 * (width * height)) by (nonlinear_arith);
}

/// Whether a side length can be rendered on this machine.
pub fn check_side_fits(side: u32) -> (r: bool)
    ensures
        r == side_fits(side),
{
    proof {
        lemma_area(side, side);
    }
    let area: u64 = (side as u64) * (side as u64);
    4 * (area as u128) <= isize::MAX as u128
}

/// What `encode` draws: the QR image of the timestamp's decimal text,
/// without its alpha channel.
pub open spec fn encoded_pixels(timestamp: u128, side: u32) -> Seq<u8> {
    without_alpha(qr_image(decimal_text(timestamp as nat), side))
}

/// Renders `timestamp` as a square frame of `side` pixels.
///
/// The same timestamp and side always give the same pixels.
pub fn encode(timestamp: u128, side: u32) -> (buffer: PixelBuffer)
    requires
        side_fits(side),
    ensures
        buffer.wf(),
        buffer.width() == side,
        buffer.height() == side,
        buffer.pixels() == encoded_pixels(timestamp, side),
        buffer.pixels().len() == 3 * side * side,
{
    let text = timestamp_text(timestamp);
    let rgba = render_qr(text, side);
    let data = drop_alpha(&rgba);
    proof {
        lemma_area(side, side);
    }
    PixelBuffer { width: side, height: side, data }
}

/// Every how many pixels a frame is sampled for the scan: the least step
/// that leaves no more than `SCAN_LIMIT` pixels on either axis.  A frame
/// within the limit is scanned whole.
pub open spec fn scan_step(width: u32, height: u32) -> int {
    let longest = if width >= height {
        width
    } else {
        height
    };
    (longest - 1) / (SCAN_LIMIT as int) + 1
}

/// How many of `len` pixels are left when every `step`-th is taken,
/// starting with the first.
pub open spec fn sampled_len(len: u32, step: int) -> int {
    (len - 1) / step + 1
}

/// The grey image made of every `step`-th pixel of every `step`-th row of
/// a `width` by `height` image, starting at its first pixel.
pub open spec fn sampled(luma: Seq<u8>, width: u32, height: u32, step: int) -> Seq<u8> {
    let columns = sampled_len(width, step);
    let rows = sampled_len(height, step);
    Seq::new(
        (columns * rows) as nat,
        |i: int| luma[((i / columns) * step) * width + (i % columns) * step],
    )
}

/// The grey levels of the image that a frame is scanned in: the frame
/// turned to grey and sampled at its scan step.
pub open spec fn scan_pixels(pixels: Seq<u8>, width: u32, height: u32) -> Seq<u8> {
    sampled(luma_of(pixels, width, height), width, height, scan_step(width, height))
}

/// The step is at least one, and what it leaves on either axis is within
/// the scan's limit.
pub proof fn lemma_scan_step_fits(width: u32, height: u32)
    requires
        width > 0,
        height > 0,
    ensures
        1 <= scan_step(width, height) <= u32::MAX,
        1 <= sampled_len(width, scan_step(width, height)) <= SCAN_LIMIT,
        1 <= sampled_len(height, scan_step(width, height)) <= SCAN_LIMIT,
        width <= SCAN_LIMIT && height <= SCAN_LIMIT ==> scan_step(width, height) == 1,
{
    let limit = SCAN_LIMIT as int;
    let longest: int = if width >= height {
        width as int
    } else {
        height as int
    };
    let step = scan_step(width, height);
    lemma_fundamental_div_mod(longest - 1, limit);
    lemma_mod_bound(longest - 1, limit);
    lemma_div_pos_is_pos(longest - 1, limit);
    assert(longest - 1 < step * limit) by (nonlinear_arith)
        requires
            longest - 1 == limit * ((longest - 1) / limit) + (longest - 1) % limit,
            (longest - 1) % limit < limit,
            step == (longest - 1) / limit + 1,
    ;
    lemma_div_is_ordered_by_denominator(longest - 1, 1, limit);
    lemma_div_basics(longest - 1);
    lemma_multiply_divide_lt(width - 1, step, limit);
    lemma_multiply_divide_lt(height - 1, step, limit);
    lemma_div_pos_is_pos(width - 1, step);
    lemma_div_pos_is_pos(height - 1, step);
    if width <= SCAN_LIMIT && height <= SCAN_LIMIT {
        lemma_basic_div(longest - 1, limit);
    }
}

/// Sampling at every pixel leaves the image as it is.
pub proof fn lemma_sampled_whole(luma: Seq<u8>, width: u32, height: u32)
    requires
        width > 0,
        height > 0,
        luma.len() == width * height,
    ensures
        sampled_len(width, 1) == width,
        sampled_len(height, 1) == height,
        sampled(luma, width, height, 1) == luma,
{
    let whole = sampled(luma, width, height, 1);
    assert(whole.len() == luma.len());
    assert forall|i: int| 0 <= i < luma.len() implies whole[i] == luma[i] by {
        lemma_fundamental_div_mod(i, width as int);
        assert(((i / (width as int)) * 1) * width + (i % (width as int)) * 1 == i) by (
            nonlinear_arith)
            requires
                i == width * (i / (width as int)) + i % (width as int),
        ;
    }
    assert(whole =~= luma);
}

/// The step of the scan for a frame.
fn scan_step_of(width: u32, height: u32) -> (step: u32)
    requires
        width > 0,
        height > 0,
    ensures
        step == scan_step(width, height),
{
    let longest: u32 = if width >= height {
        width
    } else {
        height
    };
    (longest - 1) / SCAN_LIMIT + 1
}

/// Takes every `step`-th pixel of every `step`-th row of a grey image.
fn sample_grid(luma: &Vec<u8>, width: u32, height: u32, step: u32) -> (small: Vec<u8>)
    requires
        width > 0,
        height > 0,
        step >= 1,
        luma@.len() == width * height,
    ensures
        small@ == sampled(luma@, width, height, step as int),
        small@.len() == sampled_len(width, step as int) * sampled_len(height, step as int),
{
    let length: usize = luma.len();
    let columns: usize = ((width - 1) / step + 1) as usize;
    let rows: usize = ((height - 1) / step + 1) as usize;
    let ghost last_column = (width - 1) / (step as int);
    let ghost last_row = (height - 1) / (step as int);
    proof {
        lemma_fundamental_div_mod(width - 1, step as int);
        lemma_fundamental_div_mod(height - 1, step as int);
        lemma_mod_bound(width - 1, step as int);
        lemma_mod_bound(height - 1, step as int);
        lemma_div_pos_is_pos(width - 1, step as int);
        lemma_div_pos_is_pos(height - 1, step as int);
        assert(last_column * step <= width - 1) by (nonlinear_arith)
            requires
                width - 1 == step * last_column + (width - 1) % (step as int),
                (width - 1) % (step as int) >= 0,
        ;
        assert(last_row * step <= height - 1) by (nonlinear_arith)
            requires
                height - 1 == step * last_row + (height - 1) % (step as int),
                (height - 1) % (step as int) >= 0,
        ;
        assert(last_column <= width - 1 && last_row <= height - 1) by (nonlinear_arith)
            requires
                last_column * step <= width - 1,
                last_row * step <= height - 1,
                last_column >= 0,
                last_row >= 0,
                step >= 1,
        ;
        assert(columns * rows <= width * height) by (nonlinear_arith)
            requires
                0 < columns <= width,
                0 < rows <= height,
        ;
    }
    let total: usize = columns * rows;
    let mut small: Vec<u8> = Vec::new();
    let mut i: usize = 0;
    while i < total
        invariant
            i <= total,
            total == columns * rows,
            columns == last_column + 1,
            rows == last_row + 1,
            0 <= last_column,
            0 <= last_row,
            step >= 1,
            last_column * step <= width - 1,
            last_row * step <= height - 1,
            luma@.len() == width * height,
            luma@.len() <= usize::MAX,
            small@.len() == i,
            forall|k: int|
                0 <= k < i ==> small@[k] == luma@[((k / (columns as int)) * step) * width + (k % (
                columns as int)) * step],
        decreases total - i,
    {
        let row: usize = i / columns;
        let column: usize = i % columns;
        proof {
            lemma_multiply_divide_lt(i as int, columns as int, rows as int);
            lemma_mul_inequality(row as int, last_row, step as int);
            lemma_mul_inequality(column as int, last_column, step as int);
            assert((row * step) * width + column * step < width * height) by (nonlinear_arith)
                requires
                    0 <= row * step <= height - 1,
                    0 <= column * step <= width - 1,
                    width > 0,
            ;
            assert(0 <= (row * step) * width) by (nonlinear_arith)
                requires
                    0 <= row * step,
                    width > 0,
            ;
        }
        let from_row: usize = row * (step as usize);
        let from_column: usize = column * (step as usize);
        small.push(luma[from_row * (width as usize) + from_column]);
        i += 1;
    }
    assert(small@ =~= sampled(luma@, width, height, step as int));
    small
}

impl GreyImage {
    /// Width in pixels.
    pub closed spec fn width(self) -> u32 {
        self.width
    }

    /// Height in pixels.
    pub closed spec fn height(self) -> u32 {
        self.height
    }

    /// The grey levels.
    pub closed spec fn pixels(self) -> Seq<u8> {
        self.data@
    }

    /// An image to scan has a pixel, is within the scan's limit, and holds
    /// one byte for each of its pixels.
    #[verifier::type_invariant]
    pub closed spec fn wf(self) -> bool {
        &&& 0 < self.width <= SCAN_LIMIT
        &&& 0 < self.height <= SCAN_LIMIT
        &&& self.data@.len() == self.width * self.height
    }

    pub fn get_width(&self) -> (r: u32)
        ensures
            r == self.width(),
            0 < r <= SCAN_LIMIT,
    {
        proof {
            use_type_invariant(self);
        }
        self.width
    }

    pub fn get_height(&self) -> (r: u32)
        ensures
            r == self.height(),
            0 < r <= SCAN_LIMIT,
    {
        proof {
            use_type_invariant(self);
        }
        self.height
    }

    /// The grey levels, row by row.
    pub fn data(&self) -> (r: &Vec<u8>)
        ensures
            r@ == self.pixels(),
            r@.len() == self.width() * self.height(),
    {
        proof {
            use_type_invariant(self);
        }
        &self.data
    }

    /// Gives up the image for its grey levels.
    pub fn into_data(self) -> (r: Vec<u8>)
        ensures
            r@ == self.pixels(),
            r@.len() == self.width() * self.height(),
    {
        proof {
            use_type_invariant(&self);
        }
        self.data
    }
}

/// Turns a frame into the grey image in which to look for its code.
///
/// A frame without pixels has nothing to scan.  Any other frame is turned
/// to grey; one larger than `SCAN_LIMIT` is sampled down at the least step
/// that brings it within the limit, so that a code that fills a large
/// frame is found as well as one that fills a small one.
pub fn image_to_scan(buffer: &PixelBuffer) -> (r: Option<GreyImage>)
    ensures
        r is Some <==> buffer.width() > 0 && buffer.height() > 0,
        r matches Some(image) ==> {
            &&& image.wf()
            &&& image.width() == sampled_len(
                buffer.width(),
                scan_step(buffer.width(), buffer.height()),
            )
            &&& image.height() == sampled_len(
                buffer.height(),
                scan_step(buffer.width(), buffer.height()),
            )
            &&& image.pixels() == scan_pixels(buffer.pixels(), buffer.width(), buffer.height())
        },
{
    proof {
        use_type_invariant(buffer);
    }
    if buffer.width == 0 || buffer.height == 0 {
        return None;
    }
    let luma = to_luma(&buffer.data, buffer.width, buffer.height);
    let step: u32 = scan_step_of(buffer.width, buffer.height);
    proof {
        lemma_scan_step_fits(buffer.width, buffer.height);
        lemma_area(buffer.width, buffer.height);
    }
    if step == 1 {
        proof {
            lemma_sampled_whole(luma@, buffer.width, buffer.height);
        }
        Some(GreyImage { width: buffer.width, height: buffer.height, data: luma })
    } else {
        let small = sample_grid(&luma, buffer.width, buffer.height, step);
        let columns: u32 = (buffer.width - 1) / step + 1;
        let rows: u32 = (buffer.height - 1) / step + 1;
        Some(GreyImage { width: columns, height: rows, data: small })
    }
}

/// The codec itself loses nothing: wherever a scan finds the text drawn
/// for a timestamp and nothing else, what is picked from the scan is that
/// timestamp.
pub proof fn lemma_legible_scan_round_trip(timestamp: u128, found: Seq<Option<Seq<char>>>)
    requires
        found == seq![Some(decimal_text(timestamp as nat))],
    ensures
        timestamp_among(found) == Ok::<u128, DecodeError>(timestamp),
{
    let text = decimal_text(timestamp as nat);
    assert(found.drop_last() =~= Seq::<Option<Seq<char>>>::empty());
    assert(legible_texts(found.drop_last()) =~= Seq::<Seq<char>>::empty());
    assert(found.last() == Some(text));
    assert(legible_texts(found) =~= seq![text]);
    crate::text::lemma_text_round_trip(timestamp);
}

} // verus!
