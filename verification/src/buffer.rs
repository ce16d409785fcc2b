//! The pixel store: an `image::RgbaImage` behind a handful of trusted calls.

use vstd::prelude::*;
use crate::color::Color;
use crate::surface::Surface;

verus! {

/// A grid of RGBA pixels, stored as an `image::RgbaImage`. The verifier does
/// not look inside: it knows the buffer by `image_dims` and `image_pixels`
/// alone, and by what the functions of this file are trusted to do to them.
#[verifier::external_body]
pub struct PixelBuffer {
    inner: image::RgbaImage,
}

/// The width and the height of a buffer, in this order.
pub uninterp spec fn image_dims(buf: PixelBuffer) -> (nat, nat);

/// The color of each pixel of a buffer, by its coordinates `(x, y)`.
pub uninterp spec fn image_pixels(buf: PixelBuffer) -> Map<(int, int), Color>;

/// The picture that a buffer holds: its size and its pixels.
pub open spec fn picture_of(buf: PixelBuffer) -> Surface {
    Surface { width: image_dims(buf).0, height: image_dims(buf).1, pixels: image_pixels(buf) }
}

impl View for PixelBuffer {
    type V = Surface;

    open spec fn view(&self) -> Surface {
        picture_of(*self)
    }
}

/// Whether a buffer of `width` by `height` pixels, four bytes each, can be
/// allocated at all.
pub open spec fn can_hold(width: int, height: int) -> bool {
    4 * width * height <= isize::MAX
}

#[verifier::external_type_specification]
#[verifier::external_body]
pub struct ExImageError(image::ImageError);

/// Why an image could not be had from its encoded bytes.
#[derive(Clone, Copy, Debug, PartialEq, Eq, Structural)]
pub enum LoadError {
    /// The bytes are not what the format asks for.
    Decoding,
    /// The image cannot be written in the format.
    Encoding,
    /// An argument was out of its range.
    Parameter,
    /// The image needs more room than the decoder grants.
    Limits,
    /// The format, or a feature of it, is not supported.
    Unsupported,
    /// The bytes ended before the image did, or could not be read.
    Io,
}

/// The way in which an image is sampled when it is resized.
#[derive(Clone, Copy, Debug, PartialEq, Eq, Structural)]
pub enum FilterType {
    /// The nearest pixel.
    Nearest,
    /// Linear, between the two nearest pixels.
    Triangle,
    /// The Catmull-Rom cubic.
    CatmullRom,
    /// A Gaussian.
    Gaussian,
    /// Lanczos, with a window of three.
    Lanczos3,
}

/// The longest side, in pixels, of an image that is resized or comes out of
/// resizing: up to here single precision holds every pixel center exactly.
pub open spec fn longest_side() -> int {
    0x80_0000
}

/// Whether an image of the size `dims` can be resized to `nwidth` by
/// `nheight`: it has at least one pixel, no side of either image is longer
/// than `longest_side`, and the two buffers that the work needs can be
/// allocated.
pub open spec fn can_resample(dims: (nat, nat), nwidth: int, nheight: int) -> bool {
    &&& 0 < dims.0 <= longest_side()
    &&& 0 < dims.1 <= longest_side()
    &&& 0 <= nwidth <= longest_side()
    &&& 0 <= nheight <= longest_side()
    &&& 16 * dims.0 * nheight <= isize::MAX
    &&& 4 * nwidth * nheight <= isize::MAX
}

/// The color that the bytes `data` hold for the pixel `(x, y)` of an image
/// `width` pixels wide: four bytes per pixel, rows from top to bottom, each
/// row from left to right.
pub open spec fn raw_color(data: Seq<u8>, width: int, x: int, y: int) -> Color {
    let at = 4 * (y * width + x);
    Color { r: data[at], g: data[at + 1], b: data[at + 2], a: data[at + 3] }
}

/// Whether `part` is the block of `whole` that is `width` by `height` pixels
/// large and has its top-left corner at `(x, y)`.
pub open spec fn is_crop_of(part: Surface, whole: Surface, x: int, y: int, width: int, height: int)
    -> bool {
    &&& part.width == width
    &&& part.height == height
    &&& forall|i: int, j: int|
        part.in_bounds(i, j) ==> #[trigger] part.color_at(i, j) == whole.color_at(x + i, y + j)
}

/// The pixels that `imageops::resize` of `image` computes from the picture
/// `src` for the size `nwidth` by `nheight`, with a filter whose arithmetic
/// is the same on every machine.
pub uninterp spec fn resampled(src: Surface, nwidth: int, nheight: int, filter: FilterType) -> Map<
    (int, int),
    Color,
>;

impl FilterType {
    /// Whether the filter gives the same pixels on every machine. The nearest
    /// pixel and the linear filter are worked with the four basic operations
    /// and rounding alone. The others call for powers, exponentials or sines,
    /// whose last digit is up to the machine's library.
    pub open spec fn is_exact(self) -> bool {
        self == FilterType::Nearest || self == FilterType::Triangle
    }
}

/// What is known of `scaled`, an image that came from resizing `src` to
/// `nwidth` by `nheight` with `filter`: it has that size; where this is the
/// size of `src` it shows the same picture; and with a filter that
/// `is_exact` its pixels are the `resampled` ones.
pub open spec fn is_resample_of(
    scaled: Surface,
    src: Surface,
    nwidth: int,
    nheight: int,
    filter: FilterType,
) -> bool {
    &&& scaled.width == nwidth
    &&& scaled.height == nheight
    &&& (src.width == nwidth && src.height == nheight ==> scaled.same_picture(src))
    &&& (filter.is_exact() ==> forall|x: int, y: int|
        scaled.in_bounds(x, y) ==> #[trigger] scaled.color_at(x, y) == resampled(
            src,
            nwidth,
            nheight,
            filter,
        )[(x, y)])
}

/// What the decoder of `image` makes of the bytes `data` as a PNG file: the
/// picture that they hold, brought to RGBA with eight bits for each channel,
/// or the kind of the error that it refuses them with.
pub uninterp spec fn png_decoding(data: Seq<u8>) -> Result<Surface, LoadError>;

/// `image::load_from_memory_with_format` for PNG, and `DynamicImage::to_rgba8`
/// on what it gives. The decoder reads nothing but the bytes, and the limits
/// that it works under (512 MiB for the decoded image) are constants of
/// `image`, so that what comes back is fixed by the bytes: a buffer that
/// shows the picture of `png_decoding`, or an error of the kind that
/// `png_decoding` names.
#[verifier::external_body]
fn decode_png(data: &[u8]) -> (decoded: Result<PixelBuffer, image::ImageError>)
    ensures
        is_decoding(decoded, png_decoding(data@)),
{
    match image::load_from_memory_with_format(data, image::ImageFormat::Png) {
        Ok(picture) => Ok(PixelBuffer { inner: picture.to_rgba8() }),
        Err(error) => Err(error),
    }
}

/// The kind of an error of `image`: the variant of `ImageError` that it is.
pub uninterp spec fn kind_of(error: image::ImageError) -> LoadError;

/// Tells the variants of `ImageError` apart.
#[verifier::external_body]
fn error_kind(error: &image::ImageError) -> (kind: LoadError)
    ensures
        kind == kind_of(*error),
{
    match error {
        image::ImageError::Decoding(_) => LoadError::Decoding,
        image::ImageError::Encoding(_) => LoadError::Encoding,
        image::ImageError::Parameter(_) => LoadError::Parameter,
        image::ImageError::Limits(_) => LoadError::Limits,
        image::ImageError::Unsupported(_) => LoadError::Unsupported,
        image::ImageError::IoError(_) => LoadError::Io,
    }
}

/// What the decoder gave, with its error brought down to its kind.
pub fn with_error_kind(decoded: Result<PixelBuffer, image::ImageError>) -> (loaded: Result<
    PixelBuffer,
    LoadError,
>)
    ensures
        match decoded {
            Ok(buffer) => loaded == Ok::<PixelBuffer, LoadError>(buffer),
            Err(error) => loaded == Err::<PixelBuffer, LoadError>(kind_of(error)),
        },
{
    match decoded {
        Ok(buffer) => Ok(buffer),
        Err(error) => Err(error_kind(&error)),
    }
}

/// Decodes a PNG file, given as its bytes, into a buffer of RGBA pixels. What
/// the decoder refuses comes back as the kind of its error.
pub fn load_png(data: &[u8]) -> (loaded: Result<PixelBuffer, LoadError>)
    ensures
        is_loaded(loaded, png_decoding(data@)),
        loaded.is_ok() <==> png_decoding(data@).is_ok(),
        loaded.is_ok() ==> loaded.unwrap()@.same_picture(png_decoding(data@).unwrap()),
{
    with_error_kind(decode_png(data))
}

/// Whether `decoded`, as it came from the decoder, is what `named` says: a
/// buffer that shows the picture named, or an error of the kind named.
pub open spec fn is_decoding(
    decoded: Result<PixelBuffer, image::ImageError>,
    named: Result<Surface, LoadError>,
) -> bool {
    match decoded {
        Ok(buffer) => match named {
            Ok(picture) => picture_of(buffer).same_picture(picture),
            Err(_) => false,
        },
        Err(error) => named == Err::<Surface, LoadError>(kind_of(error)),
    }
}

/// Whether `loaded` is what `named` says: a buffer that shows the picture
/// named, or the very error named.
pub open spec fn is_loaded(loaded: Result<PixelBuffer, LoadError>, named: Result<Surface, LoadError>)
    -> bool {
    match loaded {
        Ok(buffer) => match named {
            Ok(picture) => buffer@.same_picture(picture),
            Err(_) => false,
        },
        Err(kind) => named == Err::<Surface, LoadError>(kind),
    }
}

/// `ImageBuffer::new`: a buffer of the given size with every byte zero. It
/// panics where the byte count overflows, which `requires` rules out.
#[verifier::external_body]
fn buffer_new(width: u32, height: u32) -> (buf: PixelBuffer)
    requires
        can_hold(width as int, height as int),
    ensures
        image_dims(buf) == (width as nat, height as nat),
        image_pixels(buf) == Surface::blank(width as nat, height as nat).pixels,
{
    PixelBuffer { inner: image::RgbaImage::new(width, height) }
}

/// `ImageBuffer::from_raw`: the buffer over the bytes `data`, or `None` where
/// `data` is shorter than four bytes for each of `width * height` pixels.
#[verifier::external_body]
fn buffer_from_raw(width: u32, height: u32, data: Vec<u8>) -> (made: Option<PixelBuffer>)
    ensures
        made.is_some() <==> 4 * width * height <= data.len(),
        made.is_some() ==> image_dims(made.unwrap()) == (width as nat, height as nat),
        made.is_some() ==> forall|x: int, y: int|
            0 <= x < width && 0 <= y < height ==> #[trigger] image_pixels(made.unwrap())[(x, y)]
                == raw_color(data@, width as int, x, y),
{
    match image::RgbaImage::from_raw(width, height, data) {
        Some(inner) => Some(PixelBuffer { inner }),
        None => None,
    }
}

/// `ImageBuffer::as_raw`, copied: the bytes of the buffer, four for each
/// pixel and at least `4 * width * height` of them.
#[verifier::external_body]
fn buffer_to_raw(buf: &PixelBuffer) -> (data: Vec<u8>)
    ensures
        data.len() >= 4 * image_dims(*buf).0 * image_dims(*buf).1,
        forall|x: int, y: int|
            0 <= x < image_dims(*buf).0 && 0 <= y < image_dims(*buf).1 ==> raw_color(
                data@,
                image_dims(*buf).0 as int,
                x,
                y,
            ) == #[trigger] image_pixels(*buf)[(x, y)],
{
    buf.inner.as_raw().clone()
}

/// `ImageBuffer::width`.
#[verifier::external_body]
fn buffer_width(buf: &PixelBuffer) -> (width: u32)
    ensures
        width == image_dims(*buf).0,
{
    buf.inner.width()
}

/// `ImageBuffer::height`.
#[verifier::external_body]
fn buffer_height(buf: &PixelBuffer) -> (height: u32)
    ensures
        height == image_dims(*buf).1,
{
    buf.inner.height()
}

/// `ImageBuffer::get_pixel`, which panics outside the bounds.
#[verifier::external_body]
fn buffer_get(buf: &PixelBuffer, x: u32, y: u32) -> (color: Color)
    requires
        x < image_dims(*buf).0,
        y < image_dims(*buf).1,
    ensures
        color == image_pixels(*buf)[(x as int, y as int)],
{
    let pixel = buf.inner.get_pixel(x, y);
    Color { r: pixel.0[0], g: pixel.0[1], b: pixel.0[2], a: pixel.0[3] }
}

/// `ImageBuffer::put_pixel`, which panics outside the bounds: the pixel at
/// `(x, y)` becomes `color`, every other pixel and the size stay.
#[verifier::external_body]
fn buffer_put(buf: &mut PixelBuffer, x: u32, y: u32, color: Color)
    requires
        x < image_dims(*old(buf)).0,
        y < image_dims(*old(buf)).1,
    ensures
        image_dims(*final(buf)) == image_dims(*old(buf)),
        image_pixels(*final(buf)) == image_pixels(*old(buf)).insert((x as int, y as int), color),
{
    buf.inner.put_pixel(x, y, image::Rgba([color.r, color.g, color.b, color.a]));
}

/// `imageops::resize` of `image`: `src` sampled anew at `nwidth` by `nheight`
/// pixels. Its source shows the size of what it returns, and that it returns
/// a plain copy where the size asked for is the size of `src`. The pixels of
/// another size are `resampled` for the two filters that `is_exact`, and are
/// left open for the others. It reads pixels that an empty `src` does not
/// have, and allocates one buffer of `src`'s width by `nheight` with sixteen
/// bytes for a pixel and one of `nwidth` by `nheight`: `requires` keeps it to
/// sizes at which it neither panics nor loses the pixel centers to rounding.
#[verifier::external_body]
fn buffer_resize(src: &PixelBuffer, nwidth: u32, nheight: u32, filter: FilterType) -> (out:
    PixelBuffer)
    requires
        can_resample(image_dims(*src), nwidth as int, nheight as int),
    ensures
        image_dims(out) == (nwidth as nat, nheight as nat),
        image_dims(*src) == (nwidth as nat, nheight as nat) ==> forall|x: int, y: int|
            0 <= x < nwidth && 0 <= y < nheight ==> #[trigger] image_pixels(out)[(x, y)]
                == image_pixels(*src)[(x, y)],
        filter.is_exact() ==> forall|x: int, y: int|
            0 <= x < nwidth && 0 <= y < nheight ==> #[trigger] image_pixels(out)[(x, y)]
                == resampled(picture_of(*src), nwidth as int, nheight as int, filter)[(x, y)],
{
    let kind = match filter {
        FilterType::Nearest => image::imageops::FilterType::Nearest,
        FilterType::Triangle => image::imageops::FilterType::Triangle,
        FilterType::CatmullRom => image::imageops::FilterType::CatmullRom,
        FilterType::Gaussian => image::imageops::FilterType::Gaussian,
        FilterType::Lanczos3 => image::imageops::FilterType::Lanczos3,
    };
    PixelBuffer { inner: image::imageops::resize(&src.inner, nwidth, nheight, kind) }
}

/// `imageops::crop_imm` of `image`, made into a buffer of its own with
/// `SubImage::to_image`: the block of `width` by `height` pixels of `src`
/// whose top-left corner is `(x, y)`. The block must lie inside `src`.
#[verifier::external_body]
fn buffer_crop(src: &PixelBuffer, x: u32, y: u32, width: u32, height: u32) -> (out: PixelBuffer)
    requires
        x + width <= image_dims(*src).0,
        y + height <= image_dims(*src).1,
    ensures
        image_dims(out) == (width as nat, height as nat),
        forall|i: int, j: int|
            0 <= i < width && 0 <= j < height ==> #[trigger] image_pixels(out)[(i, j)]
                == image_pixels(*src)[(x + i, y + j)],
{
    PixelBuffer { inner: image::imageops::crop_imm(&src.inner, x, y, width, height).to_image() }
}

/// Whether a buffer of `width` by `height` pixels can be allocated.
pub fn fits_in_memory(width: u32, height: u32) -> (fits: bool)
    ensures
        fits == can_hold(width as int, height as int),
{
    assert(4 * width * height <= 4 * 0xffff_ffff * 0xffff_ffff) by (nonlinear_arith)
        requires
            width <= 0xffff_ffff,
            height <= 0xffff_ffff,
    ;
    4 * (width as u128) * (height as u128) <= isize::MAX as u128
}

impl PixelBuffer {
    /// A buffer of `width` by `height` pixels, all of them transparent black.
    pub fn new(width: u32, height: u32) -> (buf: PixelBuffer)
        requires
            can_hold(width as int, height as int),
        ensures
            buf@ == Surface::blank(width as nat, height as nat),
    {
        buffer_new(width, height)
    }

    /// The buffer whose pixels are the bytes of `data`, four bytes (red,
    /// green, blue, alpha) for each pixel, row after row from the top. There
    /// is none where `data` holds fewer than `4 * width * height` bytes; bytes
    /// beyond that count are carried along and show in no pixel.
    pub fn from_raw(width: u32, height: u32, data: Vec<u8>) -> (made: Option<PixelBuffer>)
        ensures
            made.is_some() <==> 4 * width * height <= data.len(),
            made.is_some() ==> made.unwrap()@.width == width && made.unwrap()@.height == height,
            made.is_some() ==> forall|x: int, y: int|
                0 <= x < width && 0 <= y < height ==> #[trigger] made.unwrap()@.color_at(x, y)
                    == raw_color(data@, width as int, x, y),
    {
        buffer_from_raw(width, height, data)
    }

    /// The bytes of the buffer, laid out as `from_raw` reads them.
    pub fn to_raw(&self) -> (data: Vec<u8>)
        ensures
            data.len() >= 4 * self@.width * self@.height,
            forall|x: int, y: int|
                self@.in_bounds(x, y) ==> raw_color(data@, self@.width as int, x, y)
                    == #[trigger] self@.color_at(x, y),
    {
        buffer_to_raw(self)
    }

    pub fn width(&self) -> (width: u32)
        ensures
            width == self@.width,
    {
        buffer_width(self)
    }

    pub fn height(&self) -> (height: u32)
        ensures
            height == self@.height,
    {
        buffer_height(self)
    }

    /// The color of the pixel at `(x, y)`, which must lie inside the buffer.
    pub fn get_pixel(&self, x: u32, y: u32) -> (color: Color)
        requires
            self@.in_bounds(x as int, y as int),
        ensures
            color == self@.color_at(x as int, y as int),
    {
        buffer_get(self, x, y)
    }

    /// Whether this image can be resized to `nwidth` by `nheight` pixels.
    pub fn can_be_resized(&self, nwidth: u32, nheight: u32) -> (can: bool)
        ensures
            can == can_resample((self@.width, self@.height), nwidth as int, nheight as int),
    {
        let width = self.width();
        let height = self.height();
        if width == 0 || height == 0 || width > 0x80_0000 || height > 0x80_0000 || nwidth
            > 0x80_0000 || nheight > 0x80_0000 {
            return false;
        }
        assert(16 * width * nheight <= 16 * 0x80_0000 * 0x80_0000) by (nonlinear_arith)
            requires
                width <= 0x80_0000,
                nheight <= 0x80_0000,
        ;
        assert(4 * nwidth * nheight <= 4 * 0x80_0000 * 0x80_0000) by (nonlinear_arith)
            requires
                nwidth <= 0x80_0000,
                nheight <= 0x80_0000,
        ;
        16 * (width as u128) * (nheight as u128) <= isize::MAX as u128 && 4 * (nwidth as u128) * (
        nheight as u128) <= isize::MAX as u128
    }

    /// This image sampled anew at `nwidth` by `nheight` pixels. Asked for its
    /// own size, the image comes back as a copy; the colors of any other size
    /// are those that the sampler of `image` computes.
    pub fn resized(&self, nwidth: u32, nheight: u32, filter: FilterType) -> (out: PixelBuffer)
        requires
            can_resample((self@.width, self@.height), nwidth as int, nheight as int),
        ensures
            is_resample_of(out@, self@, nwidth as int, nheight as int, filter),
    {
        buffer_resize(self, nwidth, nheight, filter)
    }

    /// The block of `width` by `height` pixels whose top-left corner is
    /// `(x, y)`, as an image of its own. The block must lie inside the image.
    pub fn cropped(&self, x: u32, y: u32, width: u32, height: u32) -> (out: PixelBuffer)
        requires
            x + width <= self@.width,
            y + height <= self@.height,
        ensures
            is_crop_of(out@, self@, x as int, y as int, width as int, height as int),
    {
        buffer_crop(self, x, y, width, height)
    }

    /// Sets the pixel at `(x, y)`, which must lie inside the buffer, to
    /// `color`, without any blending.
    pub fn put_pixel(&mut self, x: u32, y: u32, color: Color)
        requires
            old(self)@.in_bounds(x as int, y as int),
        ensures
            final(self)@ == old(self)@.with_pixel(x as int, y as int, color),
    {
        buffer_put(self, x, y, color)
    }
}

} // verus!
