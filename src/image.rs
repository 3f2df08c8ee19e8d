use vstd::prelude::*;

verus! {

/// `image::ImageError`, carried as the cause of a decoding failure.
#[verifier::external_type_specification]
#[verifier::external_body]
pub struct ExImageError(image::ImageError);

/// `image::ImageFormat`, the file format that bytes are decoded as.
#[verifier::external_type_specification]
#[verifier::external_body]
pub struct ExImageFormat(image::ImageFormat);

/// Relies on `image::load_from_memory_with_format`, then
/// `DynamicImage::to_rgb8`, which always builds a buffer of exactly three
/// samples per pixel. Which samples come out may differ between machines.
#[verifier::external_body]
fn decode_rgb8(bytes: &[u8], format: image::ImageFormat) -> (r: Result<
    (u32, u32, Vec<u8>),
    image::ImageError,
>)
    ensures
        r matches Ok((w, h, d)) ==> fills(w, h, d@),
{
    match image::load_from_memory_with_format(bytes, format) {
        Ok(img) => {
            let rgb = img.to_rgb8();
            Ok((rgb.width(), rgb.height(), rgb.into_raw()))
        },
        Err(e) => Err(e),
    }
}

/// Why an image texture could not be made.
#[derive(Debug)]
pub enum TextureError {
    /// The bytes are no image that can be decoded.
    Decode(image::ImageError),
    /// The decoded samples do not fill the image's width and height.
    BadSize,
}

/// An image texture: 8-bit RGB samples, row by row from the top, three per
/// pixel.
#[derive(Debug)]
pub struct Image {
    width: u32,
    height: u32,
    data: Vec<u8>,
}

/// The samples fill exactly `width` by `height` pixels.
pub open spec fn fills(width: u32, height: u32, data: Seq<u8>) -> bool {
    data.len() == 3 * width as int * height as int
}

/// The sample at channel `c` of pixel `(x, y)`.
pub open spec fn sample_at(width: u32, data: Seq<u8>, x: int, y: int, c: int) -> u8 {
    data[3 * (y * width as int + x) + c]
}

pub open spec fn min_u32(a: u32, b: u32) -> u32 {
    if a <= b {
        a
    } else {
        b
    }
}

impl Image {
    pub closed spec fn width_spec(&self) -> u32 {
        self.width
    }

    pub closed spec fn height_spec(&self) -> u32 {
        self.height
    }

    pub closed spec fn data_spec(&self) -> Seq<u8> {
        self.data@
    }

    /// The samples fill the image.
    pub open spec fn wf(&self) -> bool {
        fills(self.width_spec(), self.height_spec(), self.data_spec())
    }

    /// A texture of `width` by `height` pixels with the 8-bit RGB samples
    /// `data`, row by row from the top; `BadSize` where they do not fill it.
    pub fn from_rgb8(width: u32, height: u32, data: Vec<u8>) -> (r: Result<Image, TextureError>)
        ensures
            r is Ok <==> fills(width, height, data@),
            r matches Err(e) ==> e is BadSize,
            r matches Ok(img) ==> img.width_spec() == width && img.height_spec() == height
                && img.data_spec() == data@,
    {
        let wide = width as u128;
        let high = height as u128;
        assert(wide * high <= 0xffff_ffff_u128 * 0xffff_ffff_u128) by (nonlinear_arith)
            requires
                wide <= 0xffff_ffff_u128,
                high <= 0xffff_ffff_u128,
        ;
        assert(wide * high * 3 == 3 * width as int * height as int) by (nonlinear_arith)
            requires
                wide == width,
                high == height,
        ;
        if wide * high * 3 == data.len() as u128 {
            Ok(Image { width, height, data })
        } else {
            Err(TextureError::BadSize)
        }
    }

    /// Decodes an image file of format `format` held in `bytes` into a
    /// texture. Bytes that decode always make a texture; the only error is a
    /// failure to decode.
    pub fn new(bytes: &[u8], format: image::ImageFormat) -> (r: Result<Image, TextureError>)
        ensures
            r matches Err(e) ==> e is Decode,
            r matches Ok(img) ==> img.wf(),
    {
        match decode_rgb8(bytes, format) {
            Err(e) => Err(TextureError::Decode(e)),
            Ok((width, height, data)) => Image::from_rgb8(width, height, data),
        }
    }

    /// Width in pixels.
    pub fn width(&self) -> (r: u32)
        ensures
            r == self.width_spec(),
    {
        self.width
    }

    /// Height in pixels.
    pub fn height(&self) -> (r: u32)
        ensures
            r == self.height_spec(),
    {
        self.height
    }

    /// The red, green and blue samples of pixel `(i, j)`, counted from the
    /// left and from the top; coordinates past the last column or row are
    /// taken as the last one.
    pub fn texel(&self, i: u32, j: u32) -> (r: [u8; 3])
        requires
            self.wf(),
            self.width_spec() > 0,
            self.height_spec() > 0,
        ensures
            ({
                let x = min_u32(i, (self.width_spec() - 1) as u32) as int;
                let y = min_u32(j, (self.height_spec() - 1) as u32) as int;
                forall|c: int|
                    0 <= c < 3 ==> r[c] == sample_at(self.width_spec(), self.data_spec(), x, y, c)
            }),
    {
        let x = if i <= self.width - 1 {
            i
        } else {
            self.width - 1
        };
        let y = if j <= self.height - 1 {
            j
        } else {
            self.height - 1
        };
        let w = self.width as usize;
        let len = self.data.len();
        proof {
            let n = len as int;
            assert(3 * (y as int * w as int + x as int) + 2 < n) by (nonlinear_arith)
                requires
                    x < w,
                    y < self.height,
                    w == self.width,
                    n == 3 * self.width as int * self.height as int,
            ;
        }
        let base = 3 * (y as usize * w + x as usize);
        [self.data[base], self.data[base + 1], self.data[base + 2]]
    }
}

} // verus!
