//! Encoders of packed RGBA pixels into image file formats.
//!
//! An encoder appends the bytes of the file to a byte vector; writing them to
//! a file or a stream is left to the caller.
use vstd::prelude::*;

pub mod bmp;
pub mod ppm;

pub use crate::imgfmt::bmp::write_bmp24_from_rgba_le_to_writer;
pub use crate::imgfmt::ppm::write_ppm_from_rgba_le_to_writer;
use crate::imgfmt::bmp::{bmp_error, bmp_file, file_header, image_size_field, PIXEL_DATA_OFFSET};
use crate::imgfmt::ppm::ppm_file;

verus! {

/// The image formats that can be written.
#[derive(Copy, Clone, Debug, PartialEq, Eq, Structural)]
pub enum Format {
    Ppm,
    Bmp24,
}

/// The class of an encoding error.
#[derive(Copy, Clone, Debug, PartialEq, Eq, Structural)]
pub enum ErrorKind {
    /// The arguments do not describe an image that can be written.
    InvalidInput,
}

/// Why an image could not be encoded.
#[derive(Copy, Clone, Debug, PartialEq, Eq, Structural)]
pub enum EncodeError {
    /// `width * height` does not fit the machine's word.
    SizeOverflow,
    /// Fewer than `width * height` pixels were given.
    BufferTooSmall,
    /// The bytes of one row do not fit the machine's word.
    RowBytesOverflow,
    /// The bytes of all rows do not fit the machine's word.
    ImageSizeOverflow,
    /// The file size does not fit 32 bits.
    FileSizeOverflow,
    /// The width does not fit a signed 32-bit header field.
    WidthTooLarge,
    /// The height does not fit a signed 32-bit header field.
    HeightTooLarge,
}

impl EncodeError {
    /// The class of the error; every encoding error is an invalid input.
    pub fn kind(&self) -> (k: ErrorKind)
        ensures
            k == ErrorKind::InvalidInput,
    {
        ErrorKind::InvalidInput
    }

    /// A short description of the error.
    pub fn message(&self) -> (m: &'static str)
        ensures
            m@ == self.spec_message()@,
    {
        match self {
            EncodeError::SizeOverflow => "width*height overflow",
            EncodeError::BufferTooSmall => "pixels buffer is smaller than width*height",
            EncodeError::RowBytesOverflow => "row bytes overflow",
            EncodeError::ImageSizeOverflow => "image size overflow",
            EncodeError::FileSizeOverflow => "file size overflow",
            EncodeError::WidthTooLarge => "width too large",
            EncodeError::HeightTooLarge => "height too large",
        }
    }

    /// The description that `message` returns.
    pub open spec fn spec_message(&self) -> &'static str {
        match self {
            EncodeError::SizeOverflow => "width*height overflow",
            EncodeError::BufferTooSmall => "pixels buffer is smaller than width*height",
            EncodeError::RowBytesOverflow => "row bytes overflow",
            EncodeError::ImageSizeOverflow => "image size overflow",
            EncodeError::FileSizeOverflow => "file size overflow",
            EncodeError::WidthTooLarge => "width too large",
            EncodeError::HeightTooLarge => "height too large",
        }
    }
}

/// The decimal digits of `n` as ASCII bytes, without leading zeros.
pub open spec fn decimal(n: nat) -> Seq<u8>
    decreases n,
{
    if n < 10 {
        seq![(48 + n) as u8]
    } else {
        decimal(n / 10).push((48 + n % 10) as u8)
    }
}

/// Appends the decimal digits of `n`.
pub(crate) fn push_decimal(out: &mut Vec<u8>, n: usize)
    ensures
        final(out)@ == old(out)@ + decimal(n as nat),
    decreases n,
{
    if n < 10 {
        out.push(48 + n as u8);
        assert(out@ =~= old(out)@ + decimal(n as nat));
    } else {
        push_decimal(out, n / 10);
        out.push(48 + (n % 10) as u8);
        assert(out@ =~= old(out)@ + decimal(n as nat));
    }
}

/// Appends a copy of `bytes`.
pub(crate) fn push_bytes(out: &mut Vec<u8>, bytes: &[u8])
    ensures
        final(out)@ == old(out)@ + bytes@,
{
    let mut i: usize = 0;
    while i < bytes.len()
        invariant
            i <= bytes.len(),
            out@ == old(out)@ + bytes@.subrange(0, i as int),
        decreases bytes.len() - i,
    {
        out.push(bytes[i]);
        assert(out@ =~= old(out)@ + bytes@.subrange(0, i + 1));
        i += 1;
    }
    assert(bytes@.subrange(0, bytes.len() as int) =~= bytes@);
}

/// The file of an image in the given format.
pub open spec fn encoded(format: Format, pixels: Seq<u32>, width: nat, height: nat) -> Seq<u8> {
    match format {
        Format::Ppm => ppm_file(pixels, width, height),
        Format::Bmp24 => bmp_file(pixels, width, height),
    }
}

/// Why an image of this size cannot be written in the given format, if it
/// cannot.
pub open spec fn encode_error(format: Format, len: int, width: int, height: int) -> Option<
    EncodeError,
> {
    match format {
        Format::Ppm => if width * height > usize::MAX {
            Some(EncodeError::SizeOverflow)
        } else if len < width * height {
            Some(EncodeError::BufferTooSmall)
        } else {
            None
        },
        Format::Bmp24 => bmp_error(len, width, height),
    }
}

/// Appends the file of the image, in the given format, to `w`.
pub fn save_rgba_le_to_writer(
    pixels: &[u32],
    width: usize,
    height: usize,
    format: Format,
    w: &mut Vec<u8>,
) -> (r: Result<(), EncodeError>)
    ensures
        match r {
            Ok(_) => {
                &&& encode_error(format, pixels.len() as int, width as int, height as int) is None
                &&& final(w)@ == old(w)@ + encoded(format, pixels@, width as nat, height as nat)
            },
            Err(e) => {
                &&& encode_error(format, pixels.len() as int, width as int, height as int) == Some(
                    e,
                )
                &&& final(w)@ == (if e == EncodeError::WidthTooLarge || e
                    == EncodeError::HeightTooLarge {
                    old(w)@ + file_header(
                        (PIXEL_DATA_OFFSET + image_size_field(width as int, height as int)) as u32,
                    )
                } else {
                    old(w)@
                })
            },
        },
{
    match format {
        Format::Ppm => write_ppm_from_rgba_le_to_writer(pixels, width, height, w),
        Format::Bmp24 => write_bmp24_from_rgba_le_to_writer(pixels, width, height, w),
    }
}

} // verus!
