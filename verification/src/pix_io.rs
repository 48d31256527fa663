//! Writing a surface as an image file.
use vstd::prelude::*;
use crate::imgfmt::bmp::{
    bmp_error, bmp_file, file_header, image_size_field, write_bmp24_from_rgba_le_to_writer,
    PIXEL_DATA_OFFSET,
};
use crate::imgfmt::ppm::{ppm_file, write_ppm_from_rgba_le_to_writer};
use crate::imgfmt::EncodeError;
use crate::pix::Surface;

verus! {

/// Appends the binary PPM (P6) file of the surface to `w`; alpha is left
/// out. A surface always holds the pixels that its size asks for, so this
/// does not fail.
pub fn write_ppm_to_writer(surface: &Surface, w: &mut Vec<u8>) -> (r: Result<(), EncodeError>)
    ensures
        r is Ok,
        final(w)@ == old(w)@ + ppm_file(surface@, surface.spec_width(), surface.spec_height()),
{
    proof {
        surface.lemma_view_len();
    }
    write_ppm_from_rgba_le_to_writer(surface.pixels(), surface.width(), surface.height(), w)
}

/// Appends the 24-bit BMP file of the surface to `w`, rows from the top
/// down. Fails when the surface is too large for the format.
pub fn write_bmp_to_writer(surface: &Surface, w: &mut Vec<u8>) -> (r: Result<(), EncodeError>)
    ensures
        match r {
            Ok(_) => {
                &&& bmp_error(
                    surface@.len() as int,
                    surface.spec_width() as int,
                    surface.spec_height() as int,
                ) is None
                &&& final(w)@ == old(w)@ + bmp_file(
                    surface@,
                    surface.spec_width(),
                    surface.spec_height(),
                )
            },
            Err(e) => {
                &&& bmp_error(
                    surface@.len() as int,
                    surface.spec_width() as int,
                    surface.spec_height() as int,
                ) == Some(e)
                &&& final(w)@ == (if e == EncodeError::WidthTooLarge || e
                    == EncodeError::HeightTooLarge {
                    old(w)@ + file_header(
                        (PIXEL_DATA_OFFSET + image_size_field(
                            surface.spec_width() as int,
                            surface.spec_height() as int,
                        )) as u32,
                    )
                } else {
                    old(w)@
                })
            },
        },
{
    write_bmp24_from_rgba_le_to_writer(surface.pixels(), surface.width(), surface.height(), w)
}

} // verus!
