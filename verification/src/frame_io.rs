//! Writing a frame as an image file.
use vstd::prelude::*;
use crate::frame::Frame;
use crate::imgfmt::ppm::ppm_file;
use crate::imgfmt::EncodeError;

verus! {

/// Appends the binary PPM (P6) file of the frame to `w`; alpha is left out.
pub fn write_ppm_to_writer(frame: &Frame, w: &mut Vec<u8>) -> (r: Result<(), EncodeError>)
    ensures
        r is Ok,
        final(w)@ == old(w)@ + ppm_file(frame@, frame.spec_width(), frame.spec_height()),
{
    crate::pix_io::write_ppm_to_writer(frame.surface(), w)
}

} // verus!
