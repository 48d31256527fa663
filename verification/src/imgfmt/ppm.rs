//! Binary PPM (P6).
use vstd::prelude::*;
use crate::imgfmt::{decimal, push_decimal, EncodeError};
use crate::pix::byte_of;

verus! {

/// The header of a P6 file: `P6`, the width and the height in decimal, and
/// the greatest channel value 255, each followed by a line feed (the width
/// by a space).
pub open spec fn ppm_header(width: nat, height: nat) -> Seq<u8> {
    seq![80u8, 54u8, 10u8] + decimal(width) + seq![32u8] + decimal(height) + seq![
        10u8,
        50u8,
        53u8,
        53u8,
        10u8,
    ]
}

/// Red, green and blue of the first `count` pixels; alpha is left out.
pub open spec fn rgb_payload(pixels: Seq<u32>, count: nat) -> Seq<u8>
    decreases count,
{
    if count == 0 {
        Seq::<u8>::empty()
    } else {
        rgb_payload(pixels, (count - 1) as nat) + seq![
            byte_of(pixels[count - 1], 0),
            byte_of(pixels[count - 1], 1),
            byte_of(pixels[count - 1], 2),
        ]
    }
}

/// The P6 file of an image of `width` by `height` pixels.
pub open spec fn ppm_file(pixels: Seq<u32>, width: nat, height: nat) -> Seq<u8> {
    ppm_header(width, height) + rgb_payload(pixels, width * height)
}

/// The payload holds three bytes for each pixel.
pub proof fn lemma_rgb_payload_len(pixels: Seq<u32>, count: nat)
    ensures
        rgb_payload(pixels, count).len() == 3 * count,
    decreases count,
{
    if count > 0 {
        lemma_rgb_payload_len(pixels, (count - 1) as nat);
    }
}

/// Appends the binary PPM (P6) file of the image to `w`.
///
/// Fails, and appends nothing, when `width * height` overflows or `pixels`
/// holds fewer pixels than that. Pixels beyond `width * height` are ignored.
pub fn write_ppm_from_rgba_le_to_writer(
    pixels: &[u32],
    width: usize,
    height: usize,
    w: &mut Vec<u8>,
) -> (r: Result<(), EncodeError>)
    ensures
        match r {
            Ok(_) => {
                &&& width * height <= pixels.len()
                &&& final(w)@ == old(w)@ + ppm_file(pixels@, width as nat, height as nat)
            },
            Err(e) => {
                &&& final(w)@ == old(w)@
                &&& e == (if width * height > usize::MAX {
                    EncodeError::SizeOverflow
                } else {
                    EncodeError::BufferTooSmall
                })
                &&& width * height > pixels.len()
            },
        },
{
    let count = match width.checked_mul(height) {
        Some(c) => c,
        None => {
            return Err(EncodeError::SizeOverflow);
        },
    };
    if pixels.len() < count {
        return Err(EncodeError::BufferTooSmall);
    }
    w.push(80);
    w.push(54);
    w.push(10);
    push_decimal(w, width);
    w.push(32);
    push_decimal(w, height);
    w.push(10);
    w.push(50);
    w.push(53);
    w.push(53);
    w.push(10);
    assert(w@ =~= old(w)@ + ppm_header(width as nat, height as nat));
    let mut i: usize = 0;
    while i < count
        invariant
            i <= count <= pixels.len(),
            w@ == old(w)@ + ppm_header(width as nat, height as nat) + rgb_payload(
                pixels@,
                i as nat,
            ),
        decreases count - i,
    {
        let px = pixels[i];
        let ghost prev = w@;
        w.push((px & 0xff) as u8);
        w.push(((px >> 8) & 0xff) as u8);
        w.push(((px >> 16) & 0xff) as u8);
        assert(w@ =~= prev + seq![byte_of(px, 0), byte_of(px, 1), byte_of(px, 2)]);
        assert(w@ =~= old(w)@ + ppm_header(width as nat, height as nat) + rgb_payload(
            pixels@,
            (i + 1) as nat,
        ));
        i += 1;
    }
    assert(w@ =~= old(w)@ + ppm_file(pixels@, width as nat, height as nat));
    Ok(())
}

} // verus!
