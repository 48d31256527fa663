//! The byte streams of a terminal backend: truecolor escape sequences for
//! pixels, and the parsing of key presses.
//!
//! Nothing here touches the terminal: frames are built in a byte vector and
//! input is parsed from bytes that the caller has read.
use vstd::prelude::*;
use crate::imgfmt::{decimal, push_decimal};
use crate::pix::byte_of;
use crate::platform::{Event, Key, WindowConfig};

verus! {

/// Escape sequence that enters the alternate screen, hides the cursor,
/// clears the screen and moves to its top-left corner:
/// `ESC[?1049h ESC[?25l ESC[2J ESC[H`.
pub open spec fn enter_sequence() -> Seq<u8> {
    seq![
        27u8, 91u8, 63u8, 49u8, 48u8, 52u8, 57u8, 104u8,
        27u8, 91u8, 63u8, 50u8, 53u8, 108u8,
        27u8, 91u8, 50u8, 74u8,
        27u8, 91u8, 72u8,
    ]
}

/// Escape sequence that shows the cursor, resets the attributes and leaves
/// the alternate screen: `ESC[?25h ESC[0m ESC[?1049l`.
pub open spec fn leave_sequence() -> Seq<u8> {
    seq![
        27u8, 91u8, 63u8, 50u8, 53u8, 104u8,
        27u8, 91u8, 48u8, 109u8,
        27u8, 91u8, 63u8, 49u8, 48u8, 52u8, 57u8, 108u8,
    ]
}

/// Escape sequence that moves to the top-left corner: `ESC[H`.
pub open spec fn home_sequence() -> Seq<u8> {
    seq![27u8, 91u8, 72u8]
}

/// Escape sequence that resets the attributes, and a line feed: `ESC[0m\n`.
pub open spec fn reset_line() -> Seq<u8> {
    seq![27u8, 91u8, 48u8, 109u8, 10u8]
}

/// Escape sequence that sets the background to the colour of the packed
/// pixel: `ESC[48;2;R;G;Bm` with the channels in decimal.
pub open spec fn background(px: u32) -> Seq<u8> {
    seq![27u8, 91u8, 52u8, 56u8, 59u8, 50u8, 59u8] + decimal(byte_of(px, 0) as nat) + seq![59u8]
        + decimal(byte_of(px, 1) as nat) + seq![59u8] + decimal(byte_of(px, 2) as nat) + seq![
        109u8,
    ]
}

/// Whether two packed pixels have the same red, green and blue.
pub open spec fn same_rgb(a: u32, b: u32) -> bool {
    byte_of(a, 0) == byte_of(b, 0) && byte_of(a, 1) == byte_of(b, 1) && byte_of(a, 2) == byte_of(
        b,
        2,
    )
}

/// The cells of the first `n` pixels of a row: one space for each pixel,
/// with the background set before the first pixel and wherever the colour
/// changes.
pub open spec fn row_cells(row: Seq<u32>, n: nat) -> Seq<u8>
    decreases n,
{
    if n == 0 {
        Seq::<u8>::empty()
    } else if n == 1 {
        background(row[0]) + seq![32u8]
    } else {
        row_cells(row, (n - 1) as nat) + (if same_rgb(row[n - 1], row[n - 2]) {
            Seq::<u8>::empty()
        } else {
            background(row[n - 1])
        }) + seq![32u8]
    }
}

/// The line of a row of pixels: its cells, then the attributes are reset
/// and the line ends.
pub open spec fn row_line(row: Seq<u32>) -> Seq<u8> {
    row_cells(row, row.len()) + reset_line()
}

/// `n` spaces.
pub open spec fn spaces(n: nat) -> Seq<u8> {
    Seq::new(n, |i: int| 32u8)
}

/// The lines of the first `rows` rows of an image `width` pixels wide.
pub open spec fn frame_lines(pixels: Seq<u32>, width: nat, rows: nat) -> Seq<u8>
    decreases rows,
{
    if rows == 0 {
        Seq::<u8>::empty()
    } else {
        frame_lines(pixels, width, (rows - 1) as nat) + row_line(
            pixels.subrange((rows - 1) * width, (rows - 1) * width + width),
        )
    }
}

/// The bytes that show an image: the cursor goes home, then one line for
/// each row.
pub open spec fn frame_bytes(pixels: Seq<u32>, width: nat, height: nat) -> Seq<u8> {
    home_sequence() + frame_lines(pixels, width, height)
}

/// The key press that the bytes start with, and the number of bytes it
/// takes: an arrow key (`ESC [ A` to `D`), escape, enter, backspace or a
/// printable ASCII character. `None` for no bytes, for `ESC [` with another
/// third byte, and for any other first byte.
pub open spec fn parsed(buf: Seq<u8>) -> Option<(Event, usize)> {
    if buf.len() == 0 {
        None
    } else if buf[0] == 0x1b {
        if buf.len() >= 3 && buf[1] == 91 {
            if buf[2] == 65 {
                Some((Event::KeyDown(Key::Up), 3usize))
            } else if buf[2] == 66 {
                Some((Event::KeyDown(Key::Down), 3usize))
            } else if buf[2] == 67 {
                Some((Event::KeyDown(Key::Right), 3usize))
            } else if buf[2] == 68 {
                Some((Event::KeyDown(Key::Left), 3usize))
            } else {
                None
            }
        } else {
            Some((Event::KeyDown(Key::Escape), 1usize))
        }
    } else if buf[0] == 13 || buf[0] == 10 {
        Some((Event::KeyDown(Key::Enter), 1usize))
    } else if buf[0] == 0x7f || buf[0] == 0x08 {
        Some((Event::KeyDown(Key::Backspace), 1usize))
    } else if 0x20 <= buf[0] <= 0x7e {
        Some((Event::KeyDown(Key::Char(buf[0] as char)), 1usize))
    } else {
        None
    }
}

/// The escape sequences that frame a session on the terminal.
#[derive(Copy, Clone, Debug)]
pub struct TermGuard;

impl TermGuard {
    /// Appends the sequence that enters the alternate screen.
    pub fn emit_enter(w: &mut Vec<u8>)
        ensures
            final(w)@ == old(w)@ + enter_sequence(),
    {
        w.push(27);
        w.push(91);
        w.push(63);
        w.push(49);
        w.push(48);
        w.push(52);
        w.push(57);
        w.push(104);
        w.push(27);
        w.push(91);
        w.push(63);
        w.push(50);
        w.push(53);
        w.push(108);
        w.push(27);
        w.push(91);
        w.push(50);
        w.push(74);
        w.push(27);
        w.push(91);
        w.push(72);
        assert(w@ =~= old(w)@ + enter_sequence());
    }

    /// Appends the sequence that leaves the alternate screen.
    pub fn emit_leave(w: &mut Vec<u8>)
        ensures
            final(w)@ == old(w)@ + leave_sequence(),
    {
        w.push(27);
        w.push(91);
        w.push(63);
        w.push(50);
        w.push(53);
        w.push(104);
        w.push(27);
        w.push(91);
        w.push(48);
        w.push(109);
        w.push(27);
        w.push(91);
        w.push(63);
        w.push(49);
        w.push(48);
        w.push(52);
        w.push(57);
        w.push(108);
        assert(w@ =~= old(w)@ + leave_sequence());
    }
}

/// Why a frame could not be shown.
#[derive(Copy, Clone, Debug, PartialEq, Eq, Structural)]
pub enum PresentError {
    /// Fewer than `width * height` pixels were given.
    BufferTooSmall,
}

/// The state of a terminal backend: the size of its drawable area and the
/// input bytes that have not been parsed yet.
#[derive(Debug)]
pub struct TermPlatform {
    size: (u32, u32),
    input_buf: Vec<u8>,
}

impl TermPlatform {
    /// Size of the drawable area.
    pub closed spec fn spec_size(&self) -> (u32, u32) {
        self.size
    }

    /// The input bytes that wait to be parsed.
    pub closed spec fn pending(&self) -> Seq<u8> {
        self.input_buf@
    }

    /// A backend of the size that `config` asks for, without pending input.
    pub fn new(config: &WindowConfig) -> (t: TermPlatform)
        ensures
            t.spec_size() == (config.width, config.height),
            t.pending() == Seq::<u8>::empty(),
    {
        TermPlatform { size: (config.width, config.height), input_buf: Vec::with_capacity(64) }
    }

    /// Size of the drawable area.
    pub fn size(&self) -> (s: (u32, u32))
        ensures
            s == self.spec_size(),
    {
        self.size
    }

    /// Takes in bytes that were read from the terminal.
    pub fn push_input(&mut self, bytes: &[u8])
        ensures
            final(self).spec_size() == old(self).spec_size(),
            final(self).pending() == old(self).pending() + bytes@,
    {
        crate::imgfmt::push_bytes(&mut self.input_buf, bytes);
    }

    /// The key press at the front of the pending input, if the input starts
    /// with one; its bytes are taken out of the input.
    pub fn take_event(&mut self) -> (r: Option<Event>)
        ensures
            final(self).spec_size() == old(self).spec_size(),
            match parsed(old(self).pending()) {
                Some((ev, used)) => r == Some(ev) && final(self).pending() == old(
                    self,
                ).pending().subrange(used as int, old(self).pending().len() as int),
                None => r is None && final(self).pending() == old(self).pending(),
            },
    {
        match TermPlatform::parse_event(self.input_buf.as_slice()) {
            Some((ev, used)) => {
                let rest = self.input_buf.split_off(used);
                self.input_buf = rest;
                Some(ev)
            },
            None => None,
        }
    }

    /// The key press that `buf` starts with, and the number of bytes that
    /// it takes.
    pub fn parse_event(buf: &[u8]) -> (r: Option<(Event, usize)>)
        ensures
            r == parsed(buf@),
            r matches Some((_, used)) ==> 1 <= used <= buf.len(),
    {
        if buf.len() == 0 {
            return None;
        }
        let b0 = buf[0];
        if b0 == 0x1b {
            if buf.len() >= 3 && buf[1] == 91 {
                let b2 = buf[2];
                if b2 == 65 {
                    Some((Event::KeyDown(Key::Up), 3))
                } else if b2 == 66 {
                    Some((Event::KeyDown(Key::Down), 3))
                } else if b2 == 67 {
                    Some((Event::KeyDown(Key::Right), 3))
                } else if b2 == 68 {
                    Some((Event::KeyDown(Key::Left), 3))
                } else {
                    None
                }
            } else {
                Some((Event::KeyDown(Key::Escape), 1))
            }
        } else if b0 == 13 || b0 == 10 {
            Some((Event::KeyDown(Key::Enter), 1))
        } else if b0 == 0x7f || b0 == 0x08 {
            Some((Event::KeyDown(Key::Backspace), 1))
        } else if 0x20 <= b0 && b0 <= 0x7e {
            Some((Event::KeyDown(Key::Char(b0 as char)), 1))
        } else {
            None
        }
    }

    /// Appends `len` spaces.
    pub fn write_spaces(w: &mut Vec<u8>, len: usize)
        ensures
            final(w)@ == old(w)@ + spaces(len as nat),
    {
        let mut i: usize = 0;
        while i < len
            invariant
                i <= len,
                w@ == old(w)@ + spaces(i as nat),
            decreases len - i,
        {
            w.push(32);
            assert(w@ =~= old(w)@ + spaces((i + 1) as nat));
            i += 1;
        }
    }

    /// Appends the line of a row of pixels: runs of one colour are written
    /// as the background escape for the colour and a space for each pixel;
    /// the line ends with a reset and a line feed.
    pub fn write_row_truecolor(w: &mut Vec<u8>, row: &[u32])
        ensures
            final(w)@ == old(w)@ + row_line(row@),
    {
        if row.len() == 0 {
            push_reset_line(w);
            return ;
        }
        let mut cur = row[0];
        let mut run: usize = 1;
        push_background(w, cur);
        let mut i: usize = 1;
        while i < row.len()
            invariant
                1 <= i <= row.len(),
                1 <= run <= i,
                same_rgb(cur, row[i - 1]),
                w@ + spaces(run as nat) == old(w)@ + row_cells(row@, i as nat),
            decreases row.len() - i,
        {
            let px = row[i];
            let ghost before = w@;
            let ghost before_run = run as nat;
            if same_color(px, cur) {
                run += 1;
                assert(before + spaces(run as nat) =~= before + spaces(before_run) + seq![32u8]);
            } else {
                TermPlatform::write_spaces(w, run);
                push_background(w, px);
                cur = px;
                run = 1;
                assert(w@ + spaces(1) =~= before + spaces(before_run) + background(px) + seq![
                    32u8,
                ]);
            }
            assert(w@ + spaces(run as nat) =~= old(w)@ + row_cells(row@, (i + 1) as nat));
            i += 1;
        }
        TermPlatform::write_spaces(w, run);
        push_reset_line(w);
    }

    /// Appends the bytes that show an image of `width` by `height` pixels:
    /// the cursor goes home, then one line for each row.
    ///
    /// Fails, and appends nothing, when `pixels_rgba_le` holds fewer than
    /// `width * height` pixels.
    pub fn present_to_writer(
        &mut self,
        width: u32,
        height: u32,
        pixels_rgba_le: &[u32],
        w: &mut Vec<u8>,
    ) -> (r: Result<(), PresentError>)
        ensures
            *final(self) == *old(self),
            match r {
                Ok(_) => {
                    &&& width * height <= pixels_rgba_le.len()
                    &&& final(w)@ == old(w)@ + frame_bytes(
                        pixels_rgba_le@,
                        width as nat,
                        height as nat,
                    )
                },
                Err(e) => {
                    &&& e == PresentError::BufferTooSmall
                    &&& width * height > pixels_rgba_le.len()
                    &&& final(w)@ == old(w)@
                },
            },
    {
        let w_u = width as usize;
        let h_u = height as usize;
        let count = match w_u.checked_mul(h_u) {
            Some(c) => c,
            None => {
                return Err(PresentError::BufferTooSmall);
            },
        };
        if pixels_rgba_le.len() < count {
            return Err(PresentError::BufferTooSmall);
        }
        w.push(27);
        w.push(91);
        w.push(72);
        assert(w@ =~= old(w)@ + home_sequence());
        let mut y: usize = 0;
        while y < h_u
            invariant
                y <= h_u,
                count == w_u * h_u,
                count <= pixels_rgba_le.len(),
                w_u == width,
                w@ == old(w)@ + home_sequence() + frame_lines(
                    pixels_rgba_le@,
                    width as nat,
                    y as nat,
                ),
            decreases h_u - y,
        {
            proof {
                assert(y * w_u + w_u <= w_u * h_u) by (nonlinear_arith)
                    requires
                        y < h_u,
                ;
            }
            let start = y * w_u;
            let row = slice_range(pixels_rgba_le, start, start + w_u);
            TermPlatform::write_row_truecolor(w, row);
            assert(w@ =~= old(w)@ + home_sequence() + frame_lines(
                pixels_rgba_le@,
                width as nat,
                (y + 1) as nat,
            ));
            y += 1;
        }
        assert(w@ =~= old(w)@ + frame_bytes(pixels_rgba_le@, width as nat, height as nat));
        Ok(())
    }
}

/// The part of `s` from `from` up to `to`.
fn slice_range(s: &[u32], from: usize, to: usize) -> (r: &[u32])
    requires
        from <= to <= s.len(),
    ensures
        r@ == s@.subrange(from as int, to as int),
{
    &s[from..to]
}

/// Whether two packed pixels have the same red, green and blue.
fn same_color(a: u32, b: u32) -> (r: bool)
    ensures
        r == same_rgb(a, b),
{
    (a & 0xff) as u8 == (b & 0xff) as u8 && ((a >> 8) & 0xff) as u8 == ((b >> 8) & 0xff) as u8 && ((
    a >> 16) & 0xff) as u8 == ((b >> 16) & 0xff) as u8
}

/// Appends the background escape for the colour of a packed pixel.
fn push_background(w: &mut Vec<u8>, px: u32)
    ensures
        final(w)@ == old(w)@ + background(px),
{
    w.push(27);
    w.push(91);
    w.push(52);
    w.push(56);
    w.push(59);
    w.push(50);
    w.push(59);
    push_decimal(w, ((px & 0xff) as u8) as usize);
    w.push(59);
    push_decimal(w, (((px >> 8) & 0xff) as u8) as usize);
    w.push(59);
    push_decimal(w, (((px >> 16) & 0xff) as u8) as usize);
    w.push(109);
    assert(w@ =~= old(w)@ + background(px));
}

/// Appends the reset of the attributes and a line feed.
fn push_reset_line(w: &mut Vec<u8>)
    ensures
        final(w)@ == old(w)@ + reset_line(),
{
    w.push(27);
    w.push(91);
    w.push(48);
    w.push(109);
    w.push(10);
    assert(w@ =~= old(w)@ + reset_line());
}

} // verus!
