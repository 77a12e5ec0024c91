//! Draws CD+G.
use crate::cdgconstants::{CDG_HEIGHT, CDG_WIDTH};
use image::GenericImageView;
use vstd::prelude::*;

verus! {

#[verifier::external_type_specification]
#[verifier::external_body]
pub struct ExCommand(cdg::Command);

#[verifier::external_type_specification]
#[verifier::external_body]
pub struct ExCdgInterpreter(cdg_renderer::CdgInterpreter);

/// What an interpreter has drawn.
pub struct ScreenView {
    /// The colors, as red, green and blue.
    pub colors: Seq<(u8, u8, u8)>,
    /// The numbers of the colors, row by row.
    pub content: Seq<Seq<u8>>,
    /// How many tiles the screen was scrolled to the left, and up.
    pub tile_shift: (int, int),
    /// How many pixels it was scrolled then.
    pub pixel_shift: (int, int),
    pub border: u8,
    /// The color that is not drawn.
    pub transparent: u8,
}

/// What an interpreter has drawn.
pub uninterp spec fn screen(interpreter: cdg_renderer::CdgInterpreter) -> ScreenView;

/// The command of a packet.
pub uninterp spec fn command_of(data: Seq<u8>) -> Option<cdg::Command>;

/// Whether there is a packet with this command.
pub open spec fn is_packet_command(command: cdg::Command) -> bool {
    exists|data: Seq<u8>| #[trigger] command_of(data) == Some(command)
}

/// What an interpreter has drawn once it carried out a command.
pub uninterp spec fn drawn(view: ScreenView, command: cdg::Command) -> ScreenView;

/// Whether each pixel has one of 16 colors.
pub open spec fn is_screen(view: ScreenView) -> bool {
    &&& view.colors.len() == 16
    &&& view.content.len() == CDG_HEIGHT
    &&& view.tile_shift.0 >= 0
    &&& view.tile_shift.1 >= 0
    &&& forall|y: int|
        0 <= y < view.content.len() ==> (#[trigger] view.content[y]).len() == CDG_WIDTH
    &&& forall|y: int, x: int|
        0 <= y < view.content.len() && 0 <= x < view.content[y].len()
            ==> #[trigger] view.content[y][x] < 16
}

/// A color of a new interpreter: green and blue are there or not, and all are bright in the second
/// half. None has any red.
pub open spec fn first_color(number: int) -> (u8, u8, u8) {
    let (dark, light) = if number < 8 {
        (0u8, 170u8)
    } else {
        (85u8, 255u8)
    };
    (
        0,
        if number / 2 % 2 == 1 {
            light
        } else {
            dark
        },
        if number % 2 == 1 {
            light
        } else {
            dark
        },
    )
}

/// The colors of a new interpreter.
pub open spec fn first_colors() -> Seq<(u8, u8, u8)> {
    Seq::new(16, |i: int| first_color(i))
}

/// An empty screen with the given colors.
pub open spec fn empty_screen(colors: Seq<(u8, u8, u8)>) -> ScreenView {
    ScreenView {
        colors,
        content: Seq::new(
            CDG_HEIGHT as nat,
            |y: int| Seq::new(CDG_WIDTH as nat, |x: int| 0u8),
        ),
        tile_shift: (0, 0),
        pixel_shift: (0, 0),
        border: 0,
        transparent: 255,
    }
}

/// The pixel in the given place, as red, green, blue and opacity. Tiles are 6 by 12 pixels large.
pub open spec fn pixel(view: ScreenView, x: int, y: int) -> Seq<u8> {
    let color = view.content[(y + view.tile_shift.1 * 12) % (CDG_HEIGHT as int)][(x
        + view.tile_shift.0 * 6) % (CDG_WIDTH as int)];
    let (r, g, b) = view.colors[color as int];
    seq![
        r,
        g,
        b,
        if color == view.transparent {
            0
        } else {
            255
        },
    ]
}

/// `decode_subchannel_cmd` of `cdg`: reads a packet. Only 24 bytes of which the first one begins a
/// packet are a command.
#[verifier::external_body]
fn decode_subchannel_cmd(data: &[u8]) -> (r: Option<cdg::Command>)
    ensures
        r == command_of(data@),
        r is Some ==> data@.len() == 24 && crate::cdgconstants::begins_packet(data@[0]),
{
    cdg::decode_subchannel_cmd(data)
}

/// `CdgInterpreter::new` of `cdg_renderer`: an empty screen with the first colors. `RgbColor` of
/// `cdg` keeps none of the red that these are made with.
#[verifier::external_body]
fn new_interpreter() -> (r: cdg_renderer::CdgInterpreter)
    ensures
        screen(r) == empty_screen(first_colors()),
{
    cdg_renderer::CdgInterpreter::new()
}

/// `CdgInterpreter::reset` of `cdg_renderer`: an empty screen, which keeps the colors unless these
/// are to be the first ones again.
#[verifier::external_body]
fn reset_interpreter(interpreter: &mut cdg_renderer::CdgInterpreter, reset_color: bool)
    ensures
        screen(*final(interpreter)) == empty_screen(
            if reset_color {
                first_colors()
            } else {
                screen(*old(interpreter)).colors
            },
        ),
{
    interpreter.reset(reset_color);
}

/// `CdgInterpreter::handle_cmd` of `cdg_renderer`: carries out the command of a packet. In a packet
/// a color has four bits, and a palette is the lower or the upper half of all colors. What is drawn
/// are such colors, and exclusive-ors of them with what was there.
#[verifier::external_body]
fn handle_cmd(interpreter: &mut cdg_renderer::CdgInterpreter, command: cdg::Command)
    requires
        is_packet_command(command),
    ensures
        screen(*final(interpreter)) == drawn(screen(*old(interpreter)), command),
        is_screen(screen(*old(interpreter))) ==> is_screen(screen(*final(interpreter))),
{
    interpreter.handle_cmd(command);
}

/// `GenericImageView::get_pixel` of `cdg_renderer`'s `CdgInterpreter`: the pixel in the given
/// place, byte for byte.
#[verifier::external_body]
fn get_pixel(interpreter: &cdg_renderer::CdgInterpreter, x: u32, y: u32) -> (r: [u8; 4])
    requires
        x < CDG_WIDTH,
        y < CDG_HEIGHT,
        is_screen(screen(*interpreter)),
    ensures
        r@ == pixel(screen(*interpreter), x as int, y as int),
{
    interpreter.get_pixel(x, y).0
}

/// How many lines of the given length a plane has, at most those of the screen.
pub open spec fn lines_in(len: int, stride: int) -> int {
    if len / stride < CDG_HEIGHT {
        len / stride
    } else {
        CDG_HEIGHT as int
    }
}

/// How many pixels a line has, at most those of the screen.
pub open spec fn pixels_in(stride: int) -> int {
    if stride / 4 < CDG_WIDTH {
        stride / 4
    } else {
        CDG_WIDTH as int
    }
}

/// What a byte of a plane is once the screen was drawn on its first lines: a byte of a pixel, or
/// what it was.
pub open spec fn drawn_byte(view: ScreenView, plane: Seq<u8>, stride: int, lines: int, i: int) -> u8 {
    let y = i / stride;
    let x = i % stride / 4;
    if y < lines && x < pixels_in(stride) {
        pixel(view, x, y)[i % stride % 4]
    } else {
        plane[i]
    }
}

/// Draws CD+G.
pub struct CdgDec {
    pub cdg_inter: cdg_renderer::CdgInterpreter,
}

impl CdgDec {
    /// Each pixel has one of 16 colors.
    pub open spec fn wf(&self) -> bool {
        is_screen(screen(self.cdg_inter))
    }

    /// An empty screen.
    pub fn new() -> (r: Self)
        ensures
            r.wf(),
            screen(r.cdg_inter) == empty_screen(first_colors()),
    {
        CdgDec { cdg_inter: new_interpreter() }
    }

    /// The end: an empty screen with the first colors.
    pub fn stop(&mut self)
        ensures
            final(self).wf(),
            screen(final(self).cdg_inter) == empty_screen(first_colors()),
    {
        reset_interpreter(&mut self.cdg_inter, true);
    }

    /// An empty screen with the same colors.
    pub fn flush(&mut self)
        ensures
            old(self).wf() ==> final(self).wf(),
            screen(final(self).cdg_inter) == empty_screen(screen(old(self).cdg_inter).colors),
    {
        reset_interpreter(&mut self.cdg_inter, false);
    }

    /// Carries out a packet. Says whether it was one, so that the screen is to be shown.
    pub fn handle_frame(&mut self, data: &[u8]) -> (r: bool)
        ensures
            old(self).wf() ==> final(self).wf(),
            r == (command_of(data@) is Some),
            screen(final(self).cdg_inter) == match command_of(data@) {
                Some(command) => drawn(screen(old(self).cdg_inter), command),
                None => screen(old(self).cdg_inter),
            },
            r ==> data@.len() == 24 && crate::cdgconstants::begins_packet(data@[0]),
    {
        match decode_subchannel_cmd(data) {
            Some(command) => {
                assert(command_of(data@) == Some(command));
                handle_cmd(&mut self.cdg_inter, command);
                true
            },
            None => false,
        }
    }

    fn draw_line(&self, plane: &mut Vec<u8>, start: usize, stride: usize, y: u32)
        requires
            self.wf(),
            stride > 0,
            y < CDG_HEIGHT,
            start == y * stride,
            start + stride <= old(plane)@.len(),
        ensures
            final(plane)@.len() == old(plane)@.len(),
            forall|i: int|
                0 <= i < old(plane)@.len() ==> #[trigger] final(plane)@[i] == if start <= i < start
                    + stride && (i - start) / 4 < pixels_in(stride as int) {
                    pixel(screen(self.cdg_inter), (i - start) / 4, y as int)[(i - start) % 4]
                } else {
                    old(plane)@[i]
                },
    {
        let ghost was = plane@;
        let n: u32 = if stride / 4 < CDG_WIDTH as usize {
            (stride / 4) as u32
        } else {
            CDG_WIDTH
        };
        let mut x: u32 = 0;
        assert(plane.len() <= usize::MAX);
        while x < n
            invariant
                self.wf(),
                n <= CDG_WIDTH,
                n == pixels_in(stride as int),
                4 * n <= stride,
                x <= n,
                y < CDG_HEIGHT,
                start + stride <= was.len(),
                was.len() <= usize::MAX,
                plane@.len() == was.len(),
                forall|i: int|
                    0 <= i < was.len() ==> #[trigger] plane@[i] == if start <= i < start + stride
                        && (i - start) / 4 < x {
                        pixel(screen(self.cdg_inter), (i - start) / 4, y as int)[(i - start) % 4]
                    } else {
                        was[i]
                    },
            decreases n - x,
        {
            let p: [u8; 4] = get_pixel(&self.cdg_inter, x, y);
            let at: usize = start + 4 * x as usize;
            let ghost before = plane@;
            plane.set(at, p[0]);
            plane.set(at + 1, p[1]);
            plane.set(at + 2, p[2]);
            plane.set(at + 3, p[3]);
            assert forall|i: int| 0 <= i < was.len() implies #[trigger] plane@[i] == if start <= i
                < start + stride && (i - start) / 4 < x + 1 {
                pixel(screen(self.cdg_inter), (i - start) / 4, y as int)[(i - start) % 4]
            } else {
                was[i]
            } by {
                if at <= i < at + 4 {
                    assert((i - start) / 4 == x);
                    assert((i - start) % 4 == i - at);
                } else {
                    assert(plane@[i] == before[i]);
                }
            }
            x += 1;
        }
    }

    /// Draws the screen on a plane, of which each line has the given number of bytes.
    pub fn draw(&self, plane: &mut Vec<u8>, stride: usize)
        requires
            self.wf(),
            stride > 0,
        ensures
            final(plane)@.len() == old(plane)@.len(),
            forall|i: int|
                0 <= i < old(plane)@.len() ==> #[trigger] final(plane)@[i] == drawn_byte(
                    screen(self.cdg_inter),
                    old(plane)@,
                    stride as int,
                    lines_in(old(plane)@.len() as int, stride as int),
                    i,
                ),
    {
        let ghost was = plane@;
        let ghost view = screen(self.cdg_inter);
        let whole: usize = plane.len() / stride;
        let lines: u32 = if whole < CDG_HEIGHT as usize {
            whole as u32
        } else {
            CDG_HEIGHT
        };
        let mut y: u32 = 0;
        let mut start: usize = 0;
        assert(whole * stride <= was.len()) by (nonlinear_arith)
            requires
                whole == was.len() / stride as nat,
                stride > 0,
        ;
        assert forall|i: int| 0 <= i < was.len() implies #[trigger] was[i] == drawn_byte(
            view,
            was,
            stride as int,
            0,
            i,
        ) by {
            assert(i / stride as int >= 0) by (nonlinear_arith)
                requires
                    i >= 0,
                    stride > 0,
            ;
        }
        while y < lines
            invariant
                self.wf(),
                stride > 0,
                y <= lines,
                lines <= CDG_HEIGHT,
                lines <= whole,
                whole * stride <= was.len(),
                was.len() <= usize::MAX,
                start == y * stride,
                plane@.len() == was.len(),
                view == screen(self.cdg_inter),
                forall|i: int|
                    0 <= i < was.len() ==> #[trigger] plane@[i] == drawn_byte(
                        view,
                        was,
                        stride as int,
                        y as int,
                        i,
                    ),
            decreases lines - y,
        {
            assert((y + 1) * stride == y * stride + stride && (y + 1) * stride <= whole * stride)
                by (nonlinear_arith)
                requires
                    y + 1 <= whole,
                    stride > 0,
            ;
            let ghost before = plane@;
            self.draw_line(plane, start, stride, y);
            assert forall|i: int| 0 <= i < was.len() implies #[trigger] plane@[i] == drawn_byte(
                view,
                was,
                stride as int,
                y + 1,
                i,
            ) by {
                lemma_line(i, stride as int, y as int, start as int);
                assert(before[i] == drawn_byte(view, was, stride as int, y as int, i));
            }
            start = start + stride;
            y += 1;
        }
    }
}

proof fn lemma_line(i: int, stride: int, y: int, start: int)
    requires
        i >= 0,
        stride > 0,
        y >= 0,
        start == y * stride,
    ensures
        i / stride == y <==> start <= i < start + stride,
        start <= i < start + stride ==> i % stride == i - start,
        i / stride < y + 1 <==> i / stride < y || i / stride == y,
{
    vstd::arithmetic::div_mod::lemma_fundamental_div_mod(i, stride);
    let q = i / stride;
    let r = i % stride;
    assert(0 <= r < stride) by (nonlinear_arith)
        requires
            r == i % stride,
            stride > 0,
    ;
    assert(i == stride * q + r);
    if start <= i < start + stride {
        assert(q == y) by (nonlinear_arith)
            requires
                y * stride <= stride * q + r < y * stride + stride,
                0 <= r < stride,
        ;
        assert(stride * q == start) by (nonlinear_arith)
            requires
                start == y * stride,
                q == y,
        ;
    }
    if q == y {
        assert(stride * q == start) by (nonlinear_arith)
            requires
                start == y * stride,
                q == y,
        ;
    }
}

} // verus!
