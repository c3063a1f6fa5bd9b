//! What the window shows, frame by frame.
//!
//! The caller owns the window. For each frame it asks
//! [`DisplayState::step`] with the keys that were pressed and shows
//! [`DisplayState::frame`].

use vstd::prelude::*;
use vstd::string::*;
use crate::scorpion::font::{draw_text, text_drawn};
use crate::scorpion::image_data::{lemma_cell_index, scaled, ImageData};
use crate::scorpion::metadata::metadata_lines;
use crate::scorpion::screen::{HEIGHT, IMAGE_DISPLAY_WIDTH, WIDTH};

verus! {

/// Colour of the text: opaque white.
pub const TEXT_COLOR: u32 = 0xFFFF_FFFF;

/// Column at which the text starts.
pub const TEXT_X: usize = IMAGE_DISPLAY_WIDTH + 10;

/// Row of the first line of text.
pub const TEXT_Y: usize = 10;

/// Rows from one line of text to the next.
pub const LINE_STEP: usize = 20;

/// The frame, the images to show, and which of them is on.
pub struct DisplayState {
    buffer: Vec<u32>,
    images: Vec<ImageData>,
    current_image: usize,
}

/// A frame of `len` pixels, all 0.
pub open spec fn blank(len: nat) -> Seq<u32> {
    Seq::new(len, |i: int| 0u32)
}

/// Whether the image part of the window shows pixel `i` of a frame, given
/// an image of `image_len` pixels laid out [`IMAGE_DISPLAY_WIDTH`] to the
/// row.
pub open spec fn in_image_part(i: int, image_len: nat) -> bool {
    &&& i % (WIDTH as int) < IMAGE_DISPLAY_WIDTH
    &&& i / (WIDTH as int) < HEIGHT
    &&& (i / (WIDTH as int)) * IMAGE_DISPLAY_WIDTH + i % (WIDTH as int) < image_len
}

/// The frame `buffer` with `image`, which is [`IMAGE_DISPLAY_WIDTH`] wide,
/// put into its left part, row on row.
pub open spec fn blitted(buffer: Seq<u32>, image: Seq<u32>) -> Seq<u32> {
    Seq::new(
        buffer.len(),
        |i: int|
            if in_image_part(i, image.len()) {
                image[(i / (WIDTH as int)) * IMAGE_DISPLAY_WIDTH + i % (WIDTH as int)]
            } else {
                buffer[i]
            },
    )
}

/// The frame `buffer` with the first `n` of `lines` written one below the
/// other, [`LINE_STEP`] rows apart.
pub open spec fn lines_drawn(buffer: Seq<u32>, lines: Seq<Seq<char>>, n: nat) -> Seq<u32>
    decreases n,
{
    if n == 0 {
        buffer
    } else {
        text_drawn(
            lines_drawn(buffer, lines, (n - 1) as nat),
            TEXT_X as int,
            TEXT_Y + (n - 1) * LINE_STEP,
            lines[n - 1],
            TEXT_COLOR,
        )
    }
}

/// The frame of `len` pixels that shows `image`: the image scaled to the
/// left part of the window, and the lines that describe it to its right.
pub open spec fn frame_of(image: ImageData, len: nat) -> Seq<u32> {
    let shown = scaled(
        image.pixels(),
        image.spec_width() as int,
        image.spec_height() as int,
        IMAGE_DISPLAY_WIDTH as int,
        HEIGHT as int,
    );
    let lines = metadata_lines(image.spec_metadata());
    lines_drawn(blitted(blank(len), shown), lines, lines.len())
}

/// The image after `current` of `count`, the first after the last.
pub open spec fn next_index(current: int, count: int) -> int {
    (current + 1) % count
}

/// The image before `current` of `count`, the last before the first.
pub open spec fn previous_index(current: int, count: int) -> int {
    if current == 0 {
        count - 1
    } else {
        current - 1
    }
}

/// Which image is on after the keys of one frame: right goes on, then left
/// goes back. Without images nothing moves.
pub open spec fn index_after_keys(current: int, count: int, right: bool, left: bool) -> int {
    if count == 0 {
        current
    } else {
        let moved = if right {
            next_index(current, count)
        } else {
            current
        };
        if left {
            previous_index(moved, count)
        } else {
            moved
        }
    }
}

/// Writing lines keeps the size of the frame.
pub proof fn lemma_lines_keep_length(buffer: Seq<u32>, lines: Seq<Seq<char>>, n: nat)
    ensures
        lines_drawn(buffer, lines, n).len() == buffer.len(),
    decreases n,
{
    if n > 0 {
        lemma_lines_keep_length(buffer, lines, (n - 1) as nat);
    }
}

/// Sets every pixel of `buffer` to 0.
pub fn clear(buffer: &mut Vec<u32>)
    ensures
        final(buffer)@ == blank(old(buffer)@.len()),
{
    let n: usize = buffer.len();
    let mut i: usize = 0;
    while i < n
        invariant
            n == buffer.len(),
            n == old(buffer)@.len(),
            i <= n,
            forall|j: int| 0 <= j < i ==> buffer@[j] == 0,
        decreases n - i,
    {
        buffer[i] = 0;
        i += 1;
    }
    assert(buffer@ =~= blank(old(buffer)@.len()));
}

/// Puts `image`, which is [`IMAGE_DISPLAY_WIDTH`] wide, into the left part
/// of `buffer`, row on row. Pixels that `image` or `buffer` does not have
/// are left out.
pub fn blit(buffer: &mut Vec<u32>, image: &Vec<u32>)
    ensures
        final(buffer)@ == blitted(old(buffer)@, image@),
{
    let ghost start = buffer@;
    let mut y: usize = 0;
    while y < HEIGHT
        invariant
            y <= HEIGHT,
            start == old(buffer)@,
            buffer@.len() == start.len(),
            forall|i: int|
                0 <= i < start.len() ==> buffer@[i] == if in_image_part(i, image@.len()) && i / (
                WIDTH as int) < y {
                    image@[(i / (WIDTH as int)) * IMAGE_DISPLAY_WIDTH + i % (WIDTH as int)]
                } else {
                    start[i]
                },
        decreases HEIGHT - y,
    {
        let mut x: usize = 0;
        while x < IMAGE_DISPLAY_WIDTH
            invariant
                y < HEIGHT,
                x <= IMAGE_DISPLAY_WIDTH,
                start == old(buffer)@,
                buffer@.len() == start.len(),
                forall|i: int|
                    0 <= i < start.len() ==> buffer@[i] == if in_image_part(i, image@.len()) && (i
                        / (WIDTH as int) < y || (i / (WIDTH as int) == y && i % (WIDTH as int)
                        < x)) {
                        image@[(i / (WIDTH as int)) * IMAGE_DISPLAY_WIDTH + i % (WIDTH as int)]
                    } else {
                        start[i]
                    },
            decreases IMAGE_DISPLAY_WIDTH - x,
        {
            let ghost before = buffer@;
            let src_idx: usize = y * IMAGE_DISPLAY_WIDTH + x;
            let dst_idx: usize = y * WIDTH + x;
            proof {
                lemma_cell_index(x as int, y as int, WIDTH as int, HEIGHT as int);
            }
            if src_idx < image.len() && dst_idx < buffer.len() {
                buffer[dst_idx] = image[src_idx];
            }
            assert forall|i: int| 0 <= i < start.len() implies buffer@[i] == if in_image_part(
                i,
                image@.len(),
            ) && (i / (WIDTH as int) < y || (i / (WIDTH as int) == y && i % (WIDTH as int) < x
                + 1)) {
                image@[(i / (WIDTH as int)) * IMAGE_DISPLAY_WIDTH + i % (WIDTH as int)]
            } else {
                start[i]
            } by {
                if i != dst_idx {
                    assert(buffer@[i] == before[i]);
                    if i % (WIDTH as int) == x && i / (WIDTH as int) == y {
                        vstd::arithmetic::div_mod::lemma_fundamental_div_mod(i, WIDTH as int);
                        assert(i == dst_idx) by (nonlinear_arith)
                            requires
                                i == (WIDTH as int) * (i / (WIDTH as int)) + i % (WIDTH as int),
                                i / (WIDTH as int) == y,
                                i % (WIDTH as int) == x,
                                dst_idx == y * WIDTH + x,
                        ;
                    }
                }
            }
            x += 1;
        }
        y += 1;
    }
    assert(buffer@ =~= blitted(start, image@));
}

/// A line that starts below the window writes nothing.
proof fn lemma_text_below_window(buffer: Seq<u32>, x: int, y: int, text: Seq<char>, color: u32)
    requires
        y >= HEIGHT,
    ensures
        text_drawn(buffer, x, y, text, color) == buffer,
{
    assert(text_drawn(buffer, x, y, text, color) =~= buffer);
}

/// Lines from the `from`-th on write nothing where that line already
/// starts below the window.
proof fn lemma_lines_below_window(buffer: Seq<u32>, lines: Seq<Seq<char>>, from: nat, n: nat)
    requires
        from <= n,
        TEXT_Y + from * LINE_STEP >= HEIGHT,
    ensures
        lines_drawn(buffer, lines, n) == lines_drawn(buffer, lines, from),
    decreases n,
{
    if from < n {
        lemma_lines_below_window(buffer, lines, from, (n - 1) as nat);
        lemma_text_below_window(
            lines_drawn(buffer, lines, (n - 1) as nat),
            TEXT_X as int,
            TEXT_Y + (n - 1) * LINE_STEP,
            lines[n - 1],
            TEXT_COLOR,
        );
    }
}

/// Writes `lines` into `buffer` one below the other, from column
/// [`TEXT_X`], row [`TEXT_Y`], [`LINE_STEP`] rows apart.
pub fn draw_lines(buffer: &mut Vec<u32>, lines: &Vec<String>)
    ensures
        final(buffer)@ == lines_drawn(old(buffer)@, lines.deep_view(), lines.len() as nat),
{
    let n: usize = lines.len();
    let mut i: usize = 0;
    let mut y: usize = TEXT_Y;
    while i < n && y < HEIGHT
        invariant
            n == lines.len(),
            i <= n,
            y == TEXT_Y + i * LINE_STEP || (y >= HEIGHT && TEXT_Y + i * LINE_STEP >= HEIGHT),
            buffer@ == lines_drawn(old(buffer)@, lines.deep_view(), i as nat),
        decreases n - i,
    {
        draw_text(buffer, TEXT_X, y, lines[i].as_str(), TEXT_COLOR);
        assert(lines.deep_view()[i as int] == lines@[i as int]@);
        i += 1;
        y = y + LINE_STEP;
    }
    proof {
        if i < n {
            lemma_lines_below_window(old(buffer)@, lines.deep_view(), i as nat, n as nat);
        }
    }
}

impl DisplayState {
    /// The frame as it stands.
    pub closed spec fn pixels(&self) -> Seq<u32> {
        self.buffer@
    }

    /// The images to show.
    pub closed spec fn images(&self) -> Seq<ImageData> {
        self.images@
    }

    /// Which image is on.
    pub closed spec fn current(&self) -> int {
        self.current_image as int
    }

    /// The frame has the size of the window, and the image that is on is one
    /// of the images.
    pub open spec fn wf(&self) -> bool {
        &&& self.pixels().len() == WIDTH * HEIGHT
        &&& 0 <= self.current()
        &&& self.images().len() > 0 ==> self.current() < self.images().len()
        &&& self.images().len() == 0 ==> self.current() == 0
    }

    /// The state at the start: a blank frame, and the first image on.
    pub fn new(images: Vec<ImageData>) -> (state: Self)
        ensures
            state.wf(),
            state.images() == images@,
            state.current() == 0,
            state.pixels() == blank((WIDTH * HEIGHT) as nat),
    {
        let buffer: Vec<u32> = vec![0u32; WIDTH * HEIGHT];
        assert(buffer@ =~= blank((WIDTH * HEIGHT) as nat));
        DisplayState { buffer, images, current_image: 0 }
    }

    /// The frame to show.
    pub fn frame(&self) -> (f: &Vec<u32>)
        ensures
            f@ == self.pixels(),
    {
        &self.buffer
    }

    /// Which image is on, counted from 0.
    pub fn current_image(&self) -> (i: usize)
        ensures
            i == self.current(),
    {
        self.current_image
    }

    /// How many images there are.
    pub fn image_count(&self) -> (n: usize)
        ensures
            n == self.images().len(),
    {
        self.images.len()
    }

    /// Draws the frame: blank without images, else the image that is on,
    /// scaled to the left part of the window, and its description to the
    /// right.
    pub fn render(&mut self)
        requires
            old(self).wf(),
        ensures
            final(self).wf(),
            final(self).images() == old(self).images(),
            final(self).current() == old(self).current(),
            final(self).pixels() == if old(self).images().len() == 0 {
                blank((WIDTH * HEIGHT) as nat)
            } else {
                frame_of(old(self).images()[old(self).current()], (WIDTH * HEIGHT) as nat)
            },
    {
        clear(&mut self.buffer);
        if self.images.len() > 0 {
            let image = &self.images[self.current_image];
            let shown = image.get_scaled_buffer(IMAGE_DISPLAY_WIDTH, HEIGHT);
            blit(&mut self.buffer, &shown);
            let lines = image.metadata().texts();
            assert(lines.len() == lines.deep_view().len());
            let ghost drawn_on = self.buffer@;
            draw_lines(&mut self.buffer, &lines);
            proof {
                lemma_lines_keep_length(drawn_on, lines.deep_view(), lines.len() as nat);
            }
        }
    }

    /// Moves to another image as the keys of one frame say: right goes on
    /// and wraps to the first, then left goes back and wraps to the last.
    pub fn navigate(&mut self, right: bool, left: bool)
        requires
            old(self).wf(),
        ensures
            final(self).wf(),
            final(self).images() == old(self).images(),
            final(self).pixels() == old(self).pixels(),
            final(self).current() == index_after_keys(
                old(self).current(),
                old(self).images().len() as int,
                right,
                left,
            ),
    {
        let count: usize = self.images.len();
        if count == 0 {
            return ;
        }
        if right {
            self.current_image = (self.current_image + 1) % count;
        }
        if left {
            self.current_image = if self.current_image == 0 {
                count - 1
            } else {
                self.current_image - 1
            };
        }
    }

    /// One turn of the window's loop: draws the frame of the image that is
    /// on, then moves as the keys say. The move shows in the next frame.
    pub fn step(&mut self, right: bool, left: bool)
        requires
            old(self).wf(),
        ensures
            final(self).wf(),
            final(self).images() == old(self).images(),
            final(self).pixels() == if old(self).images().len() == 0 {
                blank((WIDTH * HEIGHT) as nat)
            } else {
                frame_of(old(self).images()[old(self).current()], (WIDTH * HEIGHT) as nat)
            },
            final(self).current() == index_after_keys(
                old(self).current(),
                old(self).images().len() as int,
                right,
                left,
            ),
    {
        self.render();
        self.navigate(right, left);
    }
}

} // verus!
