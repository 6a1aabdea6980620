//! A library for driving Hugo, the blinking light display above the door to
//! Schäraton: its images, the programmes that animate them, and the signal
//! sequence that puts an image on the screen.

mod duration;
mod http;
mod image;
mod pixel;
mod programme;
mod random;
mod signals;
mod text;

pub use duration::{seconds, whole_seconds};
pub use http::{
    blank_line, blank_line_at, closing_response, http_response, lemma_body_after_header,
    request_body, response_text, RequestError, BAD_REQUEST, OK,
};
pub use image::{in_bounds, random_image, Image, PIXEL_COUNT};
pub use pixel::{random_pixel, tossed, Pixel};
pub use programme::{
    alive, lit_at, neighbours, next_cell, next_generation, wave_period, wave_position,
    wave_velocity, Level, Life, Programme, Radar, Still, LEVELS, MAXIMUM_LOOP_LENGTH, MAX_LEVEL,
    PAUSE_FRAMES,
};
pub use signals::{
    clear_lines, clear_pulses, drawing, frame_signals, lemma_drawing_lines, pixel_signals,
    row_end_signals, row_lines, row_pulses, row_signals, rows_signals, shift_lines, shift_pulses,
    shifted_pixels, Signal,
};
pub use random::{coin_outcome, lemma_ratio_outcome_bounds, ratio_outcome};
pub use text::lowercase_chars;

use vstd::prelude::*;

verus! {

/// The number of lights in each row of the screen.
pub const WIDTH: usize = 95;

/// The number of rows of the screen.
pub const HEIGHT: usize = 7;

} // verus!
