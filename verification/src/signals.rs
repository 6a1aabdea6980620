use crate::image::Image;
use crate::{Pixel, HEIGHT, WIDTH};
use vstd::prelude::*;

verus! {

/// One step of putting an image on Hugo's screen. The screen has a shift
/// register for the columns (fed through the column line, clocked by the
/// shift line and emptied through the clear line) and one line per row.
#[derive(Copy, Clone, Eq, PartialEq, Structural, Debug)]
pub enum Signal {
    /// Put a pixel on the column line: high where it is lit.
    Column(Pixel),
    ShiftHigh,
    ShiftLow,
    /// Light the row with this index.
    RowHigh(usize),
    /// Darken the row with this index.
    RowLow(usize),
    ClearLow,
    ClearHigh,
    /// Wait the short time that the shift register needs.
    ClockWait,
    /// Wait while a row is lit.
    BusyWait,
}

/// Shifting one pixel into the register.
pub open spec fn pixel_signals(pixel: Pixel) -> Seq<Signal> {
    seq![Signal::Column(pixel), Signal::ClockWait, Signal::ShiftHigh, Signal::ClockWait, Signal::ShiftLow]
}

/// Lighting row `y` for a while, then emptying the register.
pub open spec fn row_end_signals(y: usize) -> Seq<Signal> {
    seq![
        Signal::RowHigh(y),
        Signal::BusyWait,
        Signal::RowLow(y),
        Signal::ClearLow,
        Signal::ClockWait,
        Signal::ClearHigh,
    ]
}

/// Shifting the first `count` pixels of row `y` into the register, from the left.
pub open spec fn shifted_pixels(image: Image, y: int, count: int) -> Seq<Signal>
    decreases count,
{
    if count <= 0 {
        seq![]
    } else {
        shifted_pixels(image, y, count - 1) + pixel_signals(image.at(count - 1, y))
    }
}

/// Showing row `y` of `image`.
pub open spec fn row_signals(image: Image, y: int) -> Seq<Signal> {
    shifted_pixels(image, y, WIDTH as int) + row_end_signals(y as usize)
}

/// Showing the first `count` rows of `image`, from the top.
pub open spec fn rows_signals(image: Image, count: int) -> Seq<Signal>
    decreases count,
{
    if count <= 0 {
        seq![]
    } else {
        rows_signals(image, count - 1) + row_signals(image, count - 1)
    }
}

/// Every signal that shows `image` once, row by row from the top.
pub open spec fn drawing(image: Image) -> Seq<Signal> {
    rows_signals(image, HEIGHT as int)
}

proof fn lemma_shifted_pixels_len(image: Image, y: int, count: int)
    requires
        0 <= count,
    ensures
        shifted_pixels(image, y, count).len() == 5 * count,
    decreases count,
{
    if count > 0 {
        lemma_shifted_pixels_len(image, y, count - 1);
    }
}

proof fn lemma_rows_signals_len(image: Image, count: int)
    requires
        0 <= count,
    ensures
        rows_signals(image, count).len() == count * (5 * WIDTH + 6),
    decreases count,
{
    if count > 0 {
        lemma_rows_signals_len(image, count - 1);
        lemma_shifted_pixels_len(image, count - 1, WIDTH as int);
        assert((count - 1) * (5 * WIDTH + 6) + (5 * WIDTH + 6) == count * (5 * WIDTH + 6))
            by (nonlinear_arith);
    } else {
        assert(count * (5 * WIDTH + 6) == 0) by (nonlinear_arith)
            requires
                count == 0,
        ;
    }
}

/// The signals that show `image` once: each row's pixels are shifted in
/// from the left, then the row is lit for a while and the register emptied.
pub fn frame_signals(image: Image) -> (signals: Vec<Signal>)
    ensures
        signals@ == drawing(image),
        signals.len() == HEIGHT * (5 * WIDTH + 6),
{
    let rows = image.rows();
    let mut signals: Vec<Signal> = Vec::new();
    let mut y: usize = 0;
    while y < HEIGHT
        invariant
            y <= HEIGHT,
            signals@ == rows_signals(image, y as int),
            forall|i: int, j: int| in_bounds_of(i, j) ==> #[trigger] rows[j][i] == image.at(i, j),
        decreases HEIGHT - y,
    {
        let mut x: usize = 0;
        while x < WIDTH
            invariant
                x <= WIDTH,
                y < HEIGHT,
                signals@ == rows_signals(image, y as int) + shifted_pixels(image, y as int, x as int),
                forall|i: int, j: int| in_bounds_of(i, j) ==> #[trigger] rows[j][i] == image.at(i, j),
            decreases WIDTH - x,
        {
            let pixel = rows[y][x];
            let ghost before = signals@;
            signals.push(Signal::Column(pixel));
            signals.push(Signal::ClockWait);
            signals.push(Signal::ShiftHigh);
            signals.push(Signal::ClockWait);
            signals.push(Signal::ShiftLow);
            assert(signals@ =~= before + pixel_signals(image.at(x as int, y as int)));
            x += 1;
        }
        let ghost before = signals@;
        signals.push(Signal::RowHigh(y));
        signals.push(Signal::BusyWait);
        signals.push(Signal::RowLow(y));
        signals.push(Signal::ClearLow);
        signals.push(Signal::ClockWait);
        signals.push(Signal::ClearHigh);
        assert(signals@ =~= before + row_end_signals(y));
        y += 1;
    }
    proof {
        lemma_rows_signals_len(image, HEIGHT as int);
    }
    signals
}

/// The signals that drive a row line.
pub open spec fn row_lines() -> spec_fn(Signal) -> bool {
    |signal: Signal| signal is RowHigh || signal is RowLow
}

/// The signals that drive the shift line.
pub open spec fn shift_lines() -> spec_fn(Signal) -> bool {
    |signal: Signal| signal is ShiftHigh || signal is ShiftLow
}

/// The signals that drive the clear line.
pub open spec fn clear_lines() -> spec_fn(Signal) -> bool {
    |signal: Signal| signal is ClearLow || signal is ClearHigh
}

/// The first `count` rows lit and darkened again one after another, from the top.
pub open spec fn row_pulses(count: int) -> Seq<Signal>
    decreases count,
{
    if count <= 0 {
        seq![]
    } else {
        row_pulses(count - 1) + seq![
            Signal::RowHigh((count - 1) as usize),
            Signal::RowLow((count - 1) as usize),
        ]
    }
}

/// `count` pulses of the shift line, each raising it and lowering it again.
pub open spec fn shift_pulses(count: int) -> Seq<Signal>
    decreases count,
{
    if count <= 0 {
        seq![]
    } else {
        shift_pulses(count - 1) + seq![Signal::ShiftHigh, Signal::ShiftLow]
    }
}

/// `count` pulses of the clear line, each lowering it and raising it again.
pub open spec fn clear_pulses(count: int) -> Seq<Signal>
    decreases count,
{
    if count <= 0 {
        seq![]
    } else {
        clear_pulses(count - 1) + seq![Signal::ClearLow, Signal::ClearHigh]
    }
}

proof fn lemma_shift_pulses_add(a: int, b: int)
    requires
        0 <= a,
        0 <= b,
    ensures
        shift_pulses(a) + shift_pulses(b) == shift_pulses(a + b),
    decreases b,
{
    if b == 0 {
        assert(shift_pulses(a) + shift_pulses(0) =~= shift_pulses(a));
    } else {
        lemma_shift_pulses_add(a, b - 1);
        assert(shift_pulses(a) + shift_pulses(b) =~= shift_pulses(a) + shift_pulses(b - 1) + seq![
            Signal::ShiftHigh,
            Signal::ShiftLow,
        ]);
    }
}

proof fn lemma_pixel_lines(pixel: Pixel)
    ensures
        pixel_signals(pixel).filter(row_lines()) == Seq::<Signal>::empty(),
        pixel_signals(pixel).filter(shift_lines()) == seq![Signal::ShiftHigh, Signal::ShiftLow],
        pixel_signals(pixel).filter(clear_lines()) == Seq::<Signal>::empty(),
{
    reveal_with_fuel(Seq::filter, 6);
    assert(pixel_signals(pixel).filter(row_lines()) =~= Seq::<Signal>::empty());
    assert(pixel_signals(pixel).filter(shift_lines()) =~= seq![Signal::ShiftHigh, Signal::ShiftLow]);
    assert(pixel_signals(pixel).filter(clear_lines()) =~= Seq::<Signal>::empty());
}

proof fn lemma_row_end_lines(y: usize)
    ensures
        row_end_signals(y).filter(row_lines()) == seq![Signal::RowHigh(y), Signal::RowLow(y)],
        row_end_signals(y).filter(shift_lines()) == Seq::<Signal>::empty(),
        row_end_signals(y).filter(clear_lines()) == seq![Signal::ClearLow, Signal::ClearHigh],
{
    reveal_with_fuel(Seq::filter, 7);
    assert(row_end_signals(y).filter(row_lines()) =~= seq![Signal::RowHigh(y), Signal::RowLow(y)]);
    assert(row_end_signals(y).filter(shift_lines()) =~= Seq::<Signal>::empty());
    assert(row_end_signals(y).filter(clear_lines()) =~= seq![Signal::ClearLow, Signal::ClearHigh]);
}

proof fn lemma_shifted_pixels_lines(image: Image, y: int, count: int)
    requires
        0 <= count,
    ensures
        shifted_pixels(image, y, count).filter(row_lines()) == Seq::<Signal>::empty(),
        shifted_pixels(image, y, count).filter(shift_lines()) == shift_pulses(count),
        shifted_pixels(image, y, count).filter(clear_lines()) == Seq::<Signal>::empty(),
    decreases count,
{
    broadcast use Seq::filter_distributes_over_add;

    if count == 0 {
        reveal_with_fuel(Seq::filter, 1);
        assert(shifted_pixels(image, y, 0).filter(row_lines()) =~= Seq::<Signal>::empty());
        assert(shifted_pixels(image, y, 0).filter(shift_lines()) =~= Seq::<Signal>::empty());
        assert(shifted_pixels(image, y, 0).filter(clear_lines()) =~= Seq::<Signal>::empty());
    } else {
        lemma_shifted_pixels_lines(image, y, count - 1);
        lemma_pixel_lines(image.at(count - 1, y));
        assert(Seq::<Signal>::empty() + Seq::<Signal>::empty() =~= Seq::<Signal>::empty());
    }
}

proof fn lemma_rows_lines(image: Image, count: int)
    requires
        0 <= count,
    ensures
        rows_signals(image, count).filter(row_lines()) == row_pulses(count),
        rows_signals(image, count).filter(shift_lines()) == shift_pulses(count * WIDTH),
        rows_signals(image, count).filter(clear_lines()) == clear_pulses(count),
    decreases count,
{
    broadcast use Seq::filter_distributes_over_add;

    if count == 0 {
        reveal_with_fuel(Seq::filter, 1);
        assert(rows_signals(image, 0).filter(row_lines()) =~= Seq::<Signal>::empty());
        assert(rows_signals(image, 0).filter(shift_lines()) =~= Seq::<Signal>::empty());
        assert(rows_signals(image, 0).filter(clear_lines()) =~= Seq::<Signal>::empty());
    } else {
        let y = count - 1;
        lemma_rows_lines(image, y);
        lemma_shifted_pixels_lines(image, y, WIDTH as int);
        lemma_row_end_lines(y as usize);
        lemma_shift_pulses_add(y * WIDTH, WIDTH as int);
        assert(y * WIDTH + WIDTH == count * WIDTH);
        assert(Seq::<Signal>::empty() + seq![Signal::RowHigh(y as usize), Signal::RowLow(y as usize)]
            =~= seq![Signal::RowHigh(y as usize), Signal::RowLow(y as usize)]);
        assert(shift_pulses(WIDTH as int) + Seq::<Signal>::empty() =~= shift_pulses(WIDTH as int));
        assert(Seq::<Signal>::empty() + seq![Signal::ClearLow, Signal::ClearHigh] =~= seq![
            Signal::ClearLow,
            Signal::ClearHigh,
        ]);
    }
}

/// What a drawing does to the lines of the screen: the rows are lit one at
/// a time, each once and darkened again before the next, from the top; the
/// shift line is raised and lowered once for every pixel, and the clear line
/// lowered and raised once for every row, so that every line ends as the
/// drawing found it when it found the rows dark, the shift line low and the
/// clear line high.
pub proof fn lemma_drawing_lines(image: Image)
    ensures
        drawing(image).filter(row_lines()) == row_pulses(HEIGHT as int),
        drawing(image).filter(shift_lines()) == shift_pulses((HEIGHT * WIDTH) as int),
        drawing(image).filter(clear_lines()) == clear_pulses(HEIGHT as int),
{
    lemma_rows_lines(image, HEIGHT as int);
}

spec fn in_bounds_of(x: int, y: int) -> bool {
    crate::image::in_bounds(x, y)
}

} // verus!
