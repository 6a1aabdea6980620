use hugo::{frame_signals, Image, Pixel, Signal, HEIGHT, WIDTH};

#[test]
fn signals_shift_each_row_then_light_it() {
    let mut image: Image = Image::default();
    image.set(0, 0, Pixel::On);
    let signals = frame_signals(image);
    assert_eq!(signals.len(), HEIGHT * (5 * WIDTH + 6));
    assert_eq!(
        signals[0..5],
        [Signal::Column(Pixel::On), Signal::ClockWait, Signal::ShiftHigh, Signal::ClockWait, Signal::ShiftLow]
    );
    assert_eq!(signals[5], Signal::Column(Pixel::Off));
    let row_end = 5 * WIDTH;
    assert_eq!(
        signals[row_end..row_end + 6],
        [
            Signal::RowHigh(0),
            Signal::BusyWait,
            Signal::RowLow(0),
            Signal::ClearLow,
            Signal::ClockWait,
            Signal::ClearHigh,
        ]
    );
    assert_eq!(signals[row_end + 6], Signal::Column(Pixel::Off));
    assert_eq!(signals[signals.len() - 6], Signal::RowHigh(HEIGHT - 1));
}

#[test]
fn every_row_is_lit_once() {
    let signals = frame_signals(Image::default());
    for y in 0..HEIGHT {
        assert_eq!(signals.iter().filter(|s| **s == Signal::RowHigh(y)).count(), 1);
        assert_eq!(signals.iter().filter(|s| **s == Signal::RowLow(y)).count(), 1);
    }
    assert_eq!(signals.iter().filter(|s| **s == Signal::ShiftHigh).count(), WIDTH * HEIGHT);
}
