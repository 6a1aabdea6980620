use hugo::{random_image, Image, Pixel, HEIGHT, PIXEL_COUNT, WIDTH};

#[test]
fn default_image_is_dark() {
    let image: Image = Image::default();
    for y in 0..HEIGHT {
        for x in 0..WIDTH {
            assert_eq!(image.get(x, y), Some(Pixel::Off));
        }
    }
}

#[test]
fn default_level_image_is_zero() {
    let image: Image<u8> = Image::default();
    assert_eq!(image.get(94, 6), Some(0));
}

#[test]
fn read_after_write() {
    let mut image: Image = Image::default();
    image.set(3, 4, Pixel::On);
    assert_eq!(image.get(3, 4), Some(Pixel::On));
    assert_eq!(image.get(4, 3), Some(Pixel::Off));
    assert_eq!(image.get(2, 4), Some(Pixel::Off));
    image.set(3, 4, Pixel::Off);
    assert_eq!(image, Image::default());
}

#[test]
fn reads_off_the_screen_give_nothing() {
    let image: Image = Image::default();
    assert_eq!(image.get(WIDTH, 0), None);
    assert_eq!(image.get(0, HEIGHT), None);
    assert_eq!(image.get(usize::MAX, usize::MAX), None);
    assert_eq!(image.get(WIDTH - 1, HEIGHT - 1), Some(Pixel::Off));
}

#[test]
fn map_applies_the_function_everywhere() {
    let mut image: Image = Image::default();
    image.set(10, 2, Pixel::On);
    let levels = image.map(|pixel| if pixel == Pixel::On { 7u8 } else { 1u8 });
    assert_eq!(levels.get(10, 2), Some(7));
    assert_eq!(levels.get(11, 2), Some(1));
    assert_eq!(levels.get(0, 0), Some(1));
}

#[test]
fn pixel_coordinates_go_row_by_row() {
    let mut image: Image = Image::default();
    image.set(1, 0, Pixel::On);
    image.set(0, 1, Pixel::On);
    let pixels = image.pixel_coordinates();
    assert_eq!(pixels.len(), WIDTH * HEIGHT);
    assert_eq!(pixels[0], ([0, 0], Pixel::Off));
    assert_eq!(pixels[1], ([1, 0], Pixel::On));
    assert_eq!(pixels[WIDTH], ([0, 1], Pixel::On));
    assert_eq!(pixels[WIDTH * HEIGHT - 1], ([WIDTH - 1, HEIGHT - 1], Pixel::Off));
}

#[test]
fn from_pixels_reads_row_by_row() {
    let mut pixels = [Pixel::Off; PIXEL_COUNT];
    pixels[WIDTH + 2] = Pixel::On;
    let image = Image::from_pixels(pixels);
    assert_eq!(image.get(2, 1), Some(Pixel::On));
    assert_eq!(image.get(1, 2), Some(Pixel::Off));
}

#[test]
fn from_rows_keeps_the_rows() {
    let mut rows = [[Pixel::Off; WIDTH]; HEIGHT];
    rows[6][94] = Pixel::On;
    let image = Image::from_rows(rows);
    assert_eq!(image.get(94, 6), Some(Pixel::On));
    assert_eq!(image.get(93, 6), Some(Pixel::Off));
}

#[test]
fn random_image_fills_the_screen() {
    let image = random_image();
    assert_eq!(image.pixel_coordinates().len(), PIXEL_COUNT);
    assert!(image.get(WIDTH - 1, HEIGHT - 1).is_some());
}

#[test]
fn map_identity_gives_the_image_back() {
    let mut image: Image = Image::default();
    image.set(5, 5, Pixel::On);
    assert_eq!(image.map(|pixel| pixel), image);
}

#[test]
fn map_twice_is_map_of_the_composition() {
    let mut image: Image = Image::default();
    image.set(7, 1, Pixel::On);
    let first = |pixel: Pixel| if pixel == Pixel::On { 3u8 } else { 0u8 };
    let second = |level: u8| level > 1;
    assert_eq!(image.map(first).map(second), image.map(|pixel| second(first(pixel))));
}
