use hugo::{random_pixel, Pixel};

#[test]
fn on_lights_exactly_when_asked() {
    assert_eq!(Pixel::on(true), Pixel::On);
    assert_eq!(Pixel::on(false), Pixel::Off);
}

#[test]
fn default_pixel_is_off() {
    assert_eq!(Pixel::default(), Pixel::Off);
}

#[test]
fn integers_light_unless_zero() {
    assert_eq!(Pixel::from_integer(0), Pixel::Off);
    assert_eq!(Pixel::from_integer(1), Pixel::On);
    assert_eq!(Pixel::from_integer(-3), Pixel::On);
}

#[test]
fn lowercase_names() {
    assert_eq!(Pixel::from_lowercase_name("on"), Some(Pixel::On));
    assert_eq!(Pixel::from_lowercase_name("red"), Some(Pixel::On));
    assert_eq!(Pixel::from_lowercase_name("off"), Some(Pixel::Off));
    assert_eq!(Pixel::from_lowercase_name("black"), Some(Pixel::Off));
    assert_eq!(Pixel::from_lowercase_name("ON"), None);
    assert_eq!(Pixel::from_lowercase_name("blue"), None);
    assert_eq!(Pixel::from_lowercase_name(""), None);
}

#[test]
fn names_in_any_case() {
    assert_eq!(Pixel::from_name("ON"), Some(Pixel::On));
    assert_eq!(Pixel::from_name("Red"), Some(Pixel::On));
    assert_eq!(Pixel::from_name("oFF"), Some(Pixel::Off));
    assert_eq!(Pixel::from_name("BLACK"), Some(Pixel::Off));
    // The Kelvin sign lowers to an ASCII `k`.
    assert_eq!(Pixel::from_name("blac\u{212A}"), Some(Pixel::Off));
    assert_eq!(Pixel::from_name("green"), None);
}

#[test]
fn random_pixels_are_pixels() {
    let pixel = random_pixel();
    assert!(pixel == Pixel::On || pixel == Pixel::Off);
}
