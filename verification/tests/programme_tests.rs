use hugo::{Image, Pixel, Programme, HEIGHT, LEVELS, MAX_LEVEL, PAUSE_FRAMES, WIDTH};
use std::time::Duration;

fn blinker() -> Image {
    let mut image: Image = Image::default();
    image.set(10, 3, Pixel::On);
    image.set(11, 3, Pixel::On);
    image.set(12, 3, Pixel::On);
    image
}

fn vertical_blinker() -> Image {
    let mut image: Image = Image::default();
    image.set(11, 2, Pixel::On);
    image.set(11, 3, Pixel::On);
    image.set(11, 4, Pixel::On);
    image
}

#[test]
fn names_choose_programmes() {
    let start = blinker();
    assert!(matches!(Programme::from_name("life", start), Some(Programme::Life(_))));
    assert!(matches!(Programme::from_name("radar", start), Some(Programme::Radar(_))));
    assert!(matches!(Programme::from_name("still", start), Some(Programme::Still(_))));
    assert!(Programme::from_name("Life", start).is_none());
    assert!(Programme::from_name("", start).is_none());
    assert!(Programme::from_name("lifes", start).is_none());
}

#[test]
fn still_shows_its_image_for_ever() {
    let start = blinker();
    let mut programme = Programme::from_name("still", start).unwrap();
    for _ in 0..5 {
        assert_eq!(programme.next_frame(), start);
    }
}

#[test]
fn life_follows_conways_rule_in_its_first_generation() {
    let mut programme = Programme::from_name("life", blinker()).unwrap();
    assert_eq!(programme.next_frame(), vertical_blinker());
}

#[test]
fn blinker_has_period_two() {
    let mut programme = Programme::from_name("life", blinker()).unwrap();
    assert_eq!(programme.next_frame(), vertical_blinker());
    assert_eq!(programme.next_frame(), blinker());
    assert_eq!(programme.next_frame(), vertical_blinker());
    assert_eq!(programme.next_frame(), blinker());
}

#[test]
fn life_runs_on_for_the_pause_after_a_repeat() {
    // The state seen on the first frame comes back on the third; the
    // simulation then runs on for PAUSE_FRAMES frames before it starts afresh.
    let mut programme = Programme::from_name("life", blinker()).unwrap();
    for frame in 1..=(PAUSE_FRAMES + 2) {
        let expected = if frame % 2 == 1 { vertical_blinker() } else { blinker() };
        assert_eq!(programme.next_frame(), expected);
    }
}

#[test]
fn still_life_stays_for_the_pause() {
    let mut block: Image = Image::default();
    block.set(0, 0, Pixel::On);
    block.set(1, 0, Pixel::On);
    block.set(0, 1, Pixel::On);
    block.set(1, 1, Pixel::On);
    let mut programme = Programme::from_name("life", block).unwrap();
    for _ in 0..(PAUSE_FRAMES + 1) {
        assert_eq!(programme.next_frame(), block);
    }
}

#[test]
fn empty_life_stays_empty() {
    let mut programme = Programme::from_name("life", Image::default()).unwrap();
    for _ in 0..3 {
        assert_eq!(programme.next_frame(), Image::default());
    }
}

#[test]
fn life_and_radar_run_at_one_frame_per_second() {
    let start = blinker();
    assert_eq!(
        Programme::from_name("life", start).unwrap().default_frame_duration(),
        Duration::from_secs(1)
    );
    assert_eq!(
        Programme::from_name("radar", start).unwrap().default_frame_duration(),
        Duration::from_secs(1)
    );
}

fn lit_columns(frame: &Image) -> Vec<usize> {
    (0..WIDTH).filter(|&x| (0..HEIGHT).any(|y| frame.get(x, y) == Some(Pixel::On))).collect()
}

#[test]
fn radar_draws_the_wave_at_the_left_first() {
    let mut programme = Programme::from_name("radar", Image::default()).unwrap();
    let Programme::Radar(radar) = &mut programme else { panic!("not a radar") };
    let frame = radar.sweep([false; HEIGHT]);
    for y in 0..HEIGHT {
        assert_eq!(frame.get(0, y), Some(Pixel::On));
        assert_eq!(frame.get(1, y), Some(Pixel::Off));
    }
    assert_eq!(lit_columns(&frame), vec![0]);
}

#[test]
fn radar_wave_fades_behind_it() {
    let mut programme = Programme::from_name("radar", Image::default()).unwrap();
    let Programme::Radar(radar) = &mut programme else { panic!("not a radar") };
    // Sweep k lights column k - 1 at level LEVELS and moves the cycle to k;
    // a light is lit while its level is above the cycle.
    let mut frame = Image::default();
    for _ in 0..8 {
        frame = radar.sweep([false; HEIGHT]);
    }
    // After eight sweeps the cycle is 8; column c was swept at sweep c + 1
    // and has faded 7 - c levels since, to 3 + c.
    assert_eq!(lit_columns(&frame), vec![6, 7]);
    assert_eq!(LEVELS, 10);
}

#[test]
fn radar_dots_stay_longer() {
    let mut programme = Programme::from_name("radar", Image::default()).unwrap();
    let Programme::Radar(radar) = &mut programme else { panic!("not a radar") };
    let mut dots = [false; HEIGHT];
    dots[2] = true;
    radar.sweep(dots);
    let mut frame = Image::default();
    for _ in 0..20 {
        frame = radar.sweep([false; HEIGHT]);
    }
    // The dot in row 2 of column 0 started at MAX_LEVEL and is still lit.
    assert_eq!(frame.get(0, 2), Some(Pixel::On));
    assert_eq!(frame.get(0, 1), Some(Pixel::Off));
    assert_eq!(MAX_LEVEL, 60);
}

#[test]
fn radar_bounces_off_the_right_side() {
    let mut programme = Programme::from_name("radar", Image::default()).unwrap();
    let Programme::Radar(radar) = &mut programme else { panic!("not a radar") };
    for _ in 0..WIDTH - 1 {
        radar.sweep([false; HEIGHT]);
    }
    // The wave now stands at the right side; dots mark the next two columns swept.
    let mut dots = [false; HEIGHT];
    dots[0] = true;
    let right = radar.sweep(dots);
    assert_eq!(right.get(WIDTH - 1, 0), Some(Pixel::On));
    let back = radar.sweep(dots);
    assert_eq!(back.get(WIDTH - 2, 0), Some(Pixel::On));
    assert_eq!(back.get(WIDTH - 1, 0), Some(Pixel::On));
}

#[test]
fn radar_bounces_off_the_left_side() {
    let mut programme = Programme::from_name("radar", Image::default()).unwrap();
    let Programme::Radar(radar) = &mut programme else { panic!("not a radar") };
    // Right to the side and back to the left: 2 * (WIDTH - 1) sweeps.
    for _ in 0..2 * (WIDTH - 1) {
        radar.sweep([false; HEIGHT]);
    }
    let mut dots = [false; HEIGHT];
    dots[6] = true;
    let left = radar.sweep(dots);
    assert_eq!(left.get(0, 6), Some(Pixel::On));
    let turned = radar.sweep(dots);
    assert_eq!(turned.get(1, 6), Some(Pixel::On));
}

#[test]
fn radar_starts_with_the_lit_pixels_of_its_image() {
    let mut programme = Programme::from_name("radar", blinker()).unwrap();
    let frame = programme.next_frame();
    assert_eq!(frame.get(11, 3), Some(Pixel::On));
    assert_eq!(frame.get(11, 4), Some(Pixel::Off));
}

#[test]
fn radar_wave_path_over_two_crossings() {
    let mut programme = Programme::from_name("radar", Image::default()).unwrap();
    let Programme::Radar(radar) = &mut programme else { panic!("not a radar") };
    let period = 2 * (WIDTH - 1);
    for k in 0..(2 * period + 3) {
        let phase = k % period;
        let column = if phase <= WIDTH - 1 { phase } else { period - phase };
        let mut dots = [false; HEIGHT];
        dots[3] = true;
        let frame = radar.sweep(dots);
        for y in 0..HEIGHT {
            assert_eq!(frame.get(column, y), Some(Pixel::On));
        }
    }
}

#[test]
fn new_radar_shows_its_image() {
    // Nothing has faded before the first sweep, so the radar's levels show
    // the image: a sweep fades by one level and lights only column 0.
    let mut programme = Programme::from_name("radar", blinker()).unwrap();
    let Programme::Radar(radar) = &mut programme else { panic!("not a radar") };
    let frame = radar.sweep([false; HEIGHT]);
    let mut expected = blinker();
    for y in 0..HEIGHT {
        expected.set(0, y, Pixel::On);
    }
    assert_eq!(frame, expected);
}
