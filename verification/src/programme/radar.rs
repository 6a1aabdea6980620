use crate::image::{in_bounds, Image};
use crate::random::{lemma_ratio_outcome, random_ratio, ratio_outcome};
use crate::{Pixel, HEIGHT, WIDTH};
use vstd::prelude::*;

verus! {

/// How bright a light of the radar is.
pub type Level = u8;

/// The number of steps of the brightness cycle; a freshly swept light is this bright.
pub const LEVELS: Level = 10;

/// The brightness of a dot that the wave leaves behind.
pub const MAX_LEVEL: Level = 60;

/// The chance that the wave leaves a dot on a light, as numerator and denominator.
pub const DOT_NUMERATOR: u32 = 1;

/// See `DOT_NUMERATOR`.
pub const DOT_DENOMINATOR: u32 = 200;

/// Whether `dot` is an outcome of the draw that decides whether the wave
/// leaves a dot: `random_ratio` with chance `DOT_NUMERATOR / DOT_DENOMINATOR`.
pub open spec fn dot_drawn(dot: bool) -> bool {
    ratio_outcome(DOT_NUMERATOR, DOT_DENOMINATOR, dot)
}

/// Whether a light of brightness `level` is lit in the frame `cycle_index` of the cycle.
pub open spec fn lit_at(cycle_index: u8, level: Level) -> bool {
    level > cycle_index
}

fn level_to_pixel(cycle_index: u8) -> (to_pixel: impl Fn(Level) -> Pixel)
    ensures
        forall|level: Level| #[trigger] to_pixel.requires((level,)),
        forall|level: Level, pixel: Pixel|
            to_pixel.ensures((level,), pixel) ==> pixel == Pixel::lit_when(
                lit_at(cycle_index, level),
            ),
{
    move |level: Level| -> (pixel: Pixel)
        ensures
            pixel == Pixel::lit_when(lit_at(cycle_index, level)),
        {
            if level > cycle_index {
                Pixel::On
            } else {
                Pixel::Off
            }
        }
}

/// The brightness that a radar starts with: full where the image is lit.
fn initial_level(pixel: Pixel) -> (level: Level)
    ensures
        level == if pixel == Pixel::On {
            Level::MAX
        } else {
            0
        },
{
    match pixel {
        Pixel::Off => 0,
        Pixel::On => Level::MAX,
    }
}

/// One step darker, down to dark.
fn faded(level: Level) -> (decayed: Level)
    ensures
        decayed == if level == 0 {
            0
        } else {
            level - 1
        },
{
    level.saturating_sub(1)
}

/// The number of sweeps in which the wave crosses the screen and comes back.
pub open spec fn wave_period() -> int {
    2 * (WIDTH - 1)
}

/// The column that the wave stands at after `sweeps` sweeps from the left
/// side: it runs to the right side, back to the left side, and so on.
pub open spec fn wave_position(sweeps: int) -> int {
    let phase = sweeps % wave_period();
    if phase <= WIDTH - 1 {
        phase
    } else {
        wave_period() - phase
    }
}

/// The direction of the wave after `sweeps` sweeps from the left side.
pub open spec fn wave_velocity(sweeps: int) -> int {
    if sweeps % wave_period() < WIDTH - 1 {
        1
    } else {
        -1
    }
}

/// A sweeping wave that bounces on the left and right side of the screen and
/// leaves dots that slowly fade away.
pub struct Radar {
    image: Image<Level>,
    cycle_index: u8,
    scan_position: usize,
    scan_velocity: isize,
}

impl Radar {
    #[verifier::type_invariant]
    spec fn on_screen(self) -> bool {
        &&& self.cycle_index < LEVELS
        &&& self.scan_position < WIDTH
        &&& self.scan_velocity == 1 || self.scan_velocity == -1
        &&& self.scan_position == 0 ==> self.scan_velocity == 1
        &&& self.scan_position == WIDTH - 1 ==> self.scan_velocity == -1
    }

    /// The brightness of every light.
    pub closed spec fn levels(self) -> Image<Level> {
        self.image
    }

    /// The step of the brightness cycle.
    pub closed spec fn cycle_index(self) -> u8 {
        self.cycle_index
    }

    /// The column that the wave sweeps next.
    pub closed spec fn scan_position(self) -> int {
        self.scan_position as int
    }

    /// The direction of the wave: 1 to the right, -1 to the left.
    pub closed spec fn scan_velocity(self) -> int {
        self.scan_velocity as int
    }

    /// Whether `frame` shows `levels` in the step `cycle_index` of the cycle.
    pub open spec fn shows(frame: Image, levels: Image<Level>, cycle_index: u8) -> bool {
        forall|x: int, y: int|
            in_bounds(x, y) ==> #[trigger] frame.at(x, y) == Pixel::lit_when(
                lit_at(cycle_index, levels.at(x, y)),
            )
    }

    /// Whether `self` is `previous` after one sweep in which `dots[y]` said
    /// whether the wave left a dot in row `y`: the cycle moves one step on,
    /// every light fades one level, the swept column gets `LEVELS` (or
    /// `MAX_LEVEL` for a dot), and the wave moves one column on, turning
    /// round when it reaches either side of the screen.
    pub open spec fn swept(self, previous: Radar, dots: Seq<bool>) -> bool {
        &&& self.cycle_index() == (previous.cycle_index() + 1) % (LEVELS as int)
        &&& forall|x: int, y: int|
            in_bounds(x, y) ==> #[trigger] self.levels().at(x, y) == if x
                == previous.scan_position() {
                if dots[y] {
                    MAX_LEVEL
                } else {
                    LEVELS
                }
            } else if previous.levels().at(x, y) == 0 {
                0
            } else {
                (previous.levels().at(x, y) - 1) as Level
            }
        &&& self.scan_position() == previous.scan_position() + previous.scan_velocity()
        &&& self.scan_velocity() == if self.scan_position() == 0 || self.scan_position() == WIDTH
            - 1 {
            -previous.scan_velocity()
        } else {
            previous.scan_velocity()
        }
    }

    /// The wave is on the screen, moves one column at a time, and moves
    /// away from a side that it stands at.
    pub open spec fn on_screen_wave(self) -> bool {
        &&& 0 <= self.scan_position() < WIDTH
        &&& self.scan_velocity() == 1 || self.scan_velocity() == -1
        &&& self.scan_position() == 0 ==> self.scan_velocity() == 1
        &&& self.scan_position() == WIDTH - 1 ==> self.scan_velocity() == -1
        &&& 0 <= self.cycle_index() < LEVELS
    }

    /// The wave never leaves the screen: a sweep of a wave on the screen
    /// leaves it on the screen, bouncing off either side.
    pub proof fn lemma_wave_stays_on_screen(previous: Radar, next: Radar, dots: Seq<bool>)
        requires
            previous.on_screen_wave(),
            next.swept(previous, dots),
        ensures
            next.on_screen_wave(),
    {
    }

    /// The wave is drawn: in the frame after a sweep, every light of the
    /// column that was swept is lit.
    pub proof fn lemma_swept_column_lit(
        previous: Radar,
        next: Radar,
        dots: Seq<bool>,
        frame: Image,
        y: int,
    )
        requires
            previous.on_screen_wave(),
            next.swept(previous, dots),
            Radar::shows(frame, next.levels(), next.cycle_index()),
            0 <= y < HEIGHT,
        ensures
            frame.at(previous.scan_position(), y) == Pixel::On,
    {
        assert(next.levels().at(previous.scan_position(), y) >= LEVELS);
    }

    /// Whether the `i`-th of `radars` is the one before after one sweep with
    /// the dots before the `i`-th.
    pub open spec fn swept_at(radars: Seq<Radar>, dots: Seq<Seq<bool>>, i: int) -> bool {
        radars[i].swept(radars[i - 1], dots[i - 1])
    }

    /// The wave bounces off the left and right sides: from the left side,
    /// after `sweeps` sweeps it stands at `wave_position(sweeps)` and moves
    /// in direction `wave_velocity(sweeps)`.
    pub proof fn lemma_wave_path(radars: Seq<Radar>, dots: Seq<Seq<bool>>, count: int)
        requires
            0 <= count < radars.len(),
            count <= dots.len(),
            radars[0].on_screen_wave(),
            radars[0].scan_position() == 0,
            forall|i: int| 0 < i <= count ==> #[trigger] Radar::swept_at(radars, dots, i),
        ensures
            forall|i: int|
                0 <= i <= count ==> {
                    &&& #[trigger] radars[i].scan_position() == wave_position(i)
                    &&& radars[i].scan_velocity() == wave_velocity(i)
                    &&& radars[i].on_screen_wave()
                },
        decreases count,
    {
        if count > 0 {
            Radar::lemma_wave_path(radars, dots, count - 1);
            let k = count - 1;
            assert(Radar::swept_at(radars, dots, count));
            Radar::lemma_wave_stays_on_screen(radars[k], radars[count], dots[k]);
            let phase = k % wave_period();
            assert(count % wave_period() == if phase == wave_period() - 1 {
                0
            } else {
                phase + 1
            });
        }
    }

    /// The wave is drawn where it stands: from the left side, the frame of
    /// sweep `i + 1` lights the whole column `wave_position(i)`.
    pub proof fn lemma_wave_drawn(
        radars: Seq<Radar>,
        dots: Seq<Seq<bool>>,
        frames: Seq<Image>,
        count: int,
    )
        requires
            0 <= count < radars.len(),
            count <= dots.len(),
            count <= frames.len(),
            radars[0].on_screen_wave(),
            radars[0].scan_position() == 0,
            forall|i: int| 0 < i <= count ==> #[trigger] Radar::swept_at(radars, dots, i),
            forall|i: int|
                0 < i <= count ==> Radar::shows(
                    #[trigger] frames[i - 1],
                    radars[i].levels(),
                    radars[i].cycle_index(),
                ),
        ensures
            forall|i: int, y: int|
                0 <= i < count && 0 <= y < HEIGHT ==> #[trigger] frames[i].at(wave_position(i), y)
                    == Pixel::On,
    {
        Radar::lemma_wave_path(radars, dots, count);
        assert forall|i: int, y: int| 0 <= i < count && 0 <= y < HEIGHT implies #[trigger] frames[
            i
        ].at(wave_position(i), y) == Pixel::On by {
            assert(Radar::swept_at(radars, dots, i + 1));
            assert(radars[i].scan_position() == wave_position(i));
            assert(Radar::shows(frames[(i + 1) - 1], radars[i + 1].levels(), radars[i + 1].cycle_index()));
            Radar::lemma_swept_column_lit(radars[i], radars[i + 1], dots[i], frames[i], y);
        }
    }

    /// A new radar shows the image that it starts from.
    pub proof fn lemma_new_radar_shows_its_image(radar: Radar, image: Image, frame: Image)
        requires
            radar.starts_from(image),
            Radar::shows(frame, radar.levels(), radar.cycle_index()),
        ensures
            frame == image,
    {
        assert forall|x: int, y: int| in_bounds(x, y) implies #[trigger] frame.at(x, y) == image.at(
            x,
            y,
        ) by {
            assert(radar.levels().at(x, y) == if image.at(x, y) == Pixel::On {
                Level::MAX
            } else {
                0
            });
        }
        Image::lemma_same_pixels(frame, image);
    }

    /// The wave leaves a dot only where its draw came up: in the column it
    /// swept, a light is at `MAX_LEVEL` where the draw for its row gave
    /// `true`, and at `LEVELS` where it gave `false`.
    pub proof fn lemma_dots_follow_draws(previous: Radar, next: Radar, dots: Seq<bool>, y: int)
        requires
            next.swept(previous, dots),
            previous.on_screen_wave(),
            0 <= y < HEIGHT,
            dots.len() == HEIGHT,
            forall|row: int| 0 <= row < HEIGHT ==> dot_drawn(#[trigger] dots[row]),
        ensures
            next.levels().at(previous.scan_position(), y) == MAX_LEVEL ==> ratio_outcome(
                DOT_NUMERATOR,
                DOT_DENOMINATOR,
                true,
            ),
            next.levels().at(previous.scan_position(), y) == LEVELS ==> ratio_outcome(
                DOT_NUMERATOR,
                DOT_DENOMINATOR,
                false,
            ),
    {
        assert(dot_drawn(dots[y]));
    }

    /// Dots slowly fade away: a light that `count` sweeps pass by loses one
    /// level in each of them, until it is dark.
    pub proof fn lemma_fading(radars: Seq<Radar>, dots: Seq<Seq<bool>>, count: int, x: int, y: int)
        requires
            in_bounds(x, y),
            0 <= count < radars.len(),
            count <= dots.len(),
            forall|i: int|
                0 < i <= count ==> #[trigger] radars[i].swept(radars[i - 1], dots[i - 1])
                    && radars[i - 1].scan_position() != x,
        ensures
            radars[count].levels().at(x, y) == if radars[0].levels().at(x, y) < count {
                0
            } else {
                radars[0].levels().at(x, y) - count
            },
        decreases count,
    {
        if count > 0 {
            Radar::lemma_fading(radars, dots, count - 1, x, y);
            assert(radars[count].swept(radars[count - 1], dots[count - 1]));
        }
    }

    /// A radar that starts from `image`: its lit pixels at full brightness,
    /// the others dark, the cycle at its start and the wave at the left side
    /// moving right.
    pub open spec fn starts_from(self, image: Image) -> bool {
        &&& forall|x: int, y: int|
            in_bounds(x, y) ==> #[trigger] self.levels().at(x, y) == if image.at(x, y)
                == Pixel::On {
                Level::MAX
            } else {
                0
            }
        &&& self.cycle_index() == 0
        &&& self.scan_position() == 0
        &&& self.scan_velocity() == 1
    }

    pub(crate) fn new(image: Image) -> (radar: Radar)
        ensures
            radar.starts_from(image),
            radar.on_screen_wave(),
    {
        Radar {
            image: image.map(initial_level),
            cycle_index: 0,
            scan_position: 0,
            scan_velocity: 1,
        }
    }

    fn current_frame(&self) -> (frame: Image)
        ensures
            Radar::shows(frame, self.levels(), self.cycle_index()),
    {
        self.image.map(level_to_pixel(self.cycle_index))
    }

    fn decay(&mut self)
        ensures
            forall|x: int, y: int|
                in_bounds(x, y) ==> #[trigger] final(self).levels().at(x, y) == if old(
                    self,
                ).levels().at(x, y) == 0 {
                    0
                } else {
                    old(self).levels().at(x, y) - 1
                },
            final(self).cycle_index() == old(self).cycle_index(),
            final(self).scan_position() == old(self).scan_position(),
            final(self).scan_velocity() == old(self).scan_velocity(),
    {
        proof {
            use_type_invariant(&*self);
        }
        self.image = self.image.map(faded);
    }

    /// One frame of the radar, where `dots[y]` says whether the wave leaves
    /// a dot in row `y`.
    pub fn sweep(&mut self, dots: [bool; HEIGHT]) -> (frame: Image)
        ensures
            final(self).swept(*old(self), dots@),
            final(self).on_screen_wave(),
            Radar::shows(frame, final(self).levels(), final(self).cycle_index()),
    {
        proof {
            use_type_invariant(&*self);
        }
        self.cycle_index = (self.cycle_index + 1) % LEVELS;
        self.decay();
        let ghost decayed = *self;
        let position = self.scan_position;
        let mut levels = self.image;
        let mut y: usize = 0;
        while y < HEIGHT
            invariant
                y <= HEIGHT,
                position == decayed.scan_position(),
                decayed.scan_position() < WIDTH,
                forall|x: int, j: int|
                    in_bounds(x, j) ==> #[trigger] levels.at(x, j) == if x == position && j
                        < y {
                        if dots@[j] {
                            MAX_LEVEL
                        } else {
                            LEVELS
                        }
                    } else {
                        decayed.levels().at(x, j)
                    },
            decreases HEIGHT - y,
        {
            levels.set(position, y, LEVELS);
            if dots[y] {
                levels.set(position, y, MAX_LEVEL);
            }
            y += 1;
        }
        proof {
            use_type_invariant(&*self);
        }
        let moved = position.checked_add_signed(self.scan_velocity).unwrap();
        let velocity = if moved == 0 || moved == WIDTH - 1 {
            -self.scan_velocity
        } else {
            self.scan_velocity
        };
        *self = Radar {
            image: levels,
            cycle_index: self.cycle_index,
            scan_position: moved,
            scan_velocity: velocity,
        };
        self.current_frame()
    }

    pub(crate) fn next_frame(&mut self) -> (frame: Image)
        ensures
            exists|dots: Seq<bool>|
                {
                    &&& dots.len() == HEIGHT
                    &&& #[trigger] final(self).swept(*old(self), dots)
                    &&& forall|y: int| 0 <= y < HEIGHT ==> dot_drawn(#[trigger] dots[y])
                },
            final(self).on_screen_wave(),
            Radar::shows(frame, final(self).levels(), final(self).cycle_index()),
    {
        let mut dots: [bool; HEIGHT] = [false; HEIGHT];
        let mut y: usize = 0;
        while y < HEIGHT
            invariant
                y <= HEIGHT,
                forall|j: int| 0 <= j < y ==> dot_drawn(#[trigger] dots@[j]),
            decreases HEIGHT - y,
        {
            let dot = random_ratio(DOT_NUMERATOR, DOT_DENOMINATOR);
            proof {
                lemma_ratio_outcome(DOT_NUMERATOR, DOT_DENOMINATOR, dot);
            }
            dots[y] = dot;
            y += 1;
        }
        let ghost drawn = dots@;
        let frame = self.sweep(dots);
        assert(self.swept(*old(self), drawn));
        frame
    }
}

} // verus!
