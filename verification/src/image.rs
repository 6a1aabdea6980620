use crate::pixel::{random_pixel, tossed};
use crate::random::coin_outcome;
use crate::{Pixel, HEIGHT, WIDTH};
use vstd::prelude::*;

verus! {

/// Whether `(x, y)` names a light of the screen.
pub open spec fn in_bounds(x: int, y: int) -> bool {
    0 <= x < WIDTH && 0 <= y < HEIGHT
}

/// An image that can be displayed on Hugo's screen.
#[derive(Copy, Clone, Eq, PartialEq, Hash, Debug)]
pub struct Image<P = Pixel> {
    /// An array of the rows of lights.
    /// Each row is an array of pixels.
    rows: [[P; WIDTH]; HEIGHT],
}

/// The number of pixels of an image.
pub const PIXEL_COUNT: usize = WIDTH * HEIGHT;

impl<P> Image<P> {
    /// The pixel in column `x` of row `y`.
    pub closed spec fn at(self, x: int, y: int) -> P {
        self.rows[y][x]
    }

    /// What a read of `(x, y)` gives: the pixel there, or nothing off the screen.
    pub open spec fn pixel(self, x: int, y: int) -> Option<P> {
        if in_bounds(x, y) {
            Some(self.at(x, y))
        } else {
            None
        }
    }

    /// The image with the pixel at `(x, y)` replaced by `pixel`.
    pub closed spec fn updated(self, x: int, y: int, pixel: P) -> Image<P> {
        Image {
            rows: vstd::array::spec_array_update(
                self.rows,
                y,
                vstd::array::spec_array_update(self.rows[y], x, pixel),
            ),
        }
    }

    /// Two images with the same pixel at every place are the same image.
    pub proof fn lemma_same_pixels(a: Image<P>, b: Image<P>)
        requires
            forall|x: int, y: int| in_bounds(x, y) ==> #[trigger] a.at(x, y) == b.at(x, y),
        ensures
            a == b,
    {
        assert forall|y: int| 0 <= y < HEIGHT implies a.rows[y] =~= b.rows[y] by {
            assert forall|x: int| 0 <= x < WIDTH implies a.rows[y][x] == b.rows[y][x] by {
                assert(a.at(x, y) == b.at(x, y));
            }
        }
        assert(a.rows =~= b.rows);
    }

    /// A read of a place gives back what the last write there wrote, and a
    /// write leaves every other place as it was.
    pub proof fn lemma_read_after_write(image: Image<P>, x: int, y: int, pixel: P, i: int, j: int)
        requires
            in_bounds(x, y),
        ensures
            image.updated(x, y, pixel).pixel(i, j) == if i == x && j == y {
                Some(pixel)
            } else {
                image.pixel(i, j)
            },
    {
    }

    /// Whether `image` is `self` with `function` applied to every pixel.
    pub open spec fn maps_to<P1>(self, function: spec_fn(P) -> P1, image: Image<P1>) -> bool {
        forall|x: int, y: int|
            in_bounds(x, y) ==> #[trigger] image.at(x, y) == function(self.at(x, y))
    }

    /// `map` with a function whose every result is `function` of its pixel
    /// applies `function` to every pixel.
    pub proof fn lemma_map_of_function<F: Fn(P) -> P1, P1>(
        image: Image<P>,
        closure: F,
        function: spec_fn(P) -> P1,
        mapped: Image<P1>,
    )
        requires
            forall|pixel: P, result: P1|
                closure.ensures((pixel,), result) ==> result == function(pixel),
            forall|x: int, y: int|
                in_bounds(x, y) ==> closure.ensures((image.at(x, y),), #[trigger] mapped.at(x, y)),
        ensures
            image.maps_to(function, mapped),
    {
    }

    /// Mapping the identity gives the image back.
    pub proof fn lemma_map_identity(image: Image<P>, mapped: Image<P>)
        requires
            image.maps_to(|pixel: P| pixel, mapped),
        ensures
            mapped == image,
    {
        assert forall|x: int, y: int| in_bounds(x, y) implies #[trigger] mapped.at(x, y)
            == image.at(x, y) by {
            assert(mapped.at(x, y) == (|pixel: P| pixel)(image.at(x, y)));
        }
        Image::lemma_same_pixels(mapped, image);
    }

    /// Mapping one function and then another is mapping their composition.
    pub proof fn lemma_map_composition<Q, R>(
        image: Image<P>,
        first: spec_fn(P) -> Q,
        second: spec_fn(Q) -> R,
        middle: Image<Q>,
        twice: Image<R>,
        once: Image<R>,
    )
        requires
            image.maps_to(first, middle),
            middle.maps_to(second, twice),
            image.maps_to(|pixel: P| second(first(pixel)), once),
        ensures
            twice == once,
    {
        assert forall|x: int, y: int| in_bounds(x, y) implies #[trigger] twice.at(x, y) == once.at(
            x,
            y,
        ) by {
            assert(middle.at(x, y) == first(image.at(x, y)));
            assert(once.at(x, y) == (|pixel: P| second(first(pixel)))(image.at(x, y)));
        }
        Image::<R>::lemma_same_pixels(twice, once);
    }

    /// Rebuilds an image from its rows.
    pub fn from_rows(rows: [[P; WIDTH]; HEIGHT]) -> (image: Image<P>)
        ensures
            forall|x: int, y: int| in_bounds(x, y) ==> #[trigger] image.at(x, y) == rows[y][x],
    {
        Image { rows }
    }

    pub fn set(&mut self, x: usize, y: usize, pixel: P)
        requires
            in_bounds(x as int, y as int),
        ensures
            *final(self) == old(self).updated(x as int, y as int, pixel),
            forall|i: int, j: int|
                in_bounds(i, j) ==> #[trigger] final(self).at(i, j) == if i == x && j == y {
                    pixel
                } else {
                    old(self).at(i, j)
                },
    {
        self.rows[y][x] = pixel;
    }

    /// The image whose every pixel is `function` applied to the pixel at the same place.
    pub fn map<F, P1>(self, function: F) -> (image: Image<P1>)
        where F: Fn(P) -> P1, P: Copy, P1: Copy,
        requires
            forall|pixel: P| #[trigger] function.requires((pixel,)),
        ensures
            forall|x: int, y: int|
                in_bounds(x, y) ==> function.ensures((self.at(x, y),), #[trigger] image.at(x, y)),
    {
        // The first pixel fills the array before every pixel is mapped in
        // order; it is mapped once.
        let first = function(self.rows[0][0]);
        let mut rows: [[P1; WIDTH]; HEIGHT] = [[first; WIDTH]; HEIGHT];
        let mut y: usize = 0;
        while y < HEIGHT
            invariant
                y <= HEIGHT,
                y == 0 ==> function.ensures((self.rows[0][0],), rows[0][0]),
                forall|pixel: P| #[trigger] function.requires((pixel,)),
                forall|i: int, j: int|
                    0 <= i < WIDTH && 0 <= j < y ==> function.ensures(
                        (self.rows[j][i],),
                        #[trigger] rows[j][i],
                    ),
            decreases HEIGHT - y,
        {
            let mut x: usize = if y == 0 {
                1
            } else {
                0
            };
            while x < WIDTH
                invariant
                    x <= WIDTH,
                    y < HEIGHT,
                    forall|pixel: P| #[trigger] function.requires((pixel,)),
                    forall|i: int, j: int|
                        0 <= i < WIDTH && 0 <= j < y ==> function.ensures(
                            (self.rows[j][i],),
                            #[trigger] rows[j][i],
                        ),
                    forall|i: int|
                        0 <= i < x ==> function.ensures(
                            (self.rows[y as int][i],),
                            #[trigger] rows[y as int][i],
                        ),
                decreases WIDTH - x,
            {
                rows[y][x] = function(self.rows[y][x]);
                x += 1;
            }
            y += 1;
        }
        Image { rows }
    }
}

impl<P: Copy> Image<P> {
    pub(crate) fn rows(self) -> (rows: [[P; WIDTH]; HEIGHT])
        ensures
            forall|x: int, y: int| in_bounds(x, y) ==> #[trigger] rows[y][x] == self.at(x, y),
    {
        self.rows
    }

    /// The pixel at `(x, y)`, or `None` where that is off the screen.
    pub fn get(self, x: usize, y: usize) -> (pixel: Option<P>)
        ensures
            pixel == self.pixel(x as int, y as int),
    {
        if y < HEIGHT && x < WIDTH {
            Some(self.rows[y][x])
        } else {
            None
        }
    }

    /// Builds an image from its pixels listed row by row from the top, each
    /// row from the left.
    pub fn from_pixels(pixels: [P; PIXEL_COUNT]) -> (image: Image<P>)
        ensures
            forall|x: int, y: int|
                in_bounds(x, y) ==> #[trigger] image.at(x, y) == pixels[y * WIDTH + x],
    {
        let mut rows: [[P; WIDTH]; HEIGHT] = [[pixels[0]; WIDTH]; HEIGHT];
        let mut y: usize = 0;
        while y < HEIGHT
            invariant
                y <= HEIGHT,
                forall|i: int, j: int|
                    0 <= i < WIDTH && 0 <= j < y ==> #[trigger] rows[j][i] == pixels[j * WIDTH + i],
            decreases HEIGHT - y,
        {
            let mut x: usize = 0;
            while x < WIDTH
                invariant
                    x <= WIDTH,
                    y < HEIGHT,
                    forall|i: int, j: int|
                        0 <= i < WIDTH && 0 <= j < y ==> #[trigger] rows[j][i] == pixels[j * WIDTH
                            + i],
                    forall|i: int| 0 <= i < x ==> #[trigger] rows[y as int][i] == pixels[y * WIDTH + i],
                decreases WIDTH - x,
            {
                rows[y][x] = pixels[y * WIDTH + x];
                x += 1;
            }
            y += 1;
        }
        Image { rows }
    }

    /// Every pixel with its coordinates `[x, y]`, row by row from the top,
    /// each row from the left.
    pub fn pixel_coordinates(self) -> (pixels: Vec<([usize; 2], P)>)
        ensures
            pixels.len() == WIDTH * HEIGHT,
            forall|x: int, y: int|
                in_bounds(x, y) ==> {
                    let entry = #[trigger] pixels@[y * WIDTH + x];
                    &&& entry.0[0] == x
                    &&& entry.0[1] == y
                    &&& entry.1 == self.at(x, y)
                },
    {
        let mut pixels: Vec<([usize; 2], P)> = Vec::new();
        let mut y: usize = 0;
        while y < HEIGHT
            invariant
                y <= HEIGHT,
                pixels.len() == y * WIDTH,
                forall|i: int, j: int|
                    0 <= i < WIDTH && 0 <= j < y ==> {
                        let entry = #[trigger] pixels@[j * WIDTH + i];
                        &&& entry.0[0] == i
                        &&& entry.0[1] == j
                        &&& entry.1 == self.at(i, j)
                    },
            decreases HEIGHT - y,
        {
            let mut x: usize = 0;
            while x < WIDTH
                invariant
                    x <= WIDTH,
                    y < HEIGHT,
                    pixels.len() == y * WIDTH + x,
                    forall|i: int, j: int|
                        0 <= i < WIDTH && 0 <= j < y ==> {
                            let entry = #[trigger] pixels@[j * WIDTH + i];
                            &&& entry.0[0] == i
                            &&& entry.0[1] == j
                            &&& entry.1 == self.at(i, j)
                        },
                    forall|i: int|
                        0 <= i < x ==> {
                            let entry = #[trigger] pixels@[y * WIDTH + i];
                            &&& entry.0[0] == i
                            &&& entry.0[1] == y
                            &&& entry.1 == self.at(i, y as int)
                        },
                decreases WIDTH - x,
            {
                pixels.push(([x, y], self.rows[y][x]));
                x += 1;
            }
            y += 1;
        }
        pixels
    }
}

/// An image whose every pixel is lit or dark with equal chance, drawn row by
/// row from the top, each row from the left: every pixel is lit exactly when
/// its own coin from the random source came up.
pub fn random_image() -> (image: Image)
    ensures
        forall|x: int, y: int| in_bounds(x, y) ==> tossed(#[trigger] image.at(x, y)),
{
    let mut rows: [[Pixel; WIDTH]; HEIGHT] = [[Pixel::Off; WIDTH]; HEIGHT];
    let mut y: usize = 0;
    while y < HEIGHT
        invariant
            y <= HEIGHT,
            forall|i: int, j: int| 0 <= i < WIDTH && 0 <= j < y ==> tossed(#[trigger] rows[j][i]),
        decreases HEIGHT - y,
    {
        let mut x: usize = 0;
        while x < WIDTH
            invariant
                x <= WIDTH,
                y < HEIGHT,
                forall|i: int, j: int|
                    0 <= i < WIDTH && 0 <= j < y ==> tossed(#[trigger] rows[j][i]),
                forall|i: int| 0 <= i < x ==> tossed(#[trigger] rows[y as int][i]),
            decreases WIDTH - x,
        {
            rows[y][x] = random_pixel();
            x += 1;
        }
        y += 1;
    }
    Image { rows }
}

/// A random image is the coin tosses of the random source: wherever it is
/// lit, a coin came up, and wherever it is dark, one came down.
pub proof fn lemma_random_image_is_tossed(image: Image, x: int, y: int)
    requires
        call_ensures(random_image, (), image),
        in_bounds(x, y),
    ensures
        exists|coin: bool| #[trigger] coin_outcome(coin) && image.at(x, y) == Pixel::lit_when(coin),
{
    assert(tossed(image.at(x, y)));
}

// Arrays only implement `Default` for sizes up to 32, so this is written out.
impl<P: Copy + Default> Default for Image<P> {
    /// The image whose every pixel is the default pixel.
    fn default() -> (image: Self)
        ensures
            call_ensures(P::default, (), image.at(0, 0)),
            forall|x: int, y: int| in_bounds(x, y) ==> #[trigger] image.at(x, y) == image.at(0, 0),
    {
        let pixel = P::default();
        Image { rows: [[pixel; WIDTH]; HEIGHT] }
    }
}

} // verus!
