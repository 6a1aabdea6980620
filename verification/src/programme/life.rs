use crate::image::{in_bounds, random_image, Image};
use crate::pixel::tossed;
use crate::{Pixel, HEIGHT, WIDTH};
use std::hash::{BuildHasher, BuildHasherDefault, DefaultHasher};
use vstd::prelude::*;

verus! {

/// How many frames the final state is kept on the screen before a new one is drawn.
pub const PAUSE_FRAMES: usize = 1000;

/// How many past states are remembered to notice that the simulation repeats itself.
pub const MAXIMUM_LOOP_LENGTH: usize = 280;

const DEAD: Pixel = Pixel::Off;

const ALIVE: Pixel = Pixel::On;

/// The eight places around a cell, as `[x offset, y offset]`.
const OFFSETS: [[isize; 2]; 8] = [
    [-1, -1],
    [-1, 0],
    [-1, 1],
    [0, -1],
    [0, 1],
    [1, -1],
    [1, 0],
    [1, 1],
];

/// 1 where `(x, y)` is a living cell of `image`, 0 elsewhere (off the screen too).
pub open spec fn alive(image: Image, x: int, y: int) -> int {
    if in_bounds(x, y) && image.at(x, y) == Pixel::On {
        1
    } else {
        0
    }
}

/// The number of living cells among the eight around `(x, y)`.
pub open spec fn neighbours(image: Image, x: int, y: int) -> int {
    alive(image, x - 1, y - 1) + alive(image, x - 1, y) + alive(image, x - 1, y + 1) + alive(
        image,
        x,
        y - 1,
    ) + alive(image, x, y + 1) + alive(image, x + 1, y - 1) + alive(image, x + 1, y) + alive(
        image,
        x + 1,
        y + 1,
    )
}

/// Conway's rule: a dead cell with three neighbours is born, a living cell
/// with two or three neighbours lives on, every other cell is dead.
pub open spec fn next_cell(cell: Pixel, neighbour_count: int) -> Pixel {
    match cell {
        Pixel::Off => if neighbour_count == 3 {
            Pixel::On
        } else {
            Pixel::Off
        },
        Pixel::On => if neighbour_count == 2 || neighbour_count == 3 {
            Pixel::On
        } else {
            Pixel::Off
        },
    }
}

/// Conway's game of life: in the next generation a cell is alive exactly when
/// it has three living neighbours, or it is alive and has two; every other
/// cell is dead.
pub proof fn lemma_conway(current: Image, next: Image, x: int, y: int)
    requires
        next_generation(current, next),
        in_bounds(x, y),
    ensures
        next.at(x, y) == Pixel::On <==> (neighbours(current, x, y) == 3 || (current.at(x, y)
            == Pixel::On && neighbours(current, x, y) == 2)),
        next.at(x, y) == Pixel::Off <==> !(neighbours(current, x, y) == 3 || (current.at(x, y)
            == Pixel::On && neighbours(current, x, y) == 2)),
        0 <= neighbours(current, x, y) <= 8,
{
    assert(next.at(x, y) == next_cell(current.at(x, y), neighbours(current, x, y)));
}

/// The offset of the `k`-th neighbour in the order in which they are counted.
spec fn offset(k: int) -> (int, int) {
    if k == 0 {
        (-1, -1)
    } else if k == 1 {
        (-1, 0)
    } else if k == 2 {
        (-1, 1)
    } else if k == 3 {
        (0, -1)
    } else if k == 4 {
        (0, 1)
    } else if k == 5 {
        (1, -1)
    } else if k == 6 {
        (1, 0)
    } else {
        (1, 1)
    }
}

/// The living cells among the first `k` neighbours of `(x, y)`.
spec fn neighbours_among(image: Image, x: int, y: int, k: int) -> int
    decreases k,
{
    if k <= 0 {
        0
    } else {
        neighbours_among(image, x, y, k - 1) + alive(
            image,
            x + offset(k - 1).0,
            y + offset(k - 1).1,
        )
    }
}

/// Whether `next` is the generation that follows `current` by Conway's rule.
pub open spec fn next_generation(current: Image, next: Image) -> bool {
    forall|x: int, y: int|
        in_bounds(x, y) ==> #[trigger] next.at(x, y) == next_cell(
            current.at(x, y),
            neighbours(current, x, y),
        )
}

/// Hashes an image with `BuildHasher::hash_one` and a fresh
/// `std::hash::DefaultHasher`. Nothing is claimed of the hash: the standard
/// library leaves its algorithm unspecified, and it may change between releases.
#[verifier::external_body]
fn state_hash(image: &Image) -> u64 {
    BuildHasherDefault::<DefaultHasher>::default().hash_one(image)
}

/// Conway's game of life.
pub struct Life {
    image: Image,
    hashes: [u64; MAXIMUM_LOOP_LENGTH],
    hash_head: usize,
    // The generation in which neighbours are counted: the current one.
    simulation: Image,
    // The number of frames until we should restart the simulation.
    restart_after: Option<usize>,
}

impl Life {
    #[verifier::type_invariant]
    spec fn bounded(self) -> bool {
        &&& self.hash_head < MAXIMUM_LOOP_LENGTH
        &&& self.restart_after matches Some(frames) ==> frames > 0
        &&& self.simulation == self.image
    }

    /// The image that this programme shows.
    pub closed spec fn shown(self) -> Image {
        self.image
    }

    /// The hashes of the states seen so far, in a ring of `MAXIMUM_LOOP_LENGTH` slots.
    pub closed spec fn hashes(self) -> Seq<u64> {
        self.hashes@
    }

    /// The slot of `hashes` that the next new hash goes to.
    pub closed spec fn hash_head(self) -> int {
        self.hash_head as int
    }

    /// The number of frames until a new simulation starts, once a repetition was seen.
    pub closed spec fn restart_after(self) -> Option<usize> {
        self.restart_after
    }

    /// A simulation that starts from `image`: it shows it, has remembered
    /// nothing and is not waiting to restart.
    pub open spec fn starts_from(self, image: Image) -> bool {
        &&& self.shown() == image
        &&& self.hashes() == Seq::new(MAXIMUM_LOOP_LENGTH as nat, |i: int| 0u64)
        &&& self.hash_head() == 0
        &&& self.restart_after() == None::<usize>
    }

    /// The remembered hashes fill a ring of `MAXIMUM_LOOP_LENGTH` slots, and
    /// the next new hash goes into one of them.
    pub open spec fn ring_ok(self) -> bool {
        &&& self.hashes().len() == MAXIMUM_LOOP_LENGTH
        &&& 0 <= self.hash_head() < MAXIMUM_LOOP_LENGTH
    }

    /// A hash that was just remembered is seen when it is looked up again,
    /// and looking it up again changes nothing.
    pub proof fn lemma_seen_again(
        first: Life,
        second: Life,
        third: Life,
        hash: u64,
        seen_first: bool,
        seen_second: bool,
    )
        requires
            first.ring_ok(),
            second.remembers(first, hash, seen_first),
            third.remembers(second, hash, seen_second),
        ensures
            seen_second,
            third.hashes() == second.hashes(),
            third.hash_head() == second.hash_head(),
            third.shown() == second.shown(),
            third.restart_after() == second.restart_after(),
    {
        if !seen_first {
            assert(second.hashes()[first.hash_head()] == hash);
        }
    }

    /// `self` is `previous` after `hash` was looked up in its remembered
    /// hashes (`seen` says whether it was there) and, when it was not there,
    /// written into the next slot of the ring.
    pub open spec fn remembers(self, previous: Life, hash: u64, seen: bool) -> bool {
        &&& seen == previous.hashes().contains(hash)
        &&& self.shown() == previous.shown()
        &&& self.restart_after() == previous.restart_after()
        &&& if seen {
            &&& self.hashes() == previous.hashes()
            &&& self.hash_head() == previous.hash_head()
        } else {
            &&& self.hashes() == previous.hashes().update(previous.hash_head(), hash)
            &&& self.hash_head() == (previous.hash_head() + 1) % (MAXIMUM_LOOP_LENGTH as int)
        }
    }

    pub(crate) fn new(image: Image) -> (life: Life)
        ensures
            life.starts_from(image),
    {
        let life = Life {
            image,
            hashes: [0; MAXIMUM_LOOP_LENGTH],
            hash_head: 0,
            restart_after: None,
            simulation: image,
        };
        assert(life.hashes@ =~= Seq::new(MAXIMUM_LOOP_LENGTH as nat, |i: int| 0u64));
        life
    }

    pub(crate) fn neighbour_count(&self, x: usize, y: usize) -> (count: usize)
        ensures
            count == neighbours(self.shown(), x as int, y as int),
    {
        proof {
            use_type_invariant(self);
        }
        let mut count: usize = 0;
        let mut k: usize = 0;
        while k < 8
            invariant
                k <= 8,
                count == neighbours_among(self.simulation, x as int, y as int, k as int),
                count <= k,
            decreases 8 - k,
        {
            let x_offset = OFFSETS[k][0];
            let y_offset = OFFSETS[k][1];
            assert(x_offset == offset(k as int).0 && y_offset == offset(k as int).1);
            match x.checked_add_signed(x_offset) {
                Some(neighbour_x) => match y.checked_add_signed(y_offset) {
                    Some(neighbour_y) => match self.simulation.get(neighbour_x, neighbour_y) {
                        Some(Pixel::On) => {
                            count += 1;
                        },
                        _ => {},
                    },
                    None => {},
                },
                None => {},
            }
            k += 1;
        }
        assert(neighbours_among(self.simulation, x as int, y as int, 8) == neighbours(
            self.simulation,
            x as int,
            y as int,
        )) by {
            reveal_with_fuel(neighbours_among, 9);
        }
        count
    }

    fn evolve(&mut self)
        ensures
            next_generation(old(self).shown(), final(self).shown()),
            final(self).hashes() == old(self).hashes(),
            final(self).hash_head() == old(self).hash_head(),
            final(self).restart_after() == old(self).restart_after(),
    {
        proof {
            use_type_invariant(&*self);
        }
        let current_generation = self.image;
        let mut next_generation: Image = Image::default();
        let cells = current_generation.pixel_coordinates();
        let mut i: usize = 0;
        while i < cells.len()
            invariant
                cells.len() == WIDTH * HEIGHT,
                self.shown() == current_generation,
                forall|x: int, y: int|
                    in_bounds(x, y) ==> {
                        let entry = #[trigger] cells@[y * WIDTH + x];
                        &&& entry.0[0] == x
                        &&& entry.0[1] == y
                        &&& entry.1 == current_generation.at(x, y)
                    },
                forall|x: int, y: int|
                    in_bounds(x, y) && y * WIDTH + x < i ==> #[trigger] next_generation.at(x, y)
                        == next_cell(current_generation.at(x, y), neighbours(current_generation, x, y)),
            decreases cells.len() - i,
        {
            let ghost cx = i as int % WIDTH as int;
            let ghost cy = i as int / WIDTH as int;
            assert(i == cy * WIDTH + cx && in_bounds(cx, cy));
            assert(cells@[cy * WIDTH + cx].0[0] == cx);
            let entry = cells[i];
            let x = entry.0[0];
            let y = entry.0[1];
            let cell = entry.1;
            let neighbour_count = self.neighbour_count(x, y);
            let new_cell = match cell {
                Pixel::Off => if neighbour_count == 3 {
                    ALIVE
                } else {
                    DEAD
                },
                Pixel::On => if neighbour_count == 2 || neighbour_count == 3 {
                    ALIVE
                } else {
                    DEAD
                },
            };
            next_generation.set(x, y, new_cell);
            i += 1;
        }
        *self = Life {
            image: next_generation,
            hashes: self.hashes,
            hash_head: self.hash_head,
            simulation: next_generation,
            restart_after: self.restart_after,
        };
    }

    /// Looks `hash` up among the remembered hashes; a new one is remembered
    /// in the next slot of the ring.
    pub(crate) fn remember_hash(&mut self, hash: u64) -> (seen: bool)
        ensures
            final(self).remembers(*old(self), hash, seen),
            old(self).ring_ok(),
            final(self).ring_ok(),
    {
        proof {
            use_type_invariant(&*self);
        }
        let mut i: usize = 0;
        while i < MAXIMUM_LOOP_LENGTH
            invariant
                i <= MAXIMUM_LOOP_LENGTH,
                self.hash_head < MAXIMUM_LOOP_LENGTH,
                self.hashes@.len() == MAXIMUM_LOOP_LENGTH,
                forall|j: int| 0 <= j < i ==> self.hashes@[j] != hash,
            decreases MAXIMUM_LOOP_LENGTH - i,
        {
            if self.hashes[i] == hash {
                assert(self.hashes@[i as int] == hash);
                return true;
            }
            i += 1;
        }
        self.hashes[self.hash_head] = hash;
        self.hash_head = (self.hash_head + 1) % MAXIMUM_LOOP_LENGTH;
        false
    }

    /// Whether `self` and `frame` are what one frame makes of `previous`,
    /// with `hash` as the hash of its new state where one is taken.
    ///
    /// A simulation that waits its last frame is replaced by a fresh one
    /// that starts from an image just drawn by `random_image`, which is the
    /// frame. Otherwise the next
    /// generation by Conway's rule is the new state and the frame; a waiting
    /// simulation counts one frame down, and one that is not waiting looks
    /// up the hash of its new state and, where it had seen it, waits
    /// `PAUSE_FRAMES` frames.
    pub open spec fn advances(self, previous: Life, frame: Image, hash: u64) -> bool {
        if previous.restart_after() == Some(1usize) {
            &&& self.starts_from(frame)
            &&& call_ensures(random_image, (), frame)
        } else {
            &&& next_generation(previous.shown(), self.shown())
            &&& frame == self.shown()
            &&& match previous.restart_after() {
                Some(frames) => {
                    &&& self.restart_after() == Some((frames - 1) as usize)
                    &&& self.hashes() == previous.hashes()
                    &&& self.hash_head() == previous.hash_head()
                },
                None => {
                    let seen = previous.hashes().contains(hash);
                    &&& self.restart_after() == if seen {
                        Some(PAUSE_FRAMES)
                    } else {
                        None::<usize>
                    }
                    &&& if seen {
                        &&& self.hashes() == previous.hashes()
                        &&& self.hash_head() == previous.hash_head()
                    } else {
                        &&& self.hashes() == previous.hashes().update(previous.hash_head(), hash)
                        &&& self.hash_head() == (previous.hash_head() + 1) % (
                        MAXIMUM_LOOP_LENGTH as int)
                    }
                },
            }
        }
    }

    /// Whether the `i`-th of `lives` is what one frame makes of the one before,
    /// showing the frame before the `i`-th and taking the hash before the `i`-th.
    pub open spec fn advances_at(lives: Seq<Life>, frames: Seq<Image>, hashes: Seq<u64>, i: int) -> bool {
        lives[i].advances(lives[i - 1], frames[i - 1], hashes[i - 1])
    }

    /// A waiting simulation re-populates the screen: one that waits `count`
    /// frames goes on for `count - 1` frames and then starts afresh from the
    /// image of the last one.
    pub proof fn lemma_restarts(
        lives: Seq<Life>,
        frames: Seq<Image>,
        hashes: Seq<u64>,
        count: usize,
    )
        requires
            0 < count < lives.len(),
            count <= frames.len(),
            count <= hashes.len(),
            lives[0].restart_after() == Some(count),
            forall|i: int|
                0 < i <= count ==> #[trigger] Life::advances_at(lives, frames, hashes, i),
        ensures
            forall|i: int|
                0 < i < count ==> #[trigger] lives[i].restart_after() == Some((count - i) as usize),
            lives[count as int].starts_from(frames[count - 1]),
    {
        Life::lemma_counts_down(lives, frames, hashes, count, count - 1);
        assert(Life::advances_at(lives, frames, hashes, count as int));
    }

    /// Once the state stabilises the screen is re-populated: a simulation
    /// that is not waiting and finds the hash of its new state among those of
    /// the states it remembers runs on for `PAUSE_FRAMES` more frames, each
    /// the next generation of the one before, and then starts afresh.
    pub proof fn lemma_repeat_restarts(lives: Seq<Life>, frames: Seq<Image>, hashes: Seq<u64>)
        requires
            PAUSE_FRAMES + 1 < lives.len(),
            PAUSE_FRAMES + 1 <= frames.len(),
            PAUSE_FRAMES + 1 <= hashes.len(),
            lives[0].restart_after() == None::<usize>,
            lives[0].hashes().contains(hashes[0]),
            forall|i: int|
                0 < i <= PAUSE_FRAMES + 1 ==> #[trigger] Life::advances_at(lives, frames, hashes, i),
        ensures
            lives[1].restart_after() == Some(PAUSE_FRAMES),
            forall|i: int|
                0 < i <= PAUSE_FRAMES ==> {
                    &&& next_generation(lives[i - 1].shown(), #[trigger] lives[i].shown())
                    &&& frames[i - 1] == lives[i].shown()
                },
            lives[PAUSE_FRAMES + 1].starts_from(frames[PAUSE_FRAMES as int]),
    {
        assert(Life::advances_at(lives, frames, hashes, 1));
        let rest = lives.subrange(1, lives.len() as int);
        let rest_frames = frames.subrange(1, frames.len() as int);
        let rest_hashes = hashes.subrange(1, hashes.len() as int);
        assert forall|i: int| 0 < i <= PAUSE_FRAMES implies #[trigger] Life::advances_at(
            rest,
            rest_frames,
            rest_hashes,
            i,
        ) by {
            assert(Life::advances_at(lives, frames, hashes, i + 1));
        }
        Life::lemma_restarts(rest, rest_frames, rest_hashes, PAUSE_FRAMES);
        assert forall|i: int| 0 < i <= PAUSE_FRAMES implies {
            &&& next_generation(lives[i - 1].shown(), #[trigger] lives[i].shown())
            &&& frames[i - 1] == lives[i].shown()
        } by {
            if i > 2 {
                assert(rest[i - 2] == lives[i - 1]);
                assert(rest[i - 2].restart_after() == Some((PAUSE_FRAMES - (i - 2)) as usize));
            }
            assert(Life::advances_at(lives, frames, hashes, i));
            Life::lemma_pause_step(lives[i - 1], lives[i], frames[i - 1], hashes[i - 1]);
        }
        assert(rest[PAUSE_FRAMES as int] == lives[PAUSE_FRAMES + 1]);
    }

    proof fn lemma_pause_step(previous: Life, next: Life, frame: Image, hash: u64)
        requires
            next.advances(previous, frame, hash),
            previous.restart_after() != Some(1usize),
        ensures
            next_generation(previous.shown(), next.shown()),
            frame == next.shown(),
    {
    }

    proof fn lemma_counts_down(
        lives: Seq<Life>,
        frames: Seq<Image>,
        hashes: Seq<u64>,
        count: usize,
        done: int,
    )
        requires
            0 <= done < count < lives.len(),
            count <= frames.len(),
            count <= hashes.len(),
            lives[0].restart_after() == Some(count),
            forall|i: int|
                0 < i <= count ==> #[trigger] Life::advances_at(lives, frames, hashes, i),
        ensures
            forall|i: int|
                0 <= i <= done ==> #[trigger] lives[i].restart_after() == Some((count - i) as usize),
        decreases done,
    {
        if done > 0 {
            Life::lemma_counts_down(lives, frames, hashes, count, done - 1);
            assert(Life::advances_at(lives, frames, hashes, done));
        }
    }

    /// The screen is re-populated with random cells: the frame on which a
    /// simulation starts afresh is an image drawn by the random source, each
    /// of whose pixels is lit exactly when its own coin came up.
    pub proof fn lemma_restart_draws(previous: Life, next: Life, frame: Image, hash: u64)
        requires
            next.advances(previous, frame, hash),
            previous.restart_after() == Some(1usize),
        ensures
            next.starts_from(frame),
            forall|x: int, y: int| in_bounds(x, y) ==> tossed(#[trigger] frame.at(x, y)),
    {
    }

    pub(crate) fn next_frame(&mut self) -> (frame: Image)
        ensures
            exists|hash: u64| final(self).advances(*old(self), frame, hash),
            final(self).ring_ok(),
    {
        proof {
            use_type_invariant(&*self);
        }
        if let Some(restart_after) = self.restart_after {
            let remaining = restart_after - 1;
            if remaining == 0 {
                let fresh = random_image();
                *self = Life::new(fresh);
                proof {
                    use_type_invariant(&*self);
                }
                assert(self.advances(*old(self), self.simulation, 0));
                return self.simulation;
            }
            self.restart_after = Some(remaining);
        }
        self.evolve();
        let ghost mut hash: u64 = 0;
        if self.restart_after.is_none() {
            let ghost evolved = *self;
            let looping = self.is_looping();
            proof {
                use_type_invariant(&*self);
                hash = choose|hash: u64| self.remembers(evolved, hash, looping);
            }
            if looping {
                self.restart_after = Some(PAUSE_FRAMES);
            }
        }
        assert(self.advances(*old(self), self.image, hash));
        self.image
    }

    fn is_looping(&mut self) -> (looping: bool)
        ensures
            exists|hash: u64| final(self).remembers(*old(self), hash, looping),
    {
        let hash = state_hash(&self.simulation);
        self.remember_hash(hash)
    }
}

} // verus!
