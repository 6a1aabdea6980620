use crate::duration::{duration_from_secs, seconds};
use crate::text::same_text;
use crate::{Image, HEIGHT};
use std::time::Duration;
use vstd::prelude::*;

mod life;
mod radar;
mod still;

pub use life::{
    alive, neighbours, next_cell, next_generation, Life, MAXIMUM_LOOP_LENGTH, PAUSE_FRAMES,
};
pub use radar::{
    dot_drawn, lit_at, DOT_DENOMINATOR, DOT_NUMERATOR, wave_period, wave_position, wave_velocity, Level, Radar, LEVELS, MAX_LEVEL,
};
pub use still::Still;

verus! {

/// One of the animations that Hugo can show.
#[non_exhaustive]
pub enum Programme {
    Life(Life),
    Radar(Radar),
    Still(Still),
}

impl Programme {
    /// Whether `programme` is what the name `name` starts from `start`:
    /// "life", "radar" and "still" name the three programmes, every other
    /// name none.
    pub open spec fn named(name: Seq<char>, start: Image, programme: Option<Programme>) -> bool {
        if name == "life"@ {
            programme matches Some(Programme::Life(life)) && life.starts_from(start)
        } else if name == "radar"@ {
            programme matches Some(Programme::Radar(radar)) && radar.starts_from(start)
                && radar.on_screen_wave()
        } else if name == "still"@ {
            programme matches Some(Programme::Still(still)) && still.shown() == start
        } else {
            programme is None
        }
    }

    pub fn from_name(name: &str, start: Image) -> (programme: Option<Programme>)
        ensures
            Programme::named(name@, start, programme),
    {
        if same_text(name, "life") {
            Some(Programme::Life(Life::new(start)))
        } else if same_text(name, "radar") {
            Some(Programme::Radar(Radar::new(start)))
        } else if same_text(name, "still") {
            Some(Programme::Still(Still::new(start)))
        } else {
            None
        }
    }

    /// Life and the radar show one frame per second. A still image has no
    /// frame rate, and no duration can be made of one.
    pub fn default_frame_duration(&self) -> (duration: Duration)
        requires
            !(self is Still),
        ensures
            duration == seconds(1),
    {
        duration_from_secs(1)
    }

    /// Whether `next` and `frame` are what one frame makes of `previous`.
    pub open spec fn advances(next: Programme, previous: Programme, frame: Image) -> bool {
        match (previous, next) {
            (Programme::Life(before), Programme::Life(after)) => exists|hash: u64|
                after.advances(before, frame, hash),
            (Programme::Radar(before), Programme::Radar(after)) => {
                &&& exists|dots: Seq<bool>|
                    {
                        &&& dots.len() == HEIGHT
                        &&& #[trigger] after.swept(before, dots)
                        &&& forall|y: int| 0 <= y < HEIGHT ==> dot_drawn(#[trigger] dots[y])
                    }
                &&& after.on_screen_wave()
                &&& Radar::shows(frame, after.levels(), after.cycle_index())
            },
            (Programme::Still(before), Programme::Still(after)) => after == before && frame
                == before.shown(),
            _ => false,
        }
    }

    /// A still image is shown for ever: a still programme never changes,
    /// and every one of its frames is its image.
    pub proof fn lemma_still_for_ever(programmes: Seq<Programme>, frames: Seq<Image>, count: int)
        requires
            0 <= count < programmes.len(),
            count <= frames.len(),
            programmes[0] is Still,
            forall|i: int|
                #![trigger programmes[i]]
                0 < i <= count ==> Programme::advances(programmes[i], programmes[i - 1], frames[i - 1]),
        ensures
            forall|i: int| 0 <= i <= count ==> #[trigger] programmes[i] == programmes[0],
            forall|i: int| 0 <= i < count ==> #[trigger] frames[i] == programmes[0]->Still_0.shown(),
        decreases count,
    {
        if count > 0 {
            Programme::lemma_still_for_ever(programmes, frames, count - 1);
            assert(Programme::advances(programmes[count], programmes[count - 1], frames[count - 1]));
        }
    }

    pub fn next_frame(&mut self) -> (frame: Image)
        ensures
            Programme::advances(*final(self), *old(self), frame),
    {
        let frame = match self {
            Programme::Life(life) => life.next_frame(),
            Programme::Radar(radar) => radar.next_frame(),
            Programme::Still(still) => still.image(),
        };
        proof {
            if *self is Life {
                let after = (*self)->Life_0;
                let before = (*old(self))->Life_0;
                let hash = choose|hash: u64| after.advances(before, frame, hash);
                assert(after.advances(before, frame, hash));
            }
        }
        frame
    }
}

} // verus!
