//! Score timelines of a two-team match: a generator that grows a timeline by a
//! biased random walk, and a resolver that answers what the score was at a
//! given offset.

pub mod generator;
pub mod laws;
pub mod resolver;
pub mod stamp;

pub use generator::{
    generate_game, generate_stamp, generate_timeline, next_stamp, OFFSET_MAX_STEP,
    PROBABILITY_HOME_SCORE, PROBABILITY_SCALE, PROBABILITY_SCORE_CHANGED, TIMESTAMPS_COUNT,
};
pub use resolver::{dup_err_code, err_code, get_score, score_at, search_offset, GetScoreErrors};
pub use stamp::{initial_stamp, Score, Stamp};
