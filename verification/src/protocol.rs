//! The messages exchanged with a game server: joins, room data,
//! results and scores.

pub mod data;
pub mod game_result;
pub mod joined;
pub mod left;
pub mod player_score;
pub mod room;
pub mod score_aggregation;
pub mod score_cause;
pub mod score_definition;
pub mod score_fragment;

pub use data::Data;
pub use game_result::GameResult;
pub use joined::Joined;
pub use left::Left;
pub use player_score::PlayerScore;
pub use room::Room;
pub use score_aggregation::ScoreAggregation;
pub use score_cause::ScoreCause;
pub use score_definition::ScoreDefinition;
pub use score_fragment::ScoreFragment;
