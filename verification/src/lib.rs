//! Reconstruction of charged-particle trajectories from hits recorded by a
//! forward silicon-pixel vertex detector, together with a validator that
//! scores the reconstruction against simulated truth.
//!
//! Coordinates are fixed-point integers: callers scale real positions to
//! integer units (the same scale for x, y and z) and keep them within
//! `COORD_LIMIT`.  Slope, tolerance and scatter parameters are exact
//! fractions, so every geometric predicate is decided in exact integer
//! arithmetic.

mod event_model;
mod geometry;
mod graph_dfs;
mod mc_particles;
mod search_by_triplet_trie;
mod track_following;
mod validator_event;
mod validator_helper;
mod efficiency;
mod validator;

pub use event_model::ConfigError;
pub use event_model::Event;
pub use event_model::Hit;
pub use event_model::Module;
pub use event_model::Track;
pub use event_model::NUM_MODULES;
pub use mc_particles::MCParticle;
pub use mc_particles::TruthValue;
pub use mc_particles::parse_montecarlo;
pub use geometry::Fraction;
pub use geometry::Scatter;
pub use geometry::COORD_LIMIT;
pub use geometry::PARAM_LIMIT;
pub use track_following::TrackFollowing;
pub use graph_dfs::GraphDFS;
pub use graph_dfs::Segment;
pub use search_by_triplet_trie::SearchByTripletTrie;
pub use search_by_triplet_trie::TrieNode;
pub use search_by_triplet_trie::TripletRow;
pub use validator_event::ValidatorEvent;
pub use validator_helper::Weight;
pub use validator_helper::ValidationError;
pub use validator_helper::comp_weights;
pub use validator_helper::hit_purity;
pub use validator_helper::ghosts;
pub use validator_helper::ghost_rate;
pub use validator_helper::reconstructed;
pub use validator_helper::clones;
pub use validator_helper::lemma_weight_row_sums_at_most_one;
pub use validator_helper::hit_efficiency;
pub use efficiency::Efficiency;
pub use efficiency::Ratio;
pub use efficiency::EFF_SCALE;
pub use efficiency::lemma_combine_commutative;
pub use efficiency::lemma_combine_associative;
pub use efficiency::spec_combine;
pub use validator::Category;
pub use validator::CategorySummary;
pub use validator::ValidationSummary;
pub use validator::category_from_label;
pub use validator::category_matches;
pub use validator::update_efficiencies;
pub use validator::validate_efficiency;
pub use validator::validate_to_json;
pub use validator::validate_to_json_nested;
pub use validator::NestedValidationSummary;
