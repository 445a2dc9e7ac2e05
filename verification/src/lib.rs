use vstd::prelude::*;

pub mod analyze;
pub mod backchannels;
pub mod floor_holding;
pub mod heuristics;
pub mod ingest;
pub mod laws;
pub mod micro_turns;
pub mod models;
pub mod normalize;
pub mod patch;
pub mod prompts;
pub mod reconcile;
pub mod render;
pub mod select;
pub mod speaker_id;
pub mod stage1;
pub mod text;
pub mod turns;
pub mod validation;
pub mod window;

pub use heuristics::apply_heuristics;
pub use heuristics::HeuristicsConfig;
pub use models::Token;
pub use models::TokenizedTranscript;
pub use models::Turn;
pub use normalize::normalize;
pub use patch::WindowPatch;
pub use reconcile::execute_stage2;
pub use reconcile::Stage2Config;
pub use render::execute_stage3;
pub use render::HumanTranscript;
pub use render::MachineTranscript;
pub use render::Stage3Config;
pub use render::TranscriptMetadata;
pub use speaker_id::parse_participants_string;
pub use speaker_id::Participant;
pub use speaker_id::SpeakerIdConfig;
pub use speaker_id::SpeakerIdResult;
pub use speaker_id::SpeakerIdentification;
pub use stage1::Stage1Config;
pub use window::ProblemZoneConfig;
pub use window::WindowConfig;

verus! {

} // verus!
