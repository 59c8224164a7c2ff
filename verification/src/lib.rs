//! Signal processing for game-industry source items: text normalization,
//! entity resolution, event attribution, duplicate folding, and the
//! provider/secret bookkeeping of the web front end.
pub mod strs;
pub mod ext;
pub mod text_utils;
pub mod urls;
pub mod models;
pub mod assets;
pub mod scores;
pub mod resolve;
pub mod events;
pub mod dedupe;
pub mod pipeline;
pub mod metrics;
pub mod providers;
pub mod secrets;
pub mod galaxy;
pub mod focus;
pub mod vault;
