//! Comparison of recorded GPS tracks: track metrics and a tolerance-based
//! search for the stretch of one track that follows another.
pub mod gpxfile;
pub mod gpxfiles;
pub mod gpxsource;
pub mod laws;
pub mod matching;
pub mod metrics;
pub mod segments;
pub mod waypoint;
