//! Display-output and frame-scheduling core of a compositor: connector
//! discovery, timing-engine assignment, buffer-format negotiation, frame
//! pacing, leasing and the per-GPU device registry.

pub mod connector;
pub mod scanner;
pub mod crtc_mapper;
pub mod drm_scanner;
pub mod feedback;
pub mod schedule;
pub mod lease;
pub mod registry;
pub mod quirks;
pub mod context;
