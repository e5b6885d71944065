//! Verified core of the Sosial Video services: the rules of the contact
//! service (accounts, sign-up, broadcasts, comments, speech logs) and the
//! publisher registry of the media relay.

pub mod text;
pub mod api;
pub mod clock;
pub mod ids;
pub mod accounts;
pub mod auth;
pub mod broadcasts;
pub mod comments;
pub mod transcripts;
pub mod sfu;
pub mod service;
