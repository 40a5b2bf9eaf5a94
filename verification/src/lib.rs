//! The decisions of myx, a lean terminal Spotify player, each with its contract: settings, the
//! browser logins for streaming and for the Web API and the tokens they yield, playback requests
//! and events, radio stations, and the look of a cover and of the theme made from it.
//!
//! Input and output stay outside: a caller reads files, talks to the network and draws, and
//! hands plain values in and takes plain values out.

pub mod callback;
pub mod config;
pub mod cover;
pub mod engine;
pub mod form;
pub mod home;
pub mod json;
pub mod oauth;
pub mod pkce;
pub mod probe;
pub mod radio;
pub mod reactive;
pub mod text;
pub mod webapi;
