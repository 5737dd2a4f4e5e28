//! A service-discovery manifest generator.
//!
//! A static configuration names probe targets (a probing module, a URL and a
//! sequence of grouping tags) and probing endpoints (an address, a geohash
//! and a name). [`discovery::expand`] combines the two lists into discovery
//! groups: one group per endpoint and per distinct tag, carrying the URLs
//! that share the tag and a fixed label set describing the endpoint and the
//! tag. [`loader`] turns configuration text into a [`config::Config`],
//! applying the tag-defaulting rule and rejecting documents that do not
//! conform to the schema.

pub mod config;
pub mod discovery;
pub mod loader;
pub mod model;
pub mod yaml;
