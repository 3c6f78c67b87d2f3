//! A debouncing, grouping webhook buffer for episode events.
//!
//! Events arriving for one target path are held in a [`debounce::DebounceTable`]
//! until the path has been quiet for the debounce window; the drained batch is
//! grouped by series, event kind and season, and each group is rendered into one
//! outbound chat message. Delivery follows a bounded exponential backoff.

pub mod sonarr;
pub mod text;
pub mod discord;
pub mod grouping;
pub mod debounce;
pub mod delivery;
pub mod config;
pub mod ingress;
