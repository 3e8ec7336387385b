//! A minimal self-relaunching version selector.
//!
//! The library holds the verified core of a supervisor entrypoint: it parses
//! semantic-version filenames (`v<major>[.<minor>[.<patch>]]`), selects the
//! highest-version executable among a directory's entries, and decides the
//! next step of the launch loop. Directory scanning, sleeping and the actual
//! process replacement are performed by the surrounding binary, which hands
//! this library plain values.

pub mod launcher;
pub mod selector;
pub mod version;
