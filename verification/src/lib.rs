//! Core of a desktop tray helper that supervises an external
//! mouse-configuration tool. The library holds everything that can be
//! reasoned about: parsing the tool's captured output, mapping a battery
//! reading to an icon asset, composing the charging overlay by string-level
//! SVG surgery, the freshness-checked cache of rasterized icons with its
//! retry schedule, the battery-state tracker that suppresses redundant
//! regeneration, and the settings record with its validation rules and its
//! JSON form. Process spawning and filesystem access stay with the caller,
//! which hands in captured output and observations (modification times,
//! file existence) and carries out the returned decisions.

pub mod cache;
pub mod cmd;
pub mod icon;
pub mod json;
pub mod settings;
pub mod text;
