//! Core logic of a desktop translation helper: the vocabulary notebook with
//! its Leitner review schedule, lookup detection, API-key sealing, settings
//! sanitising, request/response handling for the translation service, pet
//! skins, the single-Ctrl-tap detector, taking the selection through the
//! clipboard, and the diagnostics report and log text.
pub mod text;
pub mod vocab;
pub mod store;
pub mod dates;
pub mod secret;
pub mod settings;
pub mod translate;
pub mod input;
pub mod capture;
pub mod pets;
pub mod diagnostics;
pub mod logfile;
pub mod order;
