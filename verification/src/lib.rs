//! The process-topology core of a small interactive command
//! interpreter: tokenizing a raw line, classifying it as a plain,
//! redirected or piped job, planning the descriptor wiring of every
//! spawned stage over a model of the process descriptor table, and
//! deciding the supervisor's waits. The calls that create pipes and
//! move descriptors go through thin trusted wrappers over the OS; the
//! surrounding read loop, fork and exec live outside the library.

pub mod tokenize;
pub mod job;
pub mod parse;
pub mod wiring;
pub mod sys;
pub mod process;
pub mod history;
