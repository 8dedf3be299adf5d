//! Verified core of a motorized turntable photography rig.
//!
//! The library owns the logic of one acquisition job: the deterministic
//! naming of captured images, the in-memory image index, the progress
//! record, and the job controller that sequences captures and observes
//! cooperative cancellation. Hardware access (camera, motor, trigger
//! button), the HTTP layer and the on-disk blob mirror live outside the
//! library and drive it through the controller's step interface.

pub mod controller;
pub mod image_store;
pub mod job;
pub mod names;
pub mod progress;
