//! A character-cell ray tracer: frame buffer encoding, camera movement
//! decisions, nearest-hit selection and the application lifecycle.

pub mod canvas;
pub mod colour;
pub mod movement;
pub mod state;
pub mod scene;
pub mod calibration;
