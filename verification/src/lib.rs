//! Tracking of two silhouettes, the distance between them, and the particle
//! ensembles that react when they come close.
//!
//! * [`image`] holds frames, luminance images and masks, and cuts a mask from
//!   a luminance image at a brightness level.
//! * [`point_set`] reads the foreground points off a mask, and [`contour`]
//!   picks the largest of the contours found in it.
//! * [`frame_processor`] keeps the mask and the contour of every tracked
//!   object.
//! * [`closest`] finds the closest pair of points between two contours, and
//!   [`interference`] decides whether the pair interferes and which mode the
//!   tracked pair is in.
//! * [`particle_system`] keeps the particle ensembles and their animating
//!   flags, and [`pixelate`] lays out the squares of a coarse redrawing.
//! * [`geometry`] and [`stride`] hold what the others share.
//!
//! The library works on whole numbers throughout. The motion of the particles,
//! the capture of frames and all drawing are left to the program that uses it.

pub mod closest;
pub mod contour;
pub mod frame_processor;
pub mod geometry;
pub mod image;
pub mod interference;
pub mod particle_system;
pub mod pixelate;
pub mod point_set;
pub mod stride;
