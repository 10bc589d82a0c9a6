//! The decisions behind content-aware focus-point detection.
//!
//! Given the measurements taken on a photograph, this crate decides where a
//! crop keeps its focus: which blocks are background, which scene the frame
//! shows, which blocks form a face, which rule may move the point and how far.
//! A measurement is carried as its [`rank`] on the number line of single
//! precision values, so that every comparison made here is the comparison of
//! the measured numbers themselves.

pub mod rank;
pub mod ranking;
pub mod marks;
pub mod eyes;
pub mod grid;
pub mod counting;
pub mod background;
pub mod distance;
pub mod clusters;
pub mod selection;
pub mod blocks;
pub mod face_region;
pub mod weights;
pub mod classify;
pub mod strips;
pub mod mass;
pub mod rules;
pub mod tail;
pub mod refine;
pub mod signals;
pub mod peaks;
pub mod spectrum;
pub mod skin;
pub mod zoom;
pub mod digits;
pub mod hash;
pub mod text;
pub mod golden;
pub mod record;
