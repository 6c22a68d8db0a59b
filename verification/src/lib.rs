//! Presentation logic for a terminal office of coding agents: safe text,
//! layouts and signs, the isometric room and its pixel drawing, name plate
//! placement, teams and meetings, navigation and reading state.
use vstd::prelude::*;

pub mod backdrop;
pub mod cameras;
pub mod canvas;
pub mod color;
pub mod control;
pub mod counts;
pub mod input;
pub mod inspector;
pub mod keyed;
pub mod finder;
pub mod floor;
pub mod furniture;
pub mod iso;
pub mod layout;
pub mod markers;
pub mod meeting;
pub mod panel;
pub mod motion;
pub mod plates;
pub mod polygon;
pub mod reading;
pub mod room;
pub mod scene;
pub mod shapes;
pub mod sign;
pub mod sky;
pub mod text;
pub mod title;
pub mod tower;
pub mod views;
pub mod work;

verus! {
} // verus!
