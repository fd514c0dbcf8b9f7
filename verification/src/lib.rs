//! The layout and interaction rules of a bento launcher panel.

pub mod absent;
pub mod answers;
pub mod arrange;
pub mod at;
pub mod bento;
pub mod board;
pub mod carries;
pub mod cells;
pub mod center;
pub mod choices;
pub mod clicks;
pub mod conduct;
pub mod config;
pub mod control;
pub mod corner;
pub mod course;
pub mod drag;
pub mod drops;
pub mod edges;
pub mod edit;
pub mod events;
pub mod faces;
pub mod figures;
pub mod filter;
pub mod finds;
pub mod geometry;
pub mod keys;
pub mod lattice;
pub mod layout;
pub mod lights;
pub mod looks;
pub mod loops;
pub mod menu;
pub mod model;
pub mod narrowing;
pub mod num;
pub mod order;
pub mod outline;
pub mod paint;
pub mod pairing;
pub mod percent;
pub mod place;
pub mod plans;
pub mod popup;
pub mod query;
pub mod readings;
pub mod replies;
pub mod ring;
pub mod scene;
pub mod section;
pub mod session;
pub mod settings;
pub mod shape;
pub mod side;
pub mod steady;
pub mod stretch;
pub mod strokes;
pub mod surface;
pub mod text;
pub mod tiles;
pub mod touches;
pub mod tree;
pub mod whole;
pub mod widths;
