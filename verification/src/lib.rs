//! A reactive dependency-object engine: entities live in a generation-checked
//! arena and reference each other through plain data handles (cycles allowed);
//! component types declare named, typed, observable properties through a
//! once-built schema; property writes propagate change notifications
//! depth-first through the graph, with an equality filter (`set_dist`) that lets
//! cyclic recomputation networks settle at a fixed point.

pub mod arena;
pub mod canvas;
pub mod circuit;
pub mod geometry;
pub mod reactive;
pub mod schema;
pub mod view;
