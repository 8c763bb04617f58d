//! The logic of the desktop front end: its state, how updates change it, and what it
//! shows.
pub mod logs;
pub mod actions;
pub mod describe;
pub mod details;
pub mod external;
pub mod frame;
pub mod graph;
pub mod highlight;
pub mod model;
pub mod nav;
pub mod palette;
pub mod results;
pub mod search;
pub mod select;
pub mod setup;
pub mod streams;
pub mod term;
pub mod updates;
pub mod view;
pub mod watch;
pub mod windows;
