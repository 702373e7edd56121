//! A tiling window manager core: the focus ring of each workspace, the
//! layouts that turn a ring into screen rectangles, and the manager that
//! moves clients between tags. The library never touches a display: every
//! effect on the outside world is handed back as a `Request`.

pub mod atoms;
pub mod client;
pub mod clients;
pub mod config;
pub mod display;
pub mod events;
pub mod extra;
pub mod layout;
pub mod loggers;
pub mod manager;
pub mod prompt;
pub mod rect;
pub mod ring;
pub mod setup;
pub mod state;
pub mod theorems;
pub mod util;
pub mod workspace;
