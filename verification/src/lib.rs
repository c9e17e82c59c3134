//! A client model for a Tachidesk manga server: the request addresses of its
//! REST interface, the data it answers with, and the state machine of a
//! reader window that lists sources, mangas and their thumbnails.

pub mod decimal;
pub mod api;
pub mod model;
pub mod view;
