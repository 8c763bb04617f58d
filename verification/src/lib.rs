use vstd::prelude::*;

pub mod age;
pub mod api;
pub mod apply;
pub mod cli;
pub mod codec;
pub mod columns;
pub mod gui;
pub mod gvk;
pub mod json;
pub mod kubehub;
pub mod ops;
pub mod order;
pub mod patterns;
pub mod persist;
pub mod refs;
pub mod rx;
pub mod schema;
pub mod settings;
pub mod small;
pub mod text;
pub mod types;

verus! {

}
