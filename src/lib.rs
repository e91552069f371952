//! Declarative, extensible menus: a configuration tree is built into a tree
//! of actions (commands and menus) and driven step by step, each menu handing
//! the choice to an interactive picker process.

pub mod value;
pub mod labels;
pub mod action;
pub mod builder;
pub mod config;
