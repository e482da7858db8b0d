//! A small grep-style pattern matcher: a pattern is compiled into a list of
//! units (digits, word characters, literal text, character groups,
//! quantifiers, alternations, groups and back references), and the units are
//! then matched against an input line.

pub mod unit;
pub mod encode;
pub mod groups;
pub mod semantics;
pub mod grammar;
pub mod compile;
pub mod spacing;
pub mod unitary;
pub mod search;
pub mod fuel;
pub mod laws;
pub mod literal;
pub mod choice;
pub mod frame;
pub mod rules;
