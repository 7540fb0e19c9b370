//! Verified core of a small budgeting bot: spending categories, the parser
//! for pasted receipts, and the decisions of the chat dialogue.

pub mod category;
pub mod check;
pub mod dialogue;
pub mod pattern;
pub mod price;
pub mod text;
