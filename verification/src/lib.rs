//! Dice expressions in the style of MapTool: parsing, rolling and combining.
//!
//! An expression such as `2d20+5`, `4d6k3` or `10d10es8` is read into a
//! [`CompoundDiceRoll`]. Each of its terms is a [`Dice`], which is rolled
//! step by step: a [`Roll`] asks for uniform integers, and goes on when they
//! arrive. The results of the terms are combined into a
//! [`CompoundDiceResult`] by the arithmetic between them.
//!
//! The integers come from an oracle that is asked over the network. This
//! crate does not ask: it says what to ask for ([`oracle::endpoint`]), reads
//! the answer, and falls back on a local generator where the answer is of
//! no use.
//!
//! What holds of every roll and of every reading is stated and proved in
//! [`laws`].
//!
//! This crate is part of Denedé, a bot that rolls dice in a chat. It is free
//! software under the GNU Affero General Public License, version 3 or
//! later, and comes without any warranty.

pub mod arith;
pub mod compound;
pub mod dice;
pub mod error;
pub mod evaluate;
pub mod kind;
pub mod laws;
pub mod message;
pub mod names;
pub mod oracle;
pub mod result;
pub mod roll;
pub mod rules;
pub mod select;
pub mod text;

pub use compound::{CompoundDiceRoll, DiceArithmeticOp};
pub use dice::Dice;
pub use error::{DiceError, ErrorKind};
pub use evaluate::CompoundDiceResult;
pub use kind::DieKind;
pub use names::sanitize_name;
pub use oracle::Request;
pub use result::DiceResult;
pub use roll::{Roll, Stage, Step};
