//! The verified core of a small text-mode login greeter for greetd.
//!
//! Nothing here does input or output. The state machines [`greeter`], [`login`]
//! and [`prompt`] take in what came of the last action and decide on the next;
//! the other modules compute what they need:
//!
//! - [`discovery`], [`desktop`] and [`session`]: which sessions a machine offers;
//! - [`selection`]: which of them to log into;
//! - [`protocol`]: the messages between the greeter and greetd;
//! - [`backoff`] and [`terminal`]: the pause after a failure, the echo of the
//!   terminal;
//! - [`text`], [`order`] and [`number`]: characters, their order, and decimal
//!   numbers.
//!
//! Proof functions whose names begin with `law_` state what holds of the library
//! as a whole.

pub mod backoff;
pub mod desktop;
pub mod discovery;
pub mod greeter;
pub mod login;
pub mod number;
pub mod order;
pub mod prompt;
pub mod protocol;
pub mod selection;
pub mod session;
pub mod terminal;
pub mod text;
