//! A validator for JSON texts.
//!
//! [`UTF8Reader`] cuts a text into atomic units, the characters as a reader of the text
//! perceives them, and [`validate`] decides whether these units are a JSON text. It builds
//! no value: it accepts, or it reports where and why the first violation was found.
//!
//! The modules `machine` and `validator` hold the state machines of the productions, as
//! mathematical functions and as executable code that is proved to compute them. The
//! module `grammar` holds the grammar of JSON, and the module `fidelity` the proofs that
//! the machines accept exactly what the grammar derives.

pub mod collect;
pub mod encoding;
pub mod expand;
pub mod failure;
pub mod fidelity;
pub mod grammar;
pub mod machine;
pub mod message;
pub mod nesting;
pub mod numbers;
pub mod reader;
pub mod strings;
pub mod suite;
pub mod text;
pub mod unit;
pub mod validator;

pub use failure::{Category, ErrorKind, Failure, Literal, Rejection};
pub use reader::{UTF8Reader, UTF8ReaderResult};
pub use validator::{inspect, validate};
