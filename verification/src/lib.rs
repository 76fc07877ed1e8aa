//! A small registry for symbolic port names.
//!
//! The library keeps two stores of name-to-port mappings: a user store of
//! explicit entries and a regenerable store of built-in defaults. It resolves
//! a name through the user store first, then an ignore list, then the
//! defaults, expands every mapping into a set of claimed ports, and picks the
//! first free port of a range when a name has no assignment yet. Reading and
//! writing the persisted stores is left to the binary around the library.

pub mod config;
pub mod defaults;
pub mod port_finder;
pub mod port_spec;

pub use config::Config;
pub use config::PortMapping;
pub use defaults::DefaultsConfig;
pub use port_spec::ParseError;
pub use port_spec::PortSpec;
