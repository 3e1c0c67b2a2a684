//! An interactive command-line menu engine: bytes are accumulated into a
//! line buffer, completed lines are resolved against a tree of commands and
//! sub-menus, and arguments are classified and located against a declared
//! parameter schema.
//!
//! The library is pure: every byte of input produces a description of what
//! the caller should display and which handler (if any) it should invoke.
//! The caller owns the transport and the handlers.

pub mod help;
pub mod menu;
pub mod menu_manager;
pub mod params;
pub mod processor;
pub mod runner;
pub mod token;

pub use help::print_long_help;
pub use help::print_short_help;
pub use menu::Item;
pub use menu::ItemType;
pub use menu::Menu;
pub use menu::Parameter;
pub use menu_manager::MenuManager;
pub use params::argument_finder;
pub use params::validate_arguments;
pub use params::ArgCheck;
pub use params::Error;
pub use processor::InnerRunner;
pub use processor::ProcessOutcome;
pub use processor::ProcessResult;
pub use processor::PromptIter;
pub use runner::InputEvent;
pub use runner::InputResult;
pub use runner::Runner;
pub use token::str_eq;
pub use token::tokenize_line;
