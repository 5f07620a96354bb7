//! The command-line surface: the commands and the decisions they make,
//! kept apart from argument parsing and process concerns.

pub mod command;
pub mod new;
pub mod run;
pub mod test;

pub use command::Args;
pub use command::Commands;
pub use new::NewCommand;
pub use run::RunCommand;
pub use test::TestCommand;
