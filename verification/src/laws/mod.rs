//! What holds of the operations as a whole, stated over what goes into them and
//! what comes out.
pub mod address;
pub mod answers;
pub mod command_line;
pub mod editing;
pub mod machine;
pub mod numbers;
pub mod output;
pub mod page;
pub mod picture;
pub mod pixels;
pub mod pointer;
pub mod ram;
pub mod screen;
pub mod session;
pub mod shell;
