//! cdlvsm: the package manager and dispatcher of codelovesme's command-line
//! tools, as a verified library: what each command decides, computes and
//! writes. The program around it performs the file system, process and
//! network work and hands the library plain values.

pub mod text;
pub mod paths;
pub mod error;
pub mod desktop;
pub mod meta;
pub mod order;
pub mod package;
pub mod download;
pub mod cli;
pub mod update;
