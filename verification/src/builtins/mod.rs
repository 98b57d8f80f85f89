//! The native file builtins' option parsing and pure computations.
pub mod opts;
pub mod cat;
pub mod kill;
pub mod rm;
pub mod chmod;
pub mod cp;
pub mod paths;
pub mod touch;
pub mod mkdir;
pub mod mkfifo;
pub mod rmdir;
pub mod pwd;
