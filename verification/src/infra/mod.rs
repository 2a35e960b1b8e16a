pub mod paths;
pub mod util;
pub mod fs;
pub mod env;
pub mod process;
