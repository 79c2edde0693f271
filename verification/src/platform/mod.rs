pub mod paths;
pub mod signal;
pub mod winffi;
pub mod detach;
