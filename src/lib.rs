//! Moving files into a FreeDesktop.org trash directory: the choice of trash
//! directory, collision-free placement and the `.trashinfo` metadata format.

pub mod datetime;
pub mod errors;
pub mod list;
pub mod mountpoint;
pub mod path;
pub mod text;
pub mod trash;
pub mod trash_dir;
pub mod trash_info;

pub use errors::CustomError;
pub use list::list;
pub use trash::trash;
pub use trash_dir::{Attempt, Dir, Placement, Topdir, TrashMode};
pub use mountpoint::Mountpoint;
pub use datetime::DateTime;
pub use trash_info::Entry;
