//! Stateless bridge between agent configuration directories and the place
//! where their data is kept: path arithmetic, git exclude bookkeeping and the
//! decisions behind `link`, `unlink` and `status`.

pub mod text;
pub mod exclude;
pub mod path;
pub mod project;
pub mod link;
pub mod status;
pub mod doctor;
