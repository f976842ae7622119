//! Branch-aware development environments.
//!
//! On a change of branch the dependencies of a repository are swapped through a cache that is
//! addressed by the lockfile ([`symlink_manager`]), the volumes of its compose files are scoped
//! to the branch ([`docker_proxy`]), and what was not used for a while is collected ([`gc`]).
//! The [`watcher`] tells when the branch changes.
//!
//! No module here touches a file or a process. Each of them decides on plain values, and says
//! what to do; [`isolation`], [`dependency_cache`] and [`retention`] state and prove what the
//! decisions promise as a whole, the second on a model of the file system ([`file_model`]).

pub mod branch;
pub mod dependency_cache;
pub mod docker_proxy;
pub mod file_model;
pub mod gc;
pub mod hashing;
pub mod isolation;
pub mod retention;
pub mod symlink_manager;
pub mod text;
pub mod timestamp;
pub mod watcher;
pub mod yaml;
