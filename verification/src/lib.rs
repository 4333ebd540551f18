//! Verified core logic of a set of classic command-line utilities
//! (`fold`, `groups`, `hashsum`, `head`, `hostname`, `id`, `install`,
//! `kill`, `logname`, `ls`): everything these tools decide and compute,
//! stated over plain values, with the system calls left to the callers.

pub mod text;
pub mod unicode;
pub mod fold;
pub mod hashsum;
pub mod head;
pub mod kill;
pub mod hostname;
pub mod id;
pub mod groups;
pub mod logname;
pub mod install;
pub mod ls;
pub mod listing;
pub mod version_sort;
