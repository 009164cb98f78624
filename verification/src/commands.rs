//! What each command computes, without the files and streams around it.

pub mod cat_file;
pub mod hash_object;
pub mod read_index;
