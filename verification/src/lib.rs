//! Recover deleted files from SD cards, hard drives, and disk images.
//!
//! The library reads a [`source::BlockSource`] and never writes to it. Every
//! function states what it computes from the bytes of the source, and the
//! statements are proved.

pub mod bytes;
pub mod layout;
pub mod source;
pub mod carver;
pub mod text;
pub mod signatures;
pub mod validate;
pub mod identify;
pub mod hash;
pub mod numbers;
pub mod cli;
pub mod image;
pub mod times;
pub mod paths;
pub mod manifest;
pub mod report;
pub mod tallies;
pub mod triage;
pub mod volume;
pub mod recover;
pub mod fat;
pub mod exfat;
pub mod ext4;
pub mod bcachefs;
pub mod ocfs2;
pub mod hfs;
pub mod gfs2;
pub mod erofs;
pub mod f2fs;
pub mod lvm;
pub mod refs;
pub mod udf;
pub mod mdraid;
pub mod nilfs2;
pub mod swap;
pub mod ufs;
pub mod encrypted;
pub mod iso9660;
pub mod apfs;
pub mod btrfs;
pub mod job;
pub mod json;
pub mod mcp;
