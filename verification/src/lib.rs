//! A gameinfo.txt-based addon manager for Left 4 Dead 2, as a verified library.
//!
//! The core is a reader for the VPK (version 1) directory archive format: it
//! parses the archive's header and directory tree, locates the addon manifest
//! (`addoninfo.txt`) by its root-path key, retrieves the manifest's raw bytes,
//! and extracts the addon's title, version and description from its key/value
//! text. Around that core sit the line-editing rules for `gameinfo.txt`
//! (install, uninstall, rename, list), the backup/reset decision tables, and
//! the MD5 integrity digest used to recognise an unmodified `gameinfo.txt`.
//!
//! File and network I/O, argument parsing and the desktop front end live
//! outside this library; they hand plain values in and take plain values back.

pub mod addon_info;
pub mod args;
pub mod backup;
pub mod bytes;
pub mod gameinfo;
pub mod naming;
pub mod vpk;
