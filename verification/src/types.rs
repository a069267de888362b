//! Data model of the engine: listing entries and results, storage statistics,
//! move outcomes, and the raw records that the shell hands in after reading
//! the filesystem.

use vstd::prelude::*;

verus! {

/// One listed entry of a directory or scan, with its metadata.
#[derive(Debug, Clone)]
pub struct FileItem {
    pub index: usize,
    pub filename: String,
    pub filepath: String,
    pub is_dir: bool,
    pub size_bytes: u64,
    pub modified: String,
    pub extension: String,
}

/// Sorted single-level listing of a directory.
#[derive(Debug)]
pub struct ListResult {
    pub path: String,
    pub files: Vec<FileItem>,
    pub total_files: usize,
    pub total_folders: usize,
}

/// Tally of a batch move: every decision lands in exactly one counter.
#[derive(Debug, Clone, PartialEq, Eq, Structural)]
pub struct MoveResult {
    pub successful: usize,
    pub failed: usize,
    pub skipped: usize,
}

/// Running totals for one category of files.
#[derive(Debug, Clone)]
pub struct CategoryStat {
    pub category: String,
    pub count: usize,
    pub size_bytes: u64,
}

/// Summary of a bounded scan: totals, per-category rollup and largest files.
#[derive(Debug)]
pub struct StorageStats {
    pub total_size: u64,
    pub total_files: usize,
    pub categories: Vec<CategoryStat>,
    pub largest_files: Vec<FileItem>,
}

/// A subfolder of a listed directory.
#[derive(Debug, Clone)]
pub struct FolderNode {
    pub name: String,
    pub path: String,
    pub has_children: bool,
}

/// A mounted volume with its space figures.
#[derive(Debug, Clone)]
pub struct DriveInfo {
    pub name: String,
    pub path: String,
    pub drive_type: String,
    pub total_space: u64,
    pub available_space: u64,
    pub used_space: u64,
}

/// One decision of a batch move, as supplied by the external classifier.
#[derive(Debug, Clone)]
pub struct MoveDecision {
    pub source_path: String,
    pub filename: String,
    pub target_folder: String,
    pub suggested_name: Option<String>,
    pub apply: bool,
}

/// Raw direct entry of a directory as read by the shell; `size` and
/// `modified` (seconds since the Unix epoch) are absent when the entry's
/// metadata could not be read.
#[derive(Debug, Clone)]
pub struct RawDirEntry {
    pub name: String,
    pub path: String,
    pub is_dir: bool,
    pub size: Option<u64>,
    pub modified: Option<i64>,
}

/// Raw entry of a recursive traversal stream, in depth-first order with the
/// depth below the root attached; `modified` is seconds since the Unix epoch.
#[derive(Debug, Clone)]
pub struct WalkEntry {
    pub name: String,
    pub path: String,
    pub depth: usize,
    pub is_dir: bool,
    pub size: Option<u64>,
    pub modified: Option<i64>,
}

/// Raw entry considered by the folder listing: a direct entry with the
/// flag saying whether it has any non-hidden subdirectory of its own.
#[derive(Debug, Clone)]
pub struct RawFolderEntry {
    pub name: String,
    pub path: String,
    pub is_dir: bool,
    pub has_children: bool,
}

/// A mounted disk as reported by the system, reduced to plain values.
#[derive(Debug, Clone)]
pub struct DiskRecord {
    pub mount_point: String,
    pub total_space: u64,
    pub available_space: u64,
}

} // verus!
