//! What the commands are asked to do.

use vstd::prelude::*;

use crate::carver::CarveOptions;
use crate::image::ImageOptions;
use crate::recover::options::RecoverOptions;
use crate::text::{opt_text, owned, push_text};

verus! {

/// Summarize a directory of recovered files.
pub struct TriageArgs {
    /// Directory of recovered files to summarize.
    pub dir: String,
    /// How many of the largest files to list.
    pub top: usize,
    /// Emit the summary as JSON instead of a table.
    pub json: bool,
}

/// Identify a file's type from its contents.
pub struct IdentifyArgs {
    /// File to identify.
    pub file: String,
    /// Emit the result as JSON instead of a line of text.
    pub json: bool,
}

/// Re-hash recovered files against a manifest.
pub struct VerifyArgs {
    /// Manifest to verify: a `.json` or `.csv` report (format chosen by extension).
    pub manifest: String,
    /// Directory the recovered files live in. The `name`/`path` in each manifest row
    /// is resolved relative to this.
    pub base: String,
}

/// Copy a device or image to an image file.
pub struct ImageArgs {
    /// Source to copy: a disk image file or a block device.
    pub source: String,
    /// Image file to create (overwritten if it exists).
    pub output: String,
    /// Start copying at this byte offset.
    pub start: u64,
    /// Stop copying at this byte offset (exclusive).
    pub end: Option<u64>,
    /// Write every byte, including zero runs, instead of leaving holes.
    pub no_sparse: bool,
    /// Bad-sector retry granularity.
    pub sector_size: u64,
    /// Map file recording progress and unreadable regions. Defaults to
    /// `<OUTPUT>.map` when `resume` is used.
    pub map_file: Option<String>,
    /// Resume a previous run from its map file.
    pub resume: bool,
    /// After the main copy, re-read unreadable regions this many extra times.
    pub retry_bad: u32,
    /// Write a run summary to this path. `.json` for JSON, otherwise plain text.
    pub summary: Option<String>,
    /// Suppress the progress bar.
    pub quiet: bool,
}

/// Show the partition / filesystem layout detected in a source.
pub struct InfoArgs {
    /// Source to inspect: a disk image file or a block device.
    pub source: String,
    /// Also count recoverable deleted files in each volume (runs a dry scan).
    pub deleted: bool,
    /// Emit the detected layout as JSON instead of a table.
    pub json: bool,
}

/// Recover deleted files from a filesystem, keeping their names.
pub struct UndeleteArgs {
    /// Source to read: a disk image file or a block device.
    pub source: String,
    /// Directory to write recovered files into (created if needed).
    pub output: String,
    /// Byte offset of the volume within the source. By default the source is
    /// auto-detected.
    pub offset: Option<u64>,
    /// Ignore deleted files smaller than this many bytes.
    pub min_size: u64,
    /// List what would be recovered without writing any files.
    pub dry_run: bool,
    /// Write a report of recovered files to this path. `.json` for JSON, otherwise
    /// CSV.
    pub report: Option<String>,
    /// Write a run summary to this path. `.json` for JSON, otherwise plain text.
    pub summary: Option<String>,
}

/// Carve files from a device or image by signature.
pub struct ScanArgs {
    /// Source to read: a disk image file or a block device.
    pub source: String,
    /// Directory to write recovered files into (created if needed).
    pub output: String,
    /// Restrict recovery to these file types. None, or "all", recovers every known
    /// type.
    pub types: Vec<String>,
    /// Start scanning at this byte offset.
    pub start: u64,
    /// Stop scanning at this byte offset (exclusive).
    pub end: Option<u64>,
    /// Ignore carved files smaller than this many bytes.
    pub min_size: u64,
    /// Stop after recovering this many files.
    pub max_files: Option<u64>,
    /// Also recover files nested inside other files (e.g. embedded thumbnails).
    pub allow_nested: bool,
    /// Disable structural validation of carved files.
    pub no_validate: bool,
    /// Skip files whose content (SHA-256) was already recovered in this run.
    pub dedup: bool,
    /// Group recovered files into per-type subdirectories.
    pub organize: bool,
    /// Carve only the volume's free space, where it is known.
    pub unallocated: bool,
    /// Checkpoint scan progress here. Defaults to `<OUTPUT>.checkpoint` when
    /// `resume` is used.
    pub checkpoint: Option<String>,
    /// Resume a prior scan from its checkpoint.
    pub resume: bool,
    /// Write a manifest of carved files to this path. `.json` for JSON, otherwise
    /// CSV.
    pub report: Option<String>,
    /// Write a run summary to this path. `.json` for JSON, otherwise plain text.
    pub summary: Option<String>,
    /// Suppress the progress bar.
    pub quiet: bool,
}

/// Undelete, then carve whatever the metadata could not restore.
pub struct RecoverArgs {
    /// Source to read: a disk image file or a block device.
    pub source: String,
    /// Directory to write recovered files into (created if needed).
    pub output: String,
    /// Restrict carving to these file types. None, or "all", recovers every known
    /// type.
    pub types: Vec<String>,
    /// Byte offset of the volume within the source, for the undelete pass.
    pub offset: Option<u64>,
    /// Ignore files smaller than this many bytes.
    pub min_size: u64,
    /// Group carved files into per-type subdirectories.
    pub organize: bool,
    /// Carve only the volume's free space, where it is known.
    pub unallocated: bool,
    /// Write a combined manifest to this path. `.json` for JSON, otherwise CSV.
    pub report: Option<String>,
    /// Write a run summary to this path. `.json` for JSON, otherwise plain text.
    pub summary: Option<String>,
    /// Suppress the progress bar.
    pub quiet: bool,
}

/// The file that a run keeps its state in: the one named, or, where a run is to be
/// resumed, one next to the output.
pub open spec fn state_file(
    named: Option<Seq<char>>,
    resume: bool,
    output: Seq<char>,
    suffix: Seq<char>,
) -> Option<Seq<char>> {
    match named {
        Some(p) => Some(p),
        None => if resume {
            Some(output + suffix)
        } else {
            None
        },
    }
}

fn state_path(named: &Option<String>, resume: bool, output: &str, suffix: &str) -> (r: Option<
    String,
>)
    ensures
        opt_text(r) == state_file(opt_text(*named), resume, output@, suffix@),
{
    match named {
        Some(p) => Some(owned(p.as_str())),
        None => if resume {
            let mut t = owned(output);
            push_text(&mut t, suffix);
            Some(t)
        } else {
            None
        },
    }
}

impl ScanArgs {
    /// The options of the carving run.
    pub fn carve_options(&self) -> (r: CarveOptions)
        ensures
            r.output_dir@ == self.output@,
            r.start == self.start,
            r.end == self.end,
            r.min_size == self.min_size,
            r.max_files == self.max_files,
            r.allow_nested == self.allow_nested,
            r.validate == !self.no_validate,
            r.dedup == self.dedup,
            r.progress == !self.quiet,
            opt_text(r.checkpoint) == state_file(
                opt_text(self.checkpoint),
                self.resume,
                self.output@,
                ".checkpoint"@,
            ),
            r.resume == self.resume,
            r.organize == self.organize,
    {
        CarveOptions {
            output_dir: owned(self.output.as_str()),
            start: self.start,
            end: self.end,
            min_size: self.min_size,
            max_files: self.max_files,
            allow_nested: self.allow_nested,
            validate: !self.no_validate,
            dedup: self.dedup,
            progress: !self.quiet,
            checkpoint: state_path(
                &self.checkpoint,
                self.resume,
                self.output.as_str(),
                ".checkpoint",
            ),
            resume: self.resume,
            organize: self.organize,
        }
    }
}

impl ImageArgs {
    /// The options of the imaging run.
    pub fn image_options(&self) -> (r: ImageOptions)
        ensures
            r.output@ == self.output@,
            r.start == self.start,
            r.end == self.end,
            r.sparse == !self.no_sparse,
            r.sector_size == self.sector_size,
    {
        ImageOptions {
            output: owned(self.output.as_str()),
            start: self.start,
            end: self.end,
            sparse: !self.no_sparse,
            sector_size: self.sector_size,
        }
    }

    /// The map file of the run, where it keeps one.
    pub fn map_path(&self) -> (r: Option<String>)
        ensures
            opt_text(r) == state_file(
                opt_text(self.map_file),
                self.resume,
                self.output@,
                ".map"@,
            ),
    {
        state_path(&self.map_file, self.resume, self.output.as_str(), ".map")
    }
}

/// Whether options ask for every deleted file from a size on.
pub open spec fn from_size(opts: RecoverOptions, min_size: u64, dry_run: bool) -> bool {
    &&& opts.min_size == min_size
    &&& opts.max_size is None
    &&& opts.modified_after is None
    &&& opts.modified_before is None
    &&& opts.names@.len() == 0
    &&& opts.exclude_names@.len() == 0
    &&& opts.dry_run == dry_run
}

/// Options that ask for every deleted file from a size on.
pub fn recover_options(min_size: u64, dry_run: bool) -> (r: RecoverOptions)
    ensures
        from_size(r, min_size, dry_run),
{
    let mut r = RecoverOptions::default();
    r.min_size = min_size;
    r.dry_run = dry_run;
    r
}

} // verus!
