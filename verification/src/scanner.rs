//! The decisions of a scan of a directory tree: which entries are read,
//! which directories are entered, which are passed over.

use vstd::prelude::*;
use vstd::string::*;

verus! {

/// What a directory entry is.
#[derive(Debug, Clone, Copy, PartialEq, Eq, Structural)]
pub enum EntryKind {
    Directory,
    File,
    Other,
}

/// What a scan does with an entry.
#[derive(Debug, Clone, Copy, PartialEq, Eq, Structural)]
pub enum ScanStep {
    /// Enter the directory, with this many levels left below it.
    Descend(u8),
    /// Read the file's tags.
    Read,
    /// Pass over the entry.
    Skip,
}

/// The extension is `flac`, in upper or lower case letters.
pub open spec fn is_flac(extension: Seq<char>) -> bool {
    &&& extension.len() == 4
    &&& (extension[0] == 'f' || extension[0] == 'F')
    &&& (extension[1] == 'l' || extension[1] == 'L')
    &&& (extension[2] == 'a' || extension[2] == 'A')
    &&& (extension[3] == 'c' || extension[3] == 'C')
}

/// A directory is entered while levels are left, and passed over when none
/// is; a file is read where it has the extension `flac`; all else is passed
/// over.
pub open spec fn step_for(kind: EntryKind, extension: Option<Seq<char>>, max_depth: u8)
    -> ScanStep {
    match kind {
        EntryKind::Directory => if max_depth == 0 {
            ScanStep::Skip
        } else {
            ScanStep::Descend((max_depth - 1) as u8)
        },
        EntryKind::File => match extension {
            Some(e) => if is_flac(e) {
                ScanStep::Read
            } else {
                ScanStep::Skip
            },
            None => ScanStep::Skip,
        },
        EntryKind::Other => ScanStep::Skip,
    }
}

/// Tells whether a file extension is `flac`, whatever the case of its
/// letters.
pub fn is_flac_extension(extension: &str) -> (r: bool)
    ensures
        r == is_flac(extension@),
{
    if extension.unicode_len() != 4 {
        return false;
    }
    let a: char = extension.get_char(0);
    let b: char = extension.get_char(1);
    let c: char = extension.get_char(2);
    let d: char = extension.get_char(3);
    (a == 'f' || a == 'F') && (b == 'l' || b == 'L') && (c == 'a' || c == 'A') && (d == 'c' || d
        == 'C')
}

/// Decides what a scan does with one entry, `max_depth` levels being left.
pub fn scan_step(kind: EntryKind, extension: Option<&str>, max_depth: u8) -> (r: ScanStep)
    ensures
        r == step_for(
            kind,
            match extension {
                Some(e) => Some(e@),
                None => None,
            },
            max_depth,
        ),
{
    match kind {
        EntryKind::Directory => {
            if max_depth == 0 {
                ScanStep::Skip
            } else {
                ScanStep::Descend(max_depth - 1)
            }
        },
        EntryKind::File => match extension {
            Some(e) => {
                if is_flac_extension(e) {
                    ScanStep::Read
                } else {
                    ScanStep::Skip
                }
            },
            None => ScanStep::Skip,
        },
        EntryKind::Other => ScanStep::Skip,
    }
}

} // verus!
