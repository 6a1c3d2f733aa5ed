//! The decisions of a tree scan: which files are passed over, under what name a file is
//! reported, and what is found in it. Walking the tree and reading the files is left to the
//! caller.

use vstd::prelude::*;
use vstd::utf8::*;

use crate::entropy;
use crate::entropy::ByteCounts;
use crate::finding;
use crate::finding::Finding;
use crate::scan;
use crate::scan::{ScanOpts, Scanner};

verus! {

/// How many bytes at the start of a file are looked at to tell whether it is text.
pub const SNIFF_BYTES: usize = 8192;

/// A zero byte stands near the start of `bytes`.
pub open spec fn binary(bytes: Seq<u8>) -> bool {
    exists|i: int| 0 <= i < bytes.len() && i < SNIFF_BYTES && bytes[i] == 0
}

/// Whether a file with these bytes is taken for binary.
pub fn looks_binary(bytes: &[u8]) -> (b: bool)
    ensures
        b == binary(bytes@),
{
    let mut i: usize = 0;
    while i < bytes.len() && i < SNIFF_BYTES
        invariant
            i <= bytes@.len(),
            i <= SNIFF_BYTES,
            forall|k: int| 0 <= k < i ==> bytes@[k] != 0,
        decreases bytes@.len() - i,
    {
        if bytes[i] == 0 {
            return true;
        }
        i = i + 1;
    }
    false
}

/// A file of `size` bytes is above a limit of `max_bytes`; a limit of zero is none, and a file
/// whose size is not known is above none.
pub open spec fn oversize(size: Option<u64>, max_bytes: u64) -> bool {
    match size {
        Some(n) => max_bytes > 0 && n > max_bytes,
        None => false,
    }
}

/// Whether a file is passed over for its size.
pub fn too_large(size: Option<u64>, opts: &ScanOpts) -> (b: bool)
    ensures
        b == oversize(size, opts.max_bytes),
{
    match size {
        Some(n) => opts.max_bytes > 0 && n > opts.max_bytes,
        None => false,
    }
}

/// The name under which a file is reported: its path below the root, or its whole path where
/// the root is the file itself.
pub fn file_label(below_root: &str, whole: &str) -> (label: String)
    ensures
        label@ == if below_root@.len() == 0 {
            whole@
        } else {
            below_root@
        },
{
    if below_root.is_empty() {
        whole.to_owned()
    } else {
        below_root.to_owned()
    }
}

/// The text that `String::from_utf8_lossy` makes of `bytes`.
pub uninterp spec fn utf8_lossy(bytes: Seq<u8>) -> Seq<char>;

/// Calls `String::from_utf8_lossy`, which decodes UTF-8 and puts a replacement character where
/// the bytes are not valid. Bytes that are valid throughout are decoded as they stand.
#[verifier::external_body]
fn decode_lossy(bytes: &[u8]) -> (s: String)
    ensures
        s@ == utf8_lossy(bytes@),
        valid_utf8(bytes@) ==> s@ == decode_utf8(bytes@),
{
    String::from_utf8_lossy(bytes).into_owned()
}

/// What the bytes that were read hold; nothing where the file was not read.
pub open spec fn read_view(bytes: Option<&[u8]>) -> Option<Seq<u8>> {
    match bytes {
        Some(b) => Some(b@),
        None => None,
    }
}

/// A file is passed over that is too large, could not be read or is binary.
pub open spec fn passed_over(size: Option<u64>, bytes: Option<Seq<u8>>, max_bytes: u64) -> bool {
    oversize(size, max_bytes) || match bytes {
        Some(b) => binary(b),
        None => true,
    }
}

impl Scanner {
    /// Scans a file of a tree under the name `label`, given its size, where that is known, and
    /// its bytes, where they were read. A file that is passed over has no findings and stops
    /// nothing.
    pub fn scan_entry<F: Fn(&ByteCounts) -> bool>(
        &self,
        size: Option<u64>,
        bytes: Option<&[u8]>,
        label: &str,
        opts: &ScanOpts,
        judge: &F,
    ) -> (out: Vec<Finding>)
        requires
            entropy::can_judge(judge),
        ensures
            passed_over(size, read_view(bytes), opts.max_bytes) ==> out@.len() == 0,
            !passed_over(size, read_view(bytes), opts.max_bytes) ==> scan::scanned(
                utf8_lossy(read_view(bytes)->0),
                label@,
                opts.injection,
                judge,
                finding::finding_views(out@),
            ),
            !passed_over(size, read_view(bytes), opts.max_bytes) && valid_utf8(read_view(bytes)->0)
                ==> scan::scanned(
                decode_utf8(read_view(bytes)->0),
                label@,
                opts.injection,
                judge,
                finding::finding_views(out@),
            ),
    {
        if too_large(size, opts) {
            return Vec::new();
        }
        match bytes {
            Some(b) => self.scan_file(b, label, opts, judge),
            None => Vec::new(),
        }
    }

    /// Scans the bytes of a file under the name `label`. Nothing is found in a binary file.
    pub fn scan_file<F: Fn(&ByteCounts) -> bool>(
        &self,
        bytes: &[u8],
        label: &str,
        opts: &ScanOpts,
        judge: &F,
    ) -> (out: Vec<Finding>)
        requires
            entropy::can_judge(judge),
        ensures
            binary(bytes@) ==> out@.len() == 0,
            !binary(bytes@) ==> scan::scanned(
                utf8_lossy(bytes@),
                label@,
                opts.injection,
                judge,
                finding::finding_views(out@),
            ),
            !binary(bytes@) && valid_utf8(bytes@) ==> scan::scanned(
                decode_utf8(bytes@),
                label@,
                opts.injection,
                judge,
                finding::finding_views(out@),
            ),
    {
        if looks_binary(bytes) {
            return Vec::new();
        }
        let text = decode_lossy(bytes);
        self.scan_text_opts(text.as_str(), label, opts, judge)
    }
}

} // verus!
