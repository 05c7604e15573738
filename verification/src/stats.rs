//! Running totals of a serving session and the sentence that sums them up.

use vstd::prelude::*;
use crate::text::{decimal, format_size, push_decimal, size_text};

verus! {

/// Cumulative transfer statistics of a session: how many file ranges were
/// sent in full, and how many bytes they held.
#[derive(Debug)]
pub struct TransferStats {
    pub files_transferred: u32,
    pub total_bytes_sent: u64,
}

/// The sentence that sums up a session with `files` completed ranges and
/// `bytes` bytes sent.
pub open spec fn summary_text(files: nat, bytes: nat) -> Seq<char> {
    if files == 0 {
        "No files were transferred"@
    } else {
        "Transferred "@ + decimal(files) + (if files > 1 {
            " files ("@
        } else {
            " file ("@
        }) + size_text(bytes) + ")"@
    }
}

impl TransferStats {
    /// Empty statistics.
    pub fn new() -> (stats: Self)
        ensures
            stats.files_transferred == 0,
            stats.total_bytes_sent == 0,
    {
        TransferStats { files_transferred: 0, total_bytes_sent: 0 }
    }

    /// Counts one completed range of `bytes` bytes.
    pub fn record(&mut self, bytes: u64)
        requires
            old(self).files_transferred < u32::MAX,
            old(self).total_bytes_sent + bytes <= u64::MAX,
        ensures
            final(self).files_transferred == old(self).files_transferred + 1,
            final(self).total_bytes_sent == old(self).total_bytes_sent + bytes,
    {
        self.files_transferred = self.files_transferred + 1;
        self.total_bytes_sent = self.total_bytes_sent + bytes;
    }

    /// The sentence that sums up the session so far.
    pub fn summary(&self) -> (text: String)
        ensures
            text@ == summary_text(self.files_transferred as nat, self.total_bytes_sent as nat),
    {
        proof {
            reveal_strlit("No files were transferred");
            reveal_strlit("Transferred ");
            reveal_strlit(" files (");
            reveal_strlit(" file (");
            reveal_strlit(")");
        }
        if self.files_transferred == 0 {
            String::from_str("No files were transferred")
        } else {
            let mut text = String::from_str("Transferred ");
            push_decimal(&mut text, self.files_transferred as u64);
            if self.files_transferred > 1 {
                text.append(" files (");
            } else {
                text.append(" file (");
            }
            let size = format_size(self.total_bytes_sent);
            text.append(size.as_str());
            text.append(")");
            text
        }
    }
}

} // verus!
