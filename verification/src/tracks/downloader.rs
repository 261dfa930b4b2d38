//! How far the fetching of a track has come.
use vstd::prelude::*;
use vstd::string::StringExecFns;
use crate::arith::{is_below, place};
use crate::sample::{is_nan, SILENCE, UNITY};
use crate::text::{decimal, decimal_text};
use crate::ui::render::{percent, percent_of};

verus! {

/// The track that is being fetched and how far the fetching has come.
pub struct DownloadProgress {
    /// The title of the track.
    pub track_name: String,
    /// The part that has been fetched, from zero to one.
    pub progress: u32,
    /// Whether the fetching has ended.
    pub completed: bool,
}

impl Default for DownloadProgress {
    /// No track, nothing fetched.
    fn default() -> (progress: DownloadProgress)
        ensures
            progress.track_name@ == Seq::<char>::empty(),
            progress.progress == SILENCE,
            !progress.completed,
    {
        DownloadProgress { track_name: String::new(), progress: SILENCE, completed: false }
    }
}

/// What is shown of a preset that waits for its first track: its name and,
/// while a track is on its way and a part of it has been fetched, that part
/// in percent.
pub open spec fn waiting_label(pending: Seq<char>, progress: u32, completed: bool) -> Seq<char> {
    if !is_nan(progress) && place(progress) > 0 && !completed {
        "  → ["@ + pending + "] "@ + decimal(percent_of(progress) as nat) + "%"@
    } else {
        "  → ["@ + pending + "] downloading..."@
    }
}

impl DownloadProgress {
    /// The fetching of the track called `track_name` begins.
    pub fn begin(track_name: &str) -> (progress: DownloadProgress)
        ensures
            progress.track_name@ == track_name@,
            progress.progress == SILENCE,
            !progress.completed,
    {
        DownloadProgress {
            track_name: String::from_str(track_name),
            progress: SILENCE,
            completed: false,
        }
    }

    /// The fetching has ended.
    pub fn finish(&mut self)
        ensures
            final(self).track_name@ == old(self).track_name@,
            final(self).progress == UNITY,
            final(self).completed,
    {
        self.progress = UNITY;
        self.completed = true;
    }

    /// What is shown of the preset called `pending` that waits for this
    /// track.
    pub fn label(&self, pending: &str) -> (text: String)
        ensures
            text@ == waiting_label(pending@, self.progress, self.completed),
    {
        let head = String::from_str("  → [").concat(pending);
        if is_below(SILENCE, self.progress) && !self.completed {
            head.concat("] ").concat(decimal_text(percent(self.progress) as u64).as_str()).concat(
                "%",
            )
        } else {
            head.concat("] downloading...")
        }
    }
}

} // verus!
