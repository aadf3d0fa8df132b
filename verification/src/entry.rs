//! What is known of one download.

use vstd::prelude::*;

verus! {

/// Where a download stands.
#[derive(Debug, Clone, Copy, PartialEq, Eq, Structural)]
pub enum Status {
    Run,
    Stop,
    Done,
}

impl Status {
    /// The status as a word.
    pub fn as_str(self) -> (r: &'static str)
        ensures
            r@ == (match self {
                Status::Run => "run"@,
                Status::Stop => "stop"@,
                Status::Done => "done"@,
            }),
    {
        match self {
            Status::Run => "run",
            Status::Stop => "stop",
            Status::Done => "done",
        }
    }
}

/// What is known of one download.
#[derive(Debug, Clone)]
pub struct DownloadEntry {
    pub name: String,
    pub percent: String,
    pub size: String,
    pub speed: String,
    pub eta: String,
    pub total_duration: String,
    pub timestamp: String,
    pub status: Status,
    pub completed: bool,
}

/// What a [`DownloadEntry`] stands for.
pub struct EntryModel {
    pub name: Seq<char>,
    pub percent: Seq<char>,
    pub size: Seq<char>,
    pub speed: Seq<char>,
    pub eta: Seq<char>,
    pub total_duration: Seq<char>,
    pub timestamp: Seq<char>,
    pub status: Status,
    pub completed: bool,
}

impl View for DownloadEntry {
    type V = EntryModel;

    open spec fn view(&self) -> EntryModel {
        EntryModel {
            name: self.name@,
            percent: self.percent@,
            size: self.size@,
            speed: self.speed@,
            eta: self.eta@,
            total_duration: self.total_duration@,
            timestamp: self.timestamp@,
            status: self.status,
            completed: self.completed,
        }
    }
}

} // verus!
