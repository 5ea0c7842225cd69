use crate::client::state::Event;
use crate::config::RefreshPeriod;
use crate::diagnosis_server_state::Chunk;
use crate::rpcs::DownloadParams;
use crate::time::Timestamp;
use vstd::prelude::*;

verus! {

/// The updater of a participant: it asks the diagnosis server for new chunks once in a
/// refresh period and hands them to the participant.
#[derive(Debug)]
pub struct Updater {
    pub(crate) refresh_period: RefreshPeriod,
    pub(crate) from: Timestamp,
}

impl Updater {
    /// The instant up to which the participant has everything.
    pub open(crate) spec fn since(self) -> Timestamp {
        self.from
    }

    /// How often the updater asks.
    pub open(crate) spec fn period(self) -> RefreshPeriod {
        self.refresh_period
    }

    /// An updater for a participant that has everything up to `from`.
    pub fn new(refresh_period: RefreshPeriod, from: Timestamp) -> (r: Self)
        ensures
            r.since() == from,
            r.period() == refresh_period,
    {
        Updater { refresh_period, from }
    }

    /// What to ask the diagnosis server.
    pub fn download_params(&self) -> (r: DownloadParams)
        ensures
            r.from == self.since(),
    {
        DownloadParams { from: self.from }
    }

    /// What to hand to the participant after a download: the chunks that came, if any
    /// came; nothing where the download failed or brought nothing.
    pub fn run(&self, downloaded: Option<Vec<Chunk>>) -> (r: Option<Event>)
        ensures
            match downloaded {
                Some(updates) if updates@.len() > 0 => r matches Some(
                    Event::NewChunks { last_from, chunks },
                ) && last_from == self.since() && chunks == updates,
                _ => r is None,
            },
    {
        match downloaded {
            Some(updates) => {
                if updates.len() == 0 {
                    None
                } else {
                    Some(Event::NewChunks { last_from: self.from, chunks: updates })
                }
            },
            None => None,
        }
    }

    /// Takes note of the participant's answer: it now has everything up to `next_from`.
    pub fn acknowledge(&mut self, next_from: Timestamp)
        ensures
            final(self).since() == next_from,
            final(self).period() == old(self).period(),
    {
        self.from = next_from;
    }

    /// How often the updater asks.
    pub fn refresh_period(&self) -> (r: RefreshPeriod)
        ensures
            r == self.period(),
    {
        self.refresh_period
    }
}

} // verus!
