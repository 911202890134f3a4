//! The batched core-to-shell event channel: events collected during one
//! command are delivered to the sink as a single batch.
use vstd::prelude::*;

use crate::engine::AudioState;
use crate::settings::Settings;
use crate::tabs::{TabId, TabState, WindowId};

verus! {

#[derive(Debug, Clone)]
pub enum Event {
    TabCreated { tab: TabId, window: WindowId, index: u32 },
    TabClosed { tab: TabId, window: WindowId },
    WindowClosed { window: WindowId },
    TabStateChanged { tab: TabId, state: TabState },
    TabMetaChanged { tab: TabId, url: Option<String>, title: Option<String> },
    TabAudioChanged { tab: TabId, audio_state: AudioState },
    NavigationBlocked { tab: TabId, url: String, reason: String },
    ShieldStatsChanged { tab: TabId, ads_blocked: u32, trackers_blocked: u32, enabled: bool },
    DownloadUpdated { download_id: String, state: String, received_bytes: u64, total_bytes: Option<u64> },
    SettingsChanged { settings: Settings },
    FilterListsUpdated { lists: Vec<String> },
    SessionSnapshotWritten { snapshot_id: i64 },
}

/// Receives batched events; implemented by the shell bindings and test doubles.
pub trait EventSink {
    fn on_events(&self, events: Vec<Event>);
}

/// Collects events during one command and flushes them as one batch.
pub struct Dispatcher<S> {
    sink: Box<S>,
    queue: Vec<Event>,
    /// The batches handed to the sink so far.
    delivered: Ghost<Seq<Seq<Event>>>,
}

impl<S: EventSink> Dispatcher<S> {
    /// The events waiting for the next flush.
    pub closed spec fn queued(&self) -> Seq<Event> {
        self.queue@
    }

    /// The batches delivered so far, oldest first.
    pub closed spec fn batches(&self) -> Seq<Seq<Event>> {
        self.delivered@
    }

    /// A dispatcher with nothing queued or delivered.
    pub fn new(sink: Box<S>) -> (r: Self)
        ensures
            r.queued() == Seq::<Event>::empty(),
            r.batches() == Seq::<Seq<Event>>::empty(),
    {
        Dispatcher { sink, queue: Vec::new(), delivered: Ghost(Seq::empty()) }
    }

    /// Queue `event` for the next flush.
    pub fn emit(&mut self, event: Event)
        ensures
            final(self).queued() == old(self).queued().push(event),
            final(self).batches() == old(self).batches(),
    {
        self.queue.push(event);
    }

    /// Deliver the queued events as one batch; an empty queue delivers nothing.
    pub fn flush(&mut self)
        ensures
            final(self).queued() == Seq::<Event>::empty(),
            final(self).batches() == if old(self).queued().len() > 0 {
                old(self).batches().push(old(self).queued())
            } else {
                old(self).batches()
            },
    {
        let mut batch: Vec<Event> = Vec::new();
        std::mem::swap(&mut batch, &mut self.queue);
        if batch.len() > 0 {
            proof {
                self.delivered = Ghost(self.delivered@.push(batch@));
            }
            self.sink.on_events(batch);
        }
    }
}

} // verus!
