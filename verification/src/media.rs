//! Media session state and audible-tab tracking: per-tab playback and mute,
//! and the audio state they amount to.
use vstd::prelude::*;

use crate::engine::AudioState;
use crate::keyed::KeyedVec;
use crate::tabs::{contains_id, distinct_ids};

verus! {

/// Playback and mute of one tab.
#[derive(Debug, Default, Clone, Copy, PartialEq, Eq, Structural)]
pub struct MediaSession {
    pub playing: bool,
    pub muted: bool,
}

/// The state of a tab never reported: silent and unmuted.
pub open spec fn quiet() -> MediaSession {
    MediaSession { playing: false, muted: false }
}

/// Muting wins over playback; playback makes a tab audible.
pub open spec fn effective_of(s: MediaSession) -> AudioState {
    if s.muted {
        AudioState::Muted
    } else if s.playing {
        AudioState::Audible
    } else {
        AudioState::Silent
    }
}

/// The session recorded for `id`, or the quiet one.
pub open spec fn session_in(m: Map<Seq<char>, MediaSession>, id: Seq<char>) -> MediaSession {
    if m.contains_key(id) {
        m[id]
    } else {
        quiet()
    }
}

/// The new state when it differs from the old one, else `None`.
pub open spec fn change(before: AudioState, after: AudioState) -> Option<AudioState> {
    if before != after {
        Some(after)
    } else {
        None
    }
}

impl MediaSession {
    /// The audio state this session amounts to.
    pub fn effective(self) -> (r: AudioState)
        ensures
            r == effective_of(self),
    {
        if self.muted {
            AudioState::Muted
        } else if self.playing {
            AudioState::Audible
        } else {
            AudioState::Silent
        }
    }
}

/// Per-tab media registry.
#[derive(Debug)]
pub struct MediaTracker {
    sessions: KeyedVec<MediaSession>,
}

impl View for MediaTracker {
    type V = Map<Seq<char>, MediaSession>;

    closed spec fn view(&self) -> Map<Seq<char>, MediaSession> {
        self.sessions@
    }
}

impl Default for MediaTracker {
    fn default() -> (r: Self)
        ensures
            r.wf(),
            r@ == Map::<Seq<char>, MediaSession>::empty(),
    {
        MediaTracker::new()
    }
}

impl MediaTracker {
    pub closed spec fn wf(&self) -> bool {
        self.sessions.wf()
    }

    /// A registry with no tabs.
    pub fn new() -> (r: Self)
        ensures
            r.wf(),
            r@ == Map::<Seq<char>, MediaSession>::empty(),
    {
        MediaTracker { sessions: KeyedVec::new() }
    }

    fn session(&self, tab_id: &str) -> (r: MediaSession)
        requires
            self.wf(),
        ensures
            r == session_in(self@, tab_id@),
    {
        match self.sessions.get(tab_id) {
            Some(s) => s,
            None => MediaSession { playing: false, muted: false },
        }
    }

    /// The engine reported playback starting or stopping. Returns the new
    /// audio state when it changed, `None` when it did not.
    pub fn set_playing(&mut self, tab_id: &str, playing: bool) -> (r: Option<AudioState>)
        requires
            old(self).wf(),
        ensures
            final(self).wf(),
            ({
                let before = session_in(old(self)@, tab_id@);
                let after = MediaSession { playing, ..before };
                &&& final(self)@ == old(self)@.insert(tab_id@, after)
                &&& r == change(effective_of(before), effective_of(after))
            }),
    {
        let before = self.session(tab_id);
        let after = MediaSession { playing, ..before };
        self.sessions.put(tab_id, after);
        let b = before.effective();
        let a = after.effective();
        if b != a {
            Some(a)
        } else {
            None
        }
    }

    /// The user muted or unmuted the tab. Same change report as `set_playing`.
    pub fn set_muted(&mut self, tab_id: &str, muted: bool) -> (r: Option<AudioState>)
        requires
            old(self).wf(),
        ensures
            final(self).wf(),
            ({
                let before = session_in(old(self)@, tab_id@);
                let after = MediaSession { muted, ..before };
                &&& final(self)@ == old(self)@.insert(tab_id@, after)
                &&& r == change(effective_of(before), effective_of(after))
            }),
    {
        let before = self.session(tab_id);
        let after = MediaSession { muted, ..before };
        self.sessions.put(tab_id, after);
        let b = before.effective();
        let a = after.effective();
        if b != a {
            Some(a)
        } else {
            None
        }
    }

    /// The audio state of a tab (silent for one never reported).
    pub fn state(&self, tab_id: &str) -> (r: AudioState)
        requires
            self.wf(),
        ensures
            r == effective_of(session_in(self@, tab_id@)),
    {
        self.session(tab_id).effective()
    }

    /// Forget a closed tab.
    pub fn drop_tab(&mut self, tab_id: &str)
        requires
            old(self).wf(),
        ensures
            final(self).wf(),
            final(self)@ == old(self)@.remove(tab_id@),
    {
        self.sessions.remove(tab_id);
    }

    /// The tabs currently audible, each once.
    pub fn audible_tabs(&self) -> (r: Vec<String>)
        requires
            self.wf(),
        ensures
            distinct_ids(r@),
            forall|k: Seq<char>| contains_id(r@, k) <==> (self@.contains_key(k) && effective_of(self@[k]) == AudioState::Audible),
    {
        let test = |s: MediaSession| -> (b: bool)
            ensures
                b == (effective_of(s) == AudioState::Audible),
            { !s.muted && s.playing };
        self.sessions.keys_where(Ghost(|s: MediaSession| effective_of(s) == AudioState::Audible), test)
    }
}

/// Muting a tab makes it muted whatever its playback; unmuting brings back
/// exactly what playback says; reporting the same playback twice changes
/// nothing the second time; a dropped tab reads as silent.
pub proof fn lemma_media_laws(m: Map<Seq<char>, MediaSession>, id: Seq<char>, playing: bool)
    ensures
        effective_of(MediaSession { muted: true, ..session_in(m, id) }) == AudioState::Muted,
        effective_of(MediaSession { muted: false, ..session_in(m, id) }) == if session_in(m, id).playing {
            AudioState::Audible
        } else {
            AudioState::Silent
        },
        ({
            let once = m.insert(id, MediaSession { playing, ..session_in(m, id) });
            let s1 = session_in(once, id);
            change(effective_of(s1), effective_of(MediaSession { playing, ..s1 })) is None
        }),
        effective_of(session_in(m.remove(id), id)) == AudioState::Silent,
{
}

} // verus!
