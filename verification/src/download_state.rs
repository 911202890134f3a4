use vstd::prelude::*;

verus! {

/// Download lifecycle states.
#[derive(Debug, Clone, Copy, PartialEq, Eq, Hash, Structural)]
pub enum DownloadState {
    Active,
    Paused,
    Completed,
    Interrupted,
    Cancelled,
}

/// The textual form stored in the downloads table.
pub open spec fn state_name(s: DownloadState) -> Seq<char> {
    match s {
        DownloadState::Active => "active"@,
        DownloadState::Paused => "paused"@,
        DownloadState::Completed => "completed"@,
        DownloadState::Interrupted => "interrupted"@,
        DownloadState::Cancelled => "cancelled"@,
    }
}

impl DownloadState {
    pub fn as_str(self) -> (r: &'static str)
        ensures
            r@ == state_name(self),
    {
        match self {
            DownloadState::Active => "active",
            DownloadState::Paused => "paused",
            DownloadState::Completed => "completed",
            DownloadState::Interrupted => "interrupted",
            DownloadState::Cancelled => "cancelled",
        }
    }
}

/// The terminal states: nothing follows them.
pub open spec fn terminal(s: DownloadState) -> bool {
    s == DownloadState::Completed || s == DownloadState::Cancelled
}

/// The transition matrix: `Active -> Paused|Completed|Interrupted|Cancelled`,
/// `Paused -> Active|Cancelled`, `Interrupted -> Active|Cancelled`.
pub open spec fn allowed(from: DownloadState, to: DownloadState) -> bool {
    match (from, to) {
        (DownloadState::Active, DownloadState::Paused) => true,
        (DownloadState::Active, DownloadState::Completed) => true,
        (DownloadState::Active, DownloadState::Interrupted) => true,
        (DownloadState::Active, DownloadState::Cancelled) => true,
        (DownloadState::Paused, DownloadState::Active) => true,
        (DownloadState::Paused, DownloadState::Cancelled) => true,
        (DownloadState::Interrupted, DownloadState::Active) => true,
        (DownloadState::Interrupted, DownloadState::Cancelled) => true,
        _ => false,
    }
}

/// The state a stored name denotes, if any.
pub open spec fn state_of_name(s: Seq<char>) -> Option<DownloadState> {
    if s == "active"@ {
        Some(DownloadState::Active)
    } else if s == "paused"@ {
        Some(DownloadState::Paused)
    } else if s == "completed"@ {
        Some(DownloadState::Completed)
    } else if s == "interrupted"@ {
        Some(DownloadState::Interrupted)
    } else if s == "cancelled"@ {
        Some(DownloadState::Cancelled)
    } else {
        None
    }
}

impl DownloadState {
    /// The state named `s`, `None` for an unknown name.
    pub fn parse(s: &str) -> (r: Option<DownloadState>)
        ensures
            r == state_of_name(s@),
    {
        if crate::text::same_text(s, "active") {
            Some(DownloadState::Active)
        } else if crate::text::same_text(s, "paused") {
            Some(DownloadState::Paused)
        } else if crate::text::same_text(s, "completed") {
            Some(DownloadState::Completed)
        } else if crate::text::same_text(s, "interrupted") {
            Some(DownloadState::Interrupted)
        } else if crate::text::same_text(s, "cancelled") {
            Some(DownloadState::Cancelled)
        } else {
            None
        }
    }

    /// Completed and cancelled downloads are final.
    pub fn is_terminal(self) -> (r: bool)
        ensures
            r == terminal(self),
    {
        match self {
            DownloadState::Completed | DownloadState::Cancelled => true,
            _ => false,
        }
    }

    /// Whether a download may move from `self` to `to`.
    pub fn can_transition(self, to: DownloadState) -> (r: bool)
        ensures
            r == allowed(self, to),
    {
        match (self, to) {
            (DownloadState::Active, DownloadState::Paused) => true,
            (DownloadState::Active, DownloadState::Completed) => true,
            (DownloadState::Active, DownloadState::Interrupted) => true,
            (DownloadState::Active, DownloadState::Cancelled) => true,
            (DownloadState::Paused, DownloadState::Active) => true,
            (DownloadState::Paused, DownloadState::Cancelled) => true,
            (DownloadState::Interrupted, DownloadState::Active) => true,
            (DownloadState::Interrupted, DownloadState::Cancelled) => true,
            _ => false,
        }
    }
}

/// Reading back the stored name of a state gives the state.
pub proof fn lemma_name_round_trip(s: DownloadState)
    ensures
        state_of_name(state_name(s)) == Some(s),
{
    reveal_strlit("active");
    reveal_strlit("paused");
    reveal_strlit("completed");
    reveal_strlit("interrupted");
    reveal_strlit("cancelled");
    assert("active"@[0] == 'a' && "paused"@[0] == 'p' && "interrupted"@[0] == 'i');
    assert("completed"@[1] == 'o' && "cancelled"@[1] == 'a');
    assert("paused"@ != "active"@);
    assert("completed"@ != "active"@ && "completed"@ != "paused"@);
    assert("interrupted"@ != "active"@ && "interrupted"@ != "paused"@ && "interrupted"@ != "completed"@);
    assert("cancelled"@ != "active"@ && "cancelled"@ != "paused"@ && "cancelled"@ != "completed"@
        && "cancelled"@ != "interrupted"@);
}

/// A terminal state accepts no transition, and every other state has one.
pub proof fn lemma_terminal_is_final(from: DownloadState, to: DownloadState)
    ensures
        terminal(from) ==> !allowed(from, to),
        !terminal(from) ==> allowed(from, DownloadState::Cancelled),
{
}

/// A download that stopped without finishing, paused by the user or
/// interrupted, may be resumed: every state that is neither terminal nor
/// already active may move to `Active`.
pub proof fn lemma_stopped_downloads_resume(s: DownloadState)
    ensures
        !terminal(s) && s != DownloadState::Active ==> allowed(s, DownloadState::Active),
{
}

} // verus!
