//! The drag of files from one Drop to another: a session begins when files
//! leave a Drop, records the Drop they land on, and is finished by the token
//! it was begun with.
use vstd::prelude::*;

verus! {

/// A drag of files out of a Drop.
#[derive(Debug, Clone, PartialEq, Eq)]
pub struct InternalDragSession {
    pub token: u64,
    pub source_drop_id: String,
    pub source_file_ids: Vec<u64>,
    pub target_drop_id: Option<String>,
}

/// The mathematical value of a session.
pub struct SessionView {
    pub token: u64,
    pub source_drop_id: Seq<char>,
    pub source_file_ids: Seq<u64>,
    pub target_drop_id: Option<Seq<char>>,
}

impl View for InternalDragSession {
    type V = SessionView;

    open spec fn view(&self) -> SessionView {
        SessionView {
            token: self.token,
            source_drop_id: self.source_drop_id@,
            source_file_ids: self.source_file_ids@,
            target_drop_id: match self.target_drop_id {
                Some(t) => Some(t@),
                None => None,
            },
        }
    }
}

/// The mathematical value of the drag state: the last token handed out and
/// the session in progress, if any.
pub struct DragStateView {
    pub next_token: u64,
    pub active: Option<SessionView>,
}

/// The token that follows `token`: one more, skipping 0 when it wraps.
pub open spec fn following_token(token: u64) -> u64 {
    if token == u64::MAX {
        1
    } else {
        (token + 1) as u64
    }
}

/// The state after a session begins: it replaces any session in progress.
pub open spec fn began(v: DragStateView, source: Seq<char>, ids: Seq<u64>) -> DragStateView {
    let token = following_token(v.next_token);
    DragStateView {
        next_token: token,
        active: Some(
            SessionView { token, source_drop_id: source, source_file_ids: ids, target_drop_id: None },
        ),
    }
}

/// The state after the Drop `target` is recorded as where the drag landed.
pub open spec fn recorded(v: DragStateView, target: Seq<char>) -> DragStateView {
    match v.active {
        Some(s) => DragStateView {
            active: Some(SessionView { target_drop_id: Some(target), ..s }),
            ..v
        },
        None => v,
    }
}

/// The session that finishing with `token` hands back: the one in progress
/// when it was begun with that token.
pub open spec fn finished_session(v: DragStateView, token: u64) -> Option<SessionView> {
    match v.active {
        Some(s) => if s.token == token {
            Some(s)
        } else {
            None
        },
        None => None,
    }
}

/// The state after finishing with `token`.
pub open spec fn finished(v: DragStateView, token: u64) -> DragStateView {
    if finished_session(v, token) is Some {
        DragStateView { active: None, ..v }
    } else {
        v
    }
}

/// The drag between Drops in progress, if any.
#[derive(Debug)]
pub struct InternalDragState {
    next_token: u64,
    active: Option<InternalDragSession>,
}

impl Default for InternalDragState {
    fn default() -> (state: Self)
        ensures
            state@ == (DragStateView { next_token: 0, active: None }),
    {
        InternalDragState { next_token: 0, active: None }
    }
}

impl View for InternalDragState {
    type V = DragStateView;

    closed spec fn view(&self) -> DragStateView {
        DragStateView {
            next_token: self.next_token,
            active: match self.active {
                Some(s) => Some(s@),
                None => None,
            },
        }
    }
}

impl InternalDragState {
    /// Begins a drag of the listed files out of `source_drop_id` and returns
    /// its token, which is never 0.
    pub fn begin(&mut self, source_drop_id: String, source_file_ids: Vec<u64>) -> (token: u64)
        ensures
            final(self)@ == began(old(self)@, source_drop_id@, source_file_ids@),
            token == following_token(old(self)@.next_token),
            token != 0,
    {
        let token = if self.next_token == u64::MAX {
            1
        } else {
            self.next_token + 1
        };
        self.next_token = token;
        self.active = Some(
            InternalDragSession { token, source_drop_id, source_file_ids, target_drop_id: None },
        );
        token
    }

    /// Records the Drop the files landed on; false when no drag is in progress.
    pub fn record_target(&mut self, target_drop_id: &str) -> (recorded_target: bool)
        ensures
            recorded_target == old(self)@.active is Some,
            final(self)@ == recorded(old(self)@, target_drop_id@),
    {
        match self.active.take() {
            None => false,
            Some(session) => {
                let target = target_drop_id.to_owned();
                self.active = Some(InternalDragSession { target_drop_id: Some(target), ..session });
                true
            },
        }
    }

    /// Ends the drag begun with `token` and hands back its session; a token of
    /// an earlier drag leaves the drag in progress alone.
    pub fn finish(&mut self, token: u64) -> (session: Option<InternalDragSession>)
        ensures
            final(self)@ == finished(old(self)@, token),
            match session {
                Some(s) => finished_session(old(self)@, token) == Some(s@),
                None => finished_session(old(self)@, token) is None,
            },
    {
        let matches_token = match &self.active {
            Some(session) => session.token == token,
            None => false,
        };
        if matches_token {
            self.active.take()
        } else {
            None
        }
    }
}

/// A drag begun, given a target and finished with its own token hands back
/// its source, its files and that target, and leaves no drag in progress.
pub proof fn lemma_finish_returns_recorded_session(
    state: DragStateView,
    source: Seq<char>,
    ids: Seq<u64>,
    target: Seq<char>,
)
    ensures
        ({
            let started = began(state, source, ids);
            let token = started.next_token;
            let landed = recorded(started, target);
            &&& finished_session(landed, token) == Some(
                SessionView {
                    token,
                    source_drop_id: source,
                    source_file_ids: ids,
                    target_drop_id: Some(target),
                },
            )
            &&& finished(landed, token).active is None
        }),
{
}

/// Finishing with the token of a drag that a newer drag replaced hands back
/// nothing and leaves the newer drag in progress.
pub proof fn lemma_stale_token_keeps_newer_drag(
    state: DragStateView,
    first_source: Seq<char>,
    first_ids: Seq<u64>,
    second_source: Seq<char>,
    second_ids: Seq<u64>,
)
    ensures
        ({
            let first = began(state, first_source, first_ids);
            let second = began(first, second_source, second_ids);
            &&& finished_session(second, first.next_token) is None
            &&& finished(second, first.next_token) == second
        }),
{
}

/// Once a drag is finished, no target can be recorded until the next one
/// begins.
pub proof fn lemma_no_target_after_finish(state: DragStateView, token: u64, target: Seq<char>)
    requires
        finished_session(state, token) is Some,
    ensures
        finished(state, token).active is None,
        recorded(finished(state, token), target) == finished(state, token),
{
}

} // verus!
