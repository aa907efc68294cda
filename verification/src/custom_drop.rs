//! What a native drop onto a Drop window delivers, and what becomes of it.
use vstd::prelude::*;

verus! {

/// Content other than files dropped onto a Drop.
#[derive(Debug, Clone)]
pub enum DropPayload {
    Text(String),
    Html(String),
}

/// What to do with a native drop.
#[derive(Debug)]
pub enum DropDecision {
    /// Files dragged out of another Drop landed here; the dragging side moves
    /// them once the drag has returned.
    InternalMove,
    /// Add these paths to the Drop.
    Files(Vec<String>),
    /// Hand this content to the Drop's window.
    Payload(DropPayload),
    /// The drop carried nothing the Drop can hold.
    Nothing,
}

/// Decides what a native drop delivers: a drag between Drops is left to the
/// dragging side; otherwise dropped paths win over HTML, and HTML over plain
/// text, each only when not empty.
pub fn decide_drop(internal_target_recorded: bool, files: Option<Vec<String>>, html: Option<String>, text: Option<String>) -> (decision: DropDecision)
    ensures
        internal_target_recorded ==> decision is InternalMove,
        !internal_target_recorded ==> match files {
            Some(f) if f@.len() > 0 => decision == DropDecision::Files(f),
            _ => match html {
                Some(h) if h@.len() > 0 => decision == DropDecision::Payload(DropPayload::Html(h)),
                _ => match text {
                    Some(t) if t@.len() > 0 => decision == DropDecision::Payload(DropPayload::Text(t)),
                    _ => decision is Nothing,
                },
            },
        },
{
    if internal_target_recorded {
        return DropDecision::InternalMove;
    }
    if let Some(paths) = files {
        if paths.len() > 0 {
            return DropDecision::Files(paths);
        }
    }
    if let Some(markup) = html {
        if !markup.as_str().is_empty() {
            return DropDecision::Payload(DropPayload::Html(markup));
        }
    }
    if let Some(plain) = text {
        if !plain.as_str().is_empty() {
            return DropDecision::Payload(DropPayload::Text(plain));
        }
    }
    DropDecision::Nothing
}

} // verus!
