//! The decisions behind hover documentation under the mouse: when to start
//! or drop the debounce timer, when a request is worth sending, and what to
//! do with the popup when the answers arrive.
use vstd::prelude::*;

verus! {

/// The identifier of the mouse hover popup among the editor's layers.
pub const MOUSE_HOVER_ID: &'static str = "mouse-hover";

/// A hover request waiting for its debounce timer.
#[derive(Debug, Clone, Copy, PartialEq, Eq, Structural)]
pub struct PendingHover {
    pub view_id: usize,
    pub char_pos: usize,
}

/// What the editor reports about the mouse.
#[derive(Debug, Clone, Copy, PartialEq, Eq, Structural)]
pub enum MouseHoverEvent {
    /// The mouse rests over a character of a view; wait `delay_ms` first.
    Moved { view_id: usize, char_pos: usize, delay_ms: u64 },
    /// The hover should go away.
    Cancel,
    /// A request finished; `open` tells whether a popup was shown.
    RequestComplete { open: bool },
}

/// What the handler asks of the editor for one event.
#[derive(Debug, Clone, Copy, PartialEq, Eq, Structural)]
pub struct HoverStep {
    /// (Re)start the debounce timer with this delay.
    pub timeout_ms: Option<u64>,
    /// Cancel the request in flight.
    pub cancel_requests: bool,
    /// Close the hover popup.
    pub close_popup: bool,
}

/// The mouse hover handler: the request that waits for its timer.
#[derive(Debug)]
pub struct MouseHoverHandler {
    pending: Option<PendingHover>,
}

impl View for MouseHoverHandler {
    type V = Option<PendingHover>;

    closed spec fn view(&self) -> Option<PendingHover> {
        self.pending
    }
}

/// The step for an event and the request waiting after it.
pub open spec fn hover_step(pending: Option<PendingHover>, event: MouseHoverEvent) -> (HoverStep, Option<PendingHover>) {
    match event {
        MouseHoverEvent::Moved { view_id, char_pos, delay_ms } => {
            if pending == Some(PendingHover { view_id, char_pos }) {
                (HoverStep { timeout_ms: None, cancel_requests: false, close_popup: false }, pending)
            } else {
                (
                    HoverStep { timeout_ms: Some(delay_ms), cancel_requests: true, close_popup: false },
                    Some(PendingHover { view_id, char_pos }),
                )
            }
        },
        MouseHoverEvent::Cancel => (
            HoverStep { timeout_ms: None, cancel_requests: true, close_popup: true },
            None,
        ),
        MouseHoverEvent::RequestComplete { open } => (
            HoverStep { timeout_ms: None, cancel_requests: true, close_popup: false },
            pending,
        ),
    }
}

impl MouseHoverHandler {
    /// A handler with nothing waiting.
    pub fn new() -> (r: Self)
        ensures
            r@ is None,
    {
        MouseHoverHandler { pending: None }
    }

    /// Handles an event: a move to a new place restarts the timer and drops
    /// the request in flight; a move to the same place changes nothing; a
    /// cancel forgets the waiting request and closes the popup.
    pub fn handle_event(&mut self, event: MouseHoverEvent) -> (r: HoverStep)
        ensures
            (r, final(self)@) == hover_step(old(self)@, event),
    {
        match event {
            MouseHoverEvent::Moved { view_id, char_pos, delay_ms } => {
                let same = match self.pending {
                    Some(p) => p.view_id == view_id && p.char_pos == char_pos,
                    None => false,
                };
                if same {
                    HoverStep { timeout_ms: None, cancel_requests: false, close_popup: false }
                } else {
                    self.pending = Some(PendingHover { view_id, char_pos });
                    HoverStep { timeout_ms: Some(delay_ms), cancel_requests: true, close_popup: false }
                }
            },
            MouseHoverEvent::Cancel => {
                self.pending = None;
                HoverStep { timeout_ms: None, cancel_requests: true, close_popup: true }
            },
            MouseHoverEvent::RequestComplete { open: _ } => {
                HoverStep { timeout_ms: None, cancel_requests: true, close_popup: false }
            },
        }
    }

    /// The timer ran out: the waiting request, if any, is sent and forgotten.
    pub fn finish_debounce(&mut self) -> (r: Option<PendingHover>)
        ensures
            r == old(self)@,
            final(self)@ is None,
    {
        let p = self.pending;
        self.pending = None;
        p
    }
}

/// A hover request is sent only when hovering is enabled, some language
/// server of the document answers hovers, and the position is in the text.
pub fn should_request_hover(enabled: bool, hover_servers: usize, char_pos: usize, len_chars: usize) -> (r: bool)
    ensures
        r == (enabled && hover_servers > 0 && char_pos < len_chars),
{
    enabled && hover_servers > 0 && char_pos < len_chars
}

/// What to do with the popup when the answers arrive.
#[derive(Debug, Clone, Copy, PartialEq, Eq, Structural)]
pub enum HoverPopupAction {
    /// Leave the screen as it is.
    Nothing,
    /// Remove the hover popup.
    Remove,
    /// Show the answers, in place of any earlier hover popup.
    Show,
}

/// No answer removes an unfocused hover popup; answers replace any hover
/// popup the user is not working in. `existing` tells whether a hover popup
/// is open and, if so, whether it has the focus.
pub fn hover_popup_action(no_answers: bool, existing: Option<bool>) -> (r: HoverPopupAction)
    ensures
        r == if no_answers {
            if existing == Some(false) { HoverPopupAction::Remove } else { HoverPopupAction::Nothing }
        } else if existing == Some(true) {
            HoverPopupAction::Nothing
        } else {
            HoverPopupAction::Show
        },
{
    if no_answers {
        match existing {
            Some(false) => HoverPopupAction::Remove,
            _ => HoverPopupAction::Nothing,
        }
    } else {
        match existing {
            Some(true) => HoverPopupAction::Nothing,
            _ => HoverPopupAction::Show,
        }
    }
}

/// A second move to the same place neither restarts the timer nor drops the
/// request in flight.
pub proof fn law_repeated_move_is_quiet(pending: Option<PendingHover>, view_id: usize, char_pos: usize, delay_ms: u64)
    ensures
        ({
            let ev = MouseHoverEvent::Moved { view_id, char_pos, delay_ms };
            let (_, after) = hover_step(pending, ev);
            let (step, again) = hover_step(after, ev);
            step.timeout_ms is None && !step.cancel_requests && again == after
        }),
{
}


/// The positions of the language servers asked for a hover: each server
/// once, at its first position in the document's list of hover servers.
pub fn hover_server_positions(server_ids: &Vec<u64>) -> (r: Vec<usize>)
    ensures
        forall|k: int| 0 <= k < r@.len() ==> #[trigger] r@[k] < server_ids@.len(),
        forall|k: int, l: int| 0 <= k < l < r@.len() ==> r@[k] < r@[l],
        forall|i: int|
            0 <= i < server_ids@.len() ==> (r@.contains(i as usize) <==> !server_ids@.take(i).contains(#[trigger] server_ids@[i])),
{
    let mut r: Vec<usize> = Vec::new();
    let mut i: usize = 0;
    while i < server_ids.len()
        invariant
            i <= server_ids@.len(),
            forall|k: int| 0 <= k < r@.len() ==> #[trigger] r@[k] < i,
            forall|k: int, l: int| 0 <= k < l < r@.len() ==> r@[k] < r@[l],
            forall|j: int|
                0 <= j < i ==> (r@.contains(j as usize) <==> !server_ids@.take(j).contains(#[trigger] server_ids@[j])),
        decreases server_ids.len() - i,
    {
        let mut seen = false;
        let mut j: usize = 0;
        while j < i
            invariant
                j <= i,
                i < server_ids@.len(),
                seen == server_ids@.take(j as int).contains(server_ids@[i as int]),
            decreases i - j,
        {
            let ghost x = server_ids@[i as int];
            let ghost next = server_ids@.take(j + 1);
            assert(next == server_ids@.take(j as int).push(server_ids@[j as int]));
            if server_ids[j] == server_ids[i] {
                seen = true;
                assert(next[j as int] == x);
            }
            proof {
                if next.contains(x) && server_ids@[j as int] != x {
                    let w = choose|w: int| 0 <= w < next.len() && next[w] == x;
                    assert(server_ids@.take(j as int)[w] == x);
                }
                if server_ids@.take(j as int).contains(x) {
                    let w = choose|w: int| 0 <= w < j && server_ids@.take(j as int)[w] == x;
                    assert(next[w] == x);
                }
            }
            j = j + 1;
        }
        let ghost before = r@;
        if !seen {
            r.push(i);
        }
        proof {
            assert forall|k: int| 0 <= k <= i implies (r@.contains(k as usize) <==> !server_ids@.take(k).contains(#[trigger] server_ids@[k])) by {
                if k < i {
                    if r@.contains(k as usize) {
                        let w = choose|w: int| 0 <= w < r@.len() && r@[w] == k as usize;
                        if w < before.len() {
                            assert(before[w] == k as usize);
                        }
                    }
                    if before.contains(k as usize) {
                        let w = choose|w: int| 0 <= w < before.len() && before[w] == k as usize;
                        assert(r@[w] == k as usize);
                    }
                } else {
                    if r@.contains(k as usize) && seen {
                        let w = choose|w: int| 0 <= w < r@.len() && r@[w] == k as usize;
                        assert(before[w] < i);
                    }
                    if !seen {
                        assert(r@[before.len() as int] == i);
                    }
                }
            }
        }
        i = i + 1;
    }
    r
}

} // verus!
