//! Properties of the viewer's transitions that hold in every state.
use vstd::prelude::*;
use crate::entry::CodesModel;
use crate::viewer::{step, Message, ViewerModel};

verus! {

/// The state after `k` times the intent `m`.
pub open spec fn repeat(s: ViewerModel, m: Message, k: nat) -> ViewerModel
    decreases k,
{
    if k == 0 {
        s
    } else {
        step(repeat(s, m, (k - 1) as nat), m)
    }
}

/// Every intent keeps the position within the entries and keeps their number: in
/// particular an advance never moves past the last entry and a retreat never before
/// the first.
pub proof fn lemma_step_in_bounds(s: ViewerModel, m: Message)
    requires
        s.valid(),
    ensures
        step(s, m).valid(),
        step(s, m).data.len() == s.data.len(),
        0 <= step(s, Message::NextRow).idx < s.data.len(),
        0 <= step(s, Message::PrevRow).idx < s.data.len(),
{
}

/// Advancing from the last entry, any number of times, stays there; so does retreating
/// from the first.
pub proof fn lemma_clamped_at_ends(s: ViewerModel, k: nat)
    requires
        s.valid(),
    ensures
        s.idx == s.data.len() - 1 ==> repeat(s, Message::NextRow, k) == s,
        s.idx == 0 ==> repeat(s, Message::PrevRow, k) == s,
    decreases k,
{
    if k > 0 {
        lemma_clamped_at_ends(s, (k - 1) as nat);
    }
}

/// Toggling the flag twice restores the state once the flag is set; toggling an absent
/// flag sets it to `true`.
pub proof fn lemma_toggle_twice(s: ViewerModel)
    requires
        s.valid(),
    ensures
        s.curr().matches is Some ==> step(step(s, Message::ToggleMatches), Message::ToggleMatches) == s,
        s.curr().matches is None ==> step(s, Message::ToggleMatches).curr().matches == Some(true),
{
    let once = step(s, Message::ToggleMatches);
    let twice = step(once, Message::ToggleMatches);
    if s.curr().matches is Some {
        assert(twice.data =~= s.data);
    }
}

/// Putting a tag that the current entry lacks and then taking it out again restores
/// the state.
pub proof fn lemma_code_on_then_off(s: ViewerModel, tag: String)
    requires
        s.valid(),
        s.curr().codes matches CodesModel::Tags(t) && !t.contains(tag@),
    ensures
        step(step(s, Message::CodeToggle(tag, true)), Message::CodeToggle(tag, false)) == s,
{
    let t = s.curr().codes->Tags_0;
    assert(t.insert(tag@).remove(tag@) =~= t);
    let twice = step(step(s, Message::CodeToggle(tag, true)), Message::CodeToggle(tag, false));
    assert(twice.data =~= s.data);
}

} // verus!
