use vstd::prelude::*;
use crate::ui::types::AppState;

verus! {

/// Whether the progress window shows: while a vault task runs.
pub fn loading_visible(state: AppState) -> (r: bool)
    ensures
        r == (state == AppState::Loading),
{
    state == AppState::Loading
}

} // verus!
