//! The task bar: one button per open window, and what a click on one asks.
use vstd::prelude::*;

use crate::desktop::window::{open_windows, Action, AppKind, UiState, WindowView};

verus! {

/// The task bar's buttons for the windows `ws`: id, kind, and whether the
/// window is the active one.
pub open spec fn taskbar_spec(ws: Seq<WindowView>, active: Option<u64>) -> Seq<(u64, AppKind, bool)> {
    open_windows(ws).map_values(|w: WindowView| (w.id, w.kind, active == Some(w.id)))
}

/// The task bar's buttons, one per open window, in window order.
pub fn taskbar_items(ui: &UiState) -> (r: Vec<(u64, AppKind, bool)>)
    ensures
        r@ == taskbar_spec(ui.wins(), ui.active),
{
    let ghost ws = ui.wins();
    let mut r: Vec<(u64, AppKind, bool)> = Vec::new();
    let mut i: usize = 0;
    while i < ui.windows.len()
        invariant
            i <= ui.windows.len(),
            ws == ui.wins(),
            r@ == taskbar_spec(ws.take(i as int), ui.active),
        decreases ui.windows.len() - i,
    {
        assert(ws.take(i as int + 1).drop_last() =~= ws.take(i as int));
        if ui.windows[i].open {
            let id = ui.windows[i].id;
            let is_active = match ui.active {
                Some(a) => a == id,
                None => false,
            };
            r.push((id, ui.windows[i].kind, is_active));
            assert(r@ =~= taskbar_spec(ws.take(i as int + 1), ui.active));
        } else {
            assert(r@ =~= taskbar_spec(ws.take(i as int + 1), ui.active));
        }
        i = i + 1;
    }
    assert(ws.take(i as int) =~= ws);
    r
}

/// A click on the button of window `id`: the active window is minimised,
/// another one is activated.
pub fn taskbar_click(ui: &UiState, id: u64) -> (r: Action)
    ensures
        r == if ui.active == Some(id) {
            Action::ToggleMinimize(id)
        } else {
            Action::Activate(id)
        },
{
    match ui.active {
        Some(a) => if a == id {
            Action::ToggleMinimize(id)
        } else {
            Action::Activate(id)
        },
        None => Action::Activate(id),
    }
}

} // verus!
