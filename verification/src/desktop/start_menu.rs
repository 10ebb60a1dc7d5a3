//! The start menu: its entries and the search that filters them.
use vstd::prelude::*;

use crate::desktop::window::AppKind;
use crate::text::{contains, has_infix, lowercase, to_lowercase};

verus! {

/// The number of entries in the start menu.
pub const MENU_LEN: usize = 7;

/// The start menu's entries, in order: label and application.
pub open spec fn menu_entries() -> Seq<(Seq<char>, AppKind)> {
    seq![
        ("全域节点"@, AppKind::Files),
        ("应用中心"@, AppKind::AppCenter),
        ("同频节点"@, AppKind::Nodes),
        ("全域浏览器"@, AppKind::Browser),
        ("系统设置"@, AppKind::Settings),
        ("关于 HAAVK"@, AppKind::About),
        ("终端"@, AppKind::Terminal),
    ]
}

/// An entry labelled `label` is listed for the search text `search`: the
/// search is empty, or occurs in the label, both taken in lower case.
pub open spec fn menu_matches(label: Seq<char>, search: Seq<char>) -> bool {
    search.len() == 0 || has_infix(lowercase(label), lowercase(search))
}

/// The applications of the first `n` entries that the search lists, in order.
pub open spec fn listed_kinds(n: nat, search: Seq<char>) -> Seq<AppKind>
    decreases n,
{
    if n == 0 {
        Seq::empty()
    } else {
        let r = listed_kinds((n - 1) as nat, search);
        let e = menu_entries()[n - 1];
        if menu_matches(e.0, search) {
            r.push(e.1)
        } else {
            r
        }
    }
}

/// Entry `i` of the start menu.
pub fn menu_entry(i: usize) -> (r: (&'static str, AppKind))
    requires
        i < MENU_LEN,
    ensures
        r.0@ == menu_entries()[i as int].0,
        r.1 == menu_entries()[i as int].1,
{
    match i {
        0 => ("全域节点", AppKind::Files),
        1 => ("应用中心", AppKind::AppCenter),
        2 => ("同频节点", AppKind::Nodes),
        3 => ("全域浏览器", AppKind::Browser),
        4 => ("系统设置", AppKind::Settings),
        5 => ("关于 HAAVK", AppKind::About),
        _ => ("终端", AppKind::Terminal),
    }
}

/// Whether the entry labelled `label` is listed for the search text `search`.
pub fn matches_search(label: &str, search: &str) -> (r: bool)
    ensures
        r == menu_matches(label@, search@),
{
    if search.is_empty() {
        return true;
    }
    let l = to_lowercase(label);
    let s = to_lowercase(search);
    contains(l.as_str(), s.as_str())
}

/// The applications that the start menu lists for the search text, in
/// menu order.
pub fn start_menu_items(search: &str) -> (r: Vec<AppKind>)
    ensures
        r@ == listed_kinds(MENU_LEN as nat, search@),
{
    let mut r: Vec<AppKind> = Vec::new();
    let mut i: usize = 0;
    while i < MENU_LEN
        invariant
            i <= MENU_LEN,
            r@ == listed_kinds(i as nat, search@),
        decreases MENU_LEN - i,
    {
        let (label, kind) = menu_entry(i);
        if matches_search(label, search) {
            r.push(kind);
        }
        i = i + 1;
    }
    r
}

} // verus!
