//! The desktop's icons and its right-click menu: what each one opens.
use vstd::prelude::*;

use crate::desktop::window::{Action, AppKind};

verus! {

/// The number of desktop icons.
pub const ICON_COUNT: usize = 4;

/// The number of entries of the desktop's right-click menu.
pub const MENU_ITEM_COUNT: usize = 9;

/// The desktop icons, in order: label and the application a double click
/// opens.
pub open spec fn icons_spec() -> Seq<(Seq<char>, AppKind)> {
    seq![
        ("全域节点"@, AppKind::Files),
        ("系统设置"@, AppKind::Settings),
        ("关于 HAAVK"@, AppKind::About),
        ("终端"@, AppKind::Terminal),
    ]
}

/// The entries of the desktop's right-click menu, in order: label and what
/// choosing it asks for (`刷新` only closes the menu).
pub open spec fn context_menu_spec() -> Seq<(Seq<char>, Action)> {
    seq![
        ("打开全域节点"@, Action::Open(AppKind::Files)),
        ("全域浏览器"@, Action::Open(AppKind::Browser)),
        ("应用中心"@, Action::Open(AppKind::AppCenter)),
        ("同频节点"@, Action::Open(AppKind::Nodes)),
        ("终端"@, Action::Open(AppKind::Terminal)),
        ("系统设置"@, Action::Open(AppKind::Settings)),
        ("关于 HAAVK"@, Action::Open(AppKind::About)),
        ("刷新"@, Action::NoAction),
        ("断开 HAAVK 环境"@, Action::Exit),
    ]
}

/// Desktop icon `i`.
pub fn desktop_icon(i: usize) -> (r: (&'static str, AppKind))
    requires
        i < ICON_COUNT,
    ensures
        r.0@ == icons_spec()[i as int].0,
        r.1 == icons_spec()[i as int].1,
{
    match i {
        0 => ("全域节点", AppKind::Files),
        1 => ("系统设置", AppKind::Settings),
        2 => ("关于 HAAVK", AppKind::About),
        _ => ("终端", AppKind::Terminal),
    }
}

/// Entry `i` of the desktop's right-click menu.
pub fn context_menu_item(i: usize) -> (r: (&'static str, Action))
    requires
        i < MENU_ITEM_COUNT,
    ensures
        r.0@ == context_menu_spec()[i as int].0,
        r.1 == context_menu_spec()[i as int].1,
{
    match i {
        0 => ("打开全域节点", Action::Open(AppKind::Files)),
        1 => ("全域浏览器", Action::Open(AppKind::Browser)),
        2 => ("应用中心", Action::Open(AppKind::AppCenter)),
        3 => ("同频节点", Action::Open(AppKind::Nodes)),
        4 => ("终端", Action::Open(AppKind::Terminal)),
        5 => ("系统设置", Action::Open(AppKind::Settings)),
        6 => ("关于 HAAVK", Action::Open(AppKind::About)),
        7 => ("刷新", Action::NoAction),
        _ => ("断开 HAAVK 环境", Action::Exit),
    }
}

} // verus!
