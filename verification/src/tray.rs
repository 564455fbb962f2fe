//! What the tray menu shows and what its events ask for. The menu itself
//! belongs to the desktop shell; these functions decide its contents.

use crate::i18n::{t, text_for, LocaleSetting, TrayText};
use crate::text::str_eq;
use vstd::prelude::*;

verus! {

/// The three menu properties that follow the proxy's running state.
pub struct TrayProxyState {
    pub status_text: &'static str,
    pub toggle_text: &'static str,
    pub restart_enabled: bool,
}

/// The text of every menu item that carries one.
pub struct TrayMenuTexts {
    pub show: &'static str,
    pub hide: &'static str,
    pub restart: &'static str,
    pub quit: &'static str,
    pub status: &'static str,
    pub toggle: &'static str,
}

/// What the shell is to do after a menu item was chosen.
#[derive(Debug, Clone, Copy, PartialEq, Eq, Structural)]
pub enum MenuAction {
    Nothing,
    ShowWindow,
    HideWindow,
    StartServer,
    StopServer,
    RestartServer,
    RequestQuit,
}

/// What the shell is to do with the main window after a click on the tray icon.
#[derive(Debug, Clone, Copy, PartialEq, Eq, Structural)]
pub enum WindowAction {
    Nothing,
    Show,
    Hide,
}

/// One line of the tray menu.
#[derive(Debug, Clone, Copy)]
pub enum MenuEntry {
    Separator,
    Item { id: &'static str, text: &'static str, enabled: bool },
}

/// The entry is the item `id` with the text of `key` in `locale`.
pub open spec fn is_item(
    entry: MenuEntry,
    id: Seq<char>,
    locale: Seq<char>,
    key: TrayText,
    enabled: bool,
) -> bool {
    entry matches MenuEntry::Item { id: i, text, enabled: e } && i@ == id && text@ == text_for(
        locale,
        key,
    ) && e == enabled
}

/// The text of the status line.
pub open spec fn status_key(running: bool) -> TrayText {
    if running {
        TrayText::StatusRunning
    } else {
        TrayText::StatusStopped
    }
}

/// The text of the item that starts or stops the proxy.
pub open spec fn toggle_key(running: bool) -> TrayText {
    if running {
        TrayText::ToggleStop
    } else {
        TrayText::ToggleStart
    }
}

/// Status line, toggle label and whether "restart" can be chosen, for a proxy
/// that is running or stopped: a running proxy offers "stop" and "restart".
pub fn set_tray_proxy_state(setting: &LocaleSetting, running: bool) -> (state: TrayProxyState)
    ensures
        state.status_text@ == text_for(setting.locale(), status_key(running)),
        state.toggle_text@ == text_for(setting.locale(), toggle_key(running)),
        state.restart_enabled == running,
{
    if running {
        TrayProxyState {
            status_text: t(setting, TrayText::StatusRunning),
            toggle_text: t(setting, TrayText::ToggleStop),
            restart_enabled: true,
        }
    } else {
        TrayProxyState {
            status_text: t(setting, TrayText::StatusStopped),
            toggle_text: t(setting, TrayText::ToggleStart),
            restart_enabled: false,
        }
    }
}

/// All menu texts in the current language; status and toggle follow `running`.
pub fn update_tray_menu_texts(setting: &LocaleSetting, running: bool) -> (texts: TrayMenuTexts)
    ensures
        texts.show@ == text_for(setting.locale(), TrayText::ShowWindow),
        texts.hide@ == text_for(setting.locale(), TrayText::HideWindow),
        texts.restart@ == text_for(setting.locale(), TrayText::RestartProxy),
        texts.quit@ == text_for(setting.locale(), TrayText::Quit),
        texts.status@ == text_for(setting.locale(), status_key(running)),
        texts.toggle@ == text_for(setting.locale(), toggle_key(running)),
{
    let show = t(setting, TrayText::ShowWindow);
    let hide = t(setting, TrayText::HideWindow);
    let restart = t(setting, TrayText::RestartProxy);
    let quit = t(setting, TrayText::Quit);
    if running {
        TrayMenuTexts {
            show,
            hide,
            restart,
            quit,
            status: t(setting, TrayText::StatusRunning),
            toggle: t(setting, TrayText::ToggleStop),
        }
    } else {
        TrayMenuTexts {
            show,
            hide,
            restart,
            quit,
            status: t(setting, TrayText::StatusStopped),
            toggle: t(setting, TrayText::ToggleStart),
        }
    }
}

/// The menu as it is built at the start, for a proxy that is stopped: the
/// status line, which cannot be chosen; "show" and "hide"; "start" and
/// "restart", the latter not to be chosen yet; and "quit".
pub fn initial_menu(setting: &LocaleSetting) -> (menu: Vec<MenuEntry>)
    ensures
        menu@.len() == 9,
        is_item(menu@[0], "status"@, setting.locale(), TrayText::StatusStopped, false),
        menu@[1] is Separator,
        is_item(menu@[2], "show"@, setting.locale(), TrayText::ShowWindow, true),
        is_item(menu@[3], "hide"@, setting.locale(), TrayText::HideWindow, true),
        menu@[4] is Separator,
        is_item(menu@[5], "toggle"@, setting.locale(), TrayText::ToggleStart, true),
        is_item(menu@[6], "restart"@, setting.locale(), TrayText::RestartProxy, false),
        menu@[7] is Separator,
        is_item(menu@[8], "quit"@, setting.locale(), TrayText::Quit, true),
{
    let mut menu: Vec<MenuEntry> = Vec::new();
    menu.push(MenuEntry::Item { id: "status", text: t(setting, TrayText::StatusStopped), enabled: false });
    menu.push(MenuEntry::Separator);
    menu.push(MenuEntry::Item { id: "show", text: t(setting, TrayText::ShowWindow), enabled: true });
    menu.push(MenuEntry::Item { id: "hide", text: t(setting, TrayText::HideWindow), enabled: true });
    menu.push(MenuEntry::Separator);
    menu.push(MenuEntry::Item { id: "toggle", text: t(setting, TrayText::ToggleStart), enabled: true });
    menu.push(
        MenuEntry::Item { id: "restart", text: t(setting, TrayText::RestartProxy), enabled: false },
    );
    menu.push(MenuEntry::Separator);
    menu.push(MenuEntry::Item { id: "quit", text: t(setting, TrayText::Quit), enabled: true });
    menu
}

/// The action that belongs to the menu item `id`.
pub open spec fn menu_action_of(id: Seq<char>, running: bool) -> MenuAction {
    if id == "show"@ {
        MenuAction::ShowWindow
    } else if id == "hide"@ {
        MenuAction::HideWindow
    } else if id == "toggle"@ {
        if running {
            MenuAction::StopServer
        } else {
            MenuAction::StartServer
        }
    } else if id == "restart"@ {
        MenuAction::RestartServer
    } else if id == "quit"@ {
        MenuAction::RequestQuit
    } else {
        MenuAction::Nothing
    }
}

/// Decides what a chosen menu item asks for. The status line and unknown
/// items ask for nothing; "toggle" stops a running proxy and starts a stopped one.
pub fn menu_action(id: &str, running: bool) -> (action: MenuAction)
    ensures
        action == menu_action_of(id@, running),
{
    if str_eq(id, "show") {
        MenuAction::ShowWindow
    } else if str_eq(id, "hide") {
        MenuAction::HideWindow
    } else if str_eq(id, "toggle") {
        if running {
            MenuAction::StopServer
        } else {
            MenuAction::StartServer
        }
    } else if str_eq(id, "restart") {
        MenuAction::RestartServer
    } else if str_eq(id, "quit") {
        MenuAction::RequestQuit
    } else {
        MenuAction::Nothing
    }
}

/// A double click with the left button hides a visible window and shows a
/// hidden one; any other click changes nothing.
pub fn tray_click_action(left_double_click: bool, window_visible: bool) -> (action: WindowAction)
    ensures
        action == if !left_double_click {
            WindowAction::Nothing
        } else if window_visible {
            WindowAction::Hide
        } else {
            WindowAction::Show
        },
{
    if !left_double_click {
        WindowAction::Nothing
    } else if window_visible {
        WindowAction::Hide
    } else {
        WindowAction::Show
    }
}

} // verus!
