use ssl_proxy_manager::i18n::{set_locale, LocaleSetting};
use ssl_proxy_manager::tray::{
    initial_menu, menu_action, set_tray_proxy_state, tray_click_action, update_tray_menu_texts,
    MenuAction, MenuEntry, WindowAction,
};

fn english() -> LocaleSetting {
    let mut setting = LocaleSetting::new();
    set_locale(&mut setting, "en-US".to_string());
    setting
}

#[test]
fn running_proxy_offers_stop_and_restart() {
    let state = set_tray_proxy_state(&english(), true);
    assert_eq!(state.status_text, "Status: Running");
    assert_eq!(state.toggle_text, "Stop Proxy");
    assert!(state.restart_enabled);
}

#[test]
fn stopped_proxy_offers_start_only() {
    let state = set_tray_proxy_state(&LocaleSetting::new(), false);
    assert_eq!(state.status_text, "状态：已停止");
    assert_eq!(state.toggle_text, "启动代理");
    assert!(!state.restart_enabled);
}

#[test]
fn menu_texts_follow_language_and_state() {
    let texts = update_tray_menu_texts(&english(), false);
    assert_eq!(texts.show, "Show Window");
    assert_eq!(texts.hide, "Hide Window");
    assert_eq!(texts.restart, "Restart Proxy");
    assert_eq!(texts.quit, "Quit");
    assert_eq!(texts.status, "Status: Stopped");
    assert_eq!(texts.toggle, "Start Proxy");
    let running = update_tray_menu_texts(&english(), true);
    assert_eq!(running.status, "Status: Running");
    assert_eq!(running.toggle, "Stop Proxy");
}

#[test]
fn menu_items_map_to_actions() {
    assert_eq!(menu_action("status", true), MenuAction::Nothing);
    assert_eq!(menu_action("show", false), MenuAction::ShowWindow);
    assert_eq!(menu_action("hide", false), MenuAction::HideWindow);
    assert_eq!(menu_action("toggle", true), MenuAction::StopServer);
    assert_eq!(menu_action("toggle", false), MenuAction::StartServer);
    assert_eq!(menu_action("restart", true), MenuAction::RestartServer);
    assert_eq!(menu_action("quit", true), MenuAction::RequestQuit);
    assert_eq!(menu_action("Quit", true), MenuAction::Nothing);
    assert_eq!(menu_action("", false), MenuAction::Nothing);
}

#[test]
fn double_click_toggles_the_window() {
    assert_eq!(tray_click_action(true, true), WindowAction::Hide);
    assert_eq!(tray_click_action(true, false), WindowAction::Show);
    assert_eq!(tray_click_action(false, true), WindowAction::Nothing);
    assert_eq!(tray_click_action(false, false), WindowAction::Nothing);
}

#[test]
fn initial_menu_has_nine_lines() {
    let menu = initial_menu(&english());
    assert_eq!(menu.len(), 9);
    let expected: [Option<(&str, &str, bool)>; 9] = [
        Some(("status", "Status: Stopped", false)),
        None,
        Some(("show", "Show Window", true)),
        Some(("hide", "Hide Window", true)),
        None,
        Some(("toggle", "Start Proxy", true)),
        Some(("restart", "Restart Proxy", false)),
        None,
        Some(("quit", "Quit", true)),
    ];
    for (entry, want) in menu.iter().zip(expected.iter()) {
        match (entry, want) {
            (MenuEntry::Separator, None) => {}
            (MenuEntry::Item { id, text, enabled }, Some((i, t, e))) => {
                assert_eq!(id, i);
                assert_eq!(text, t);
                assert_eq!(enabled, e);
            }
            _ => panic!("menu line of the wrong kind"),
        }
    }
}
