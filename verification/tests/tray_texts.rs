use ssl_proxy_manager::i18n::{get_locale, set_locale, t, LocaleSetting, TrayText};

#[test]
fn default_locale_is_chinese() {
    let setting = LocaleSetting::new();
    assert_eq!(get_locale(&setting), "zh-CN");
    assert_eq!(t(&setting, TrayText::Quit), "退出");
}

#[test]
fn english_texts_after_switch() {
    let mut setting = LocaleSetting::new();
    set_locale(&mut setting, "en-US".to_string());
    assert_eq!(t(&setting, TrayText::StatusRunning), "Status: Running");
    assert_eq!(t(&setting, TrayText::Tooltip), "SSL Proxy Manager");
}

#[test]
fn unknown_locale_falls_back_to_chinese() {
    let mut setting = LocaleSetting::new();
    set_locale(&mut setting, "fr-FR".to_string());
    assert_eq!(t(&setting, TrayText::ToggleStart), "启动代理");
}

#[test]
fn every_key_has_both_languages() {
    let keys = [
        (TrayText::StatusRunning, "状态：运行中", "Status: Running"),
        (TrayText::StatusStopped, "状态：已停止", "Status: Stopped"),
        (TrayText::ToggleStart, "启动代理", "Start Proxy"),
        (TrayText::ToggleStop, "停止代理", "Stop Proxy"),
        (TrayText::ShowWindow, "显示窗口", "Show Window"),
        (TrayText::HideWindow, "隐藏窗口", "Hide Window"),
        (TrayText::RestartProxy, "重启代理", "Restart Proxy"),
        (TrayText::Quit, "退出", "Quit"),
        (TrayText::Tooltip, "SSL 代理管理工具", "SSL Proxy Manager"),
    ];
    let zh = LocaleSetting::new();
    let mut en = LocaleSetting::new();
    set_locale(&mut en, "en-US".to_string());
    for (key, zh_text, en_text) in keys {
        assert_eq!(t(&zh, key), zh_text);
        assert_eq!(t(&en, key), en_text);
    }
}

#[test]
fn locale_is_compared_exactly() {
    let mut setting = LocaleSetting::new();
    set_locale(&mut setting, "en-us".to_string());
    assert_eq!(get_locale(&setting), "en-us");
    assert_eq!(t(&setting, TrayText::Quit), "退出");
}
