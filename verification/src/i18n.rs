//! Menu texts in the two supported languages, and the current-language setting.

use crate::text::str_eq;
use vstd::prelude::*;
use vstd::string::*;

verus! {

/// A language tag such as `zh-CN` or `en-US`.
pub type Locale = String;

/// The texts shown in the tray menu.
#[derive(Debug, Clone, Copy, PartialEq, Eq, Hash, Structural)]
pub enum TrayText {
    StatusRunning,
    StatusStopped,
    ToggleStart,
    ToggleStop,
    ShowWindow,
    HideWindow,
    RestartProxy,
    Quit,
    Tooltip,
}

/// The language setting of one running process. It starts as `zh-CN`.
pub struct LocaleSetting {
    current: Locale,
}

/// The Chinese text of `key`.
pub open spec fn zh_text(key: TrayText) -> Seq<char> {
    match key {
        TrayText::StatusRunning => "状态：运行中"@,
        TrayText::StatusStopped => "状态：已停止"@,
        TrayText::ToggleStart => "启动代理"@,
        TrayText::ToggleStop => "停止代理"@,
        TrayText::ShowWindow => "显示窗口"@,
        TrayText::HideWindow => "隐藏窗口"@,
        TrayText::RestartProxy => "重启代理"@,
        TrayText::Quit => "退出"@,
        TrayText::Tooltip => "SSL 代理管理工具"@,
    }
}

/// The English text of `key`.
pub open spec fn en_text(key: TrayText) -> Seq<char> {
    match key {
        TrayText::StatusRunning => "Status: Running"@,
        TrayText::StatusStopped => "Status: Stopped"@,
        TrayText::ToggleStart => "Start Proxy"@,
        TrayText::ToggleStop => "Stop Proxy"@,
        TrayText::ShowWindow => "Show Window"@,
        TrayText::HideWindow => "Hide Window"@,
        TrayText::RestartProxy => "Restart Proxy"@,
        TrayText::Quit => "Quit"@,
        TrayText::Tooltip => "SSL Proxy Manager"@,
    }
}

/// The text of `key` in `locale`: English for `en-US`, Chinese for `zh-CN`
/// and for every language without a table of its own.
pub open spec fn text_for(locale: Seq<char>, key: TrayText) -> Seq<char> {
    if locale == "en-US"@ {
        en_text(key)
    } else {
        zh_text(key)
    }
}

impl LocaleSetting {
    /// The language currently set.
    pub closed spec fn locale(&self) -> Seq<char> {
        self.current@
    }

    /// A setting that holds the default language, `zh-CN`.
    pub fn new() -> (setting: LocaleSetting)
        ensures
            setting.locale() == "zh-CN"@,
    {
        LocaleSetting { current: String::from_str("zh-CN") }
    }
}

/// Makes `locale` the current language.
pub fn set_locale(setting: &mut LocaleSetting, locale: Locale)
    ensures
        final(setting).locale() == locale@,
{
    setting.current = locale;
}

/// The current language.
pub fn get_locale(setting: &LocaleSetting) -> (locale: Locale)
    ensures
        locale@ == setting.locale(),
{
    setting.current.clone()
}

fn zh(key: TrayText) -> (text: &'static str)
    ensures
        text@ == zh_text(key),
{
    match key {
        TrayText::StatusRunning => "状态：运行中",
        TrayText::StatusStopped => "状态：已停止",
        TrayText::ToggleStart => "启动代理",
        TrayText::ToggleStop => "停止代理",
        TrayText::ShowWindow => "显示窗口",
        TrayText::HideWindow => "隐藏窗口",
        TrayText::RestartProxy => "重启代理",
        TrayText::Quit => "退出",
        TrayText::Tooltip => "SSL 代理管理工具",
    }
}

fn en(key: TrayText) -> (text: &'static str)
    ensures
        text@ == en_text(key),
{
    match key {
        TrayText::StatusRunning => "Status: Running",
        TrayText::StatusStopped => "Status: Stopped",
        TrayText::ToggleStart => "Start Proxy",
        TrayText::ToggleStop => "Stop Proxy",
        TrayText::ShowWindow => "Show Window",
        TrayText::HideWindow => "Hide Window",
        TrayText::RestartProxy => "Restart Proxy",
        TrayText::Quit => "Quit",
        TrayText::Tooltip => "SSL Proxy Manager",
    }
}

/// The text of `key` in the current language, falling back to Chinese where
/// the language has no table.
pub fn t(setting: &LocaleSetting, key: TrayText) -> (text: &'static str)
    ensures
        text@ == text_for(setting.locale(), key),
{
    if str_eq(setting.current.as_str(), "en-US") {
        en(key)
    } else {
        zh(key)
    }
}

} // verus!
