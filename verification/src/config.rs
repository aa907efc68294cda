//! The settings of the application and the rules that keep them in range.
use crate::text::str_equal;
use vstd::prelude::*;
use vstd::string::*;

verus! {

/// The lowest opacity, in percent, that a Drop may be shown with.
pub const MIN_DROP_OPACITY: u8 = 20;

pub const DEFAULT_LANGUAGE: &'static str = "en";

/// How large Drops are drawn.
#[derive(Debug, Clone, Copy, PartialEq, Eq, Structural)]
pub enum DropSize {
    Medium,
    Large,
    Small,
}

impl Default for DropSize {
    fn default() -> (size: Self)
        ensures
            size == DropSize::Small,
    {
        DropSize::Small
    }
}

/// The Drop size in force since the application started.
#[derive(Debug, Clone, Copy)]
pub struct RuntimeDropSize(pub DropSize);

/// How the mouse shake that opens a Drop is recognised.
#[derive(Debug, Clone)]
pub struct MouseMonitorConfig {
    /// How many changes of direction make a shake.
    pub required_shakes: u32,
    /// The longest pause between two changes of direction, in milliseconds.
    pub shake_time_limit: u64,
    /// How far, in pixels, the cursor must move between two samples to count.
    pub shake_threshold: i32,
    /// Processes in whose windows a shake opens no Drop.
    pub blacklist: Vec<String>,
}

/// The settings of the application.
#[derive(Debug, Clone)]
pub struct AppConfig {
    pub mouse_monitor: MouseMonitorConfig,
    pub autostart: bool,
    pub hotkey: String,
    /// The opacity of a Drop, in percent.
    pub drop_opacity: u8,
    pub language: String,
    pub drop_size: DropSize,
}

/// The opacity a Drop has unless configured otherwise.
pub fn default_drop_opacity() -> (opacity: u8)
    ensures
        opacity == 88,
{
    88
}

/// The language used unless configured otherwise.
pub fn default_language() -> (language: String)
    ensures
        language@ == DEFAULT_LANGUAGE@,
{
    String::from_str(DEFAULT_LANGUAGE)
}

/// `opacity` held within `MIN_DROP_OPACITY..=100`.
pub open spec fn clamped_opacity(opacity: u8) -> u8 {
    if opacity < MIN_DROP_OPACITY {
        MIN_DROP_OPACITY
    } else if opacity > 100 {
        100
    } else {
        opacity
    }
}

/// The opacity of a Drop held within `MIN_DROP_OPACITY..=100` percent.
pub fn clamp_drop_opacity(opacity: u8) -> (clamped: u8)
    ensures
        clamped == clamped_opacity(opacity),
{
    if opacity < MIN_DROP_OPACITY {
        MIN_DROP_OPACITY
    } else if opacity > 100 {
        100
    } else {
        opacity
    }
}

/// The alpha value, out of 255, that shows a window at `opacity` percent once
/// the opacity is held within range.
pub fn window_alpha(opacity: u8) -> (alpha: u8)
    ensures
        alpha == clamped_opacity(opacity) * 255 / 100,
        51 <= alpha <= 255,
{
    let clamped = clamp_drop_opacity(opacity) as u16;
    ((clamped * 255) / 100) as u8
}

/// The languages the interface is translated into.
pub open spec fn is_supported_language(language: Seq<char>) -> bool {
    language == "en"@ || language == "vi"@
}

/// Bringing settings into range twice changes nothing more than doing it once:
/// a held opacity stays, and English, the language unsupported ones become,
/// is supported.
pub proof fn lemma_normalize_is_idempotent(opacity: u8)
    ensures
        clamped_opacity(clamped_opacity(opacity)) == clamped_opacity(opacity),
        MIN_DROP_OPACITY <= clamped_opacity(opacity) <= 100,
        is_supported_language(DEFAULT_LANGUAGE@),
{
    reveal_strlit("en");
}

impl Default for AppConfig {
    /// The settings used before any have been saved: shakes of 5 changes of
    /// direction within 1.5 s over 100 pixels, no blacklist, no hotkey, no
    /// autostart, 88 % opacity, English and small Drops.
    fn default() -> (config: Self)
        ensures
            config.mouse_monitor.required_shakes == 5,
            config.mouse_monitor.shake_time_limit == 1500,
            config.mouse_monitor.shake_threshold == 100,
            config.mouse_monitor.blacklist@.len() == 0,
            !config.autostart,
            config.hotkey@.len() == 0,
            config.drop_opacity == 88,
            config.language@ == DEFAULT_LANGUAGE@,
            config.drop_size == DropSize::Small,
    {
        AppConfig {
            mouse_monitor: MouseMonitorConfig {
                required_shakes: 5,
                shake_time_limit: 1500,
                shake_threshold: 100,
                blacklist: Vec::new(),
            },
            autostart: false,
            hotkey: String::new(),
            drop_opacity: default_drop_opacity(),
            language: default_language(),
            drop_size: DropSize::Small,
        }
    }
}

impl AppConfig {
    /// Brings loaded settings back into range: the opacity is held within
    /// `MIN_DROP_OPACITY..=100` and an unsupported language becomes English.
    /// Everything else is kept.
    pub fn normalize(&mut self)
        ensures
            final(self).drop_opacity == clamped_opacity(old(self).drop_opacity),
            is_supported_language(old(self).language@) ==> final(self).language == old(self).language,
            !is_supported_language(old(self).language@) ==> final(self).language@ == DEFAULT_LANGUAGE@,
            final(self).mouse_monitor == old(self).mouse_monitor,
            final(self).autostart == old(self).autostart,
            final(self).hotkey == old(self).hotkey,
            final(self).drop_size == old(self).drop_size,
    {
        self.drop_opacity = clamp_drop_opacity(self.drop_opacity);
        let supported = str_equal(self.language.as_str(), "en") || str_equal(
            self.language.as_str(),
            "vi",
        );
        if !supported {
            self.language = default_language();
        }
    }
}

} // verus!
