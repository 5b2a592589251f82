use vstd::prelude::*;

verus! {

/// The operating system, as far as the window shortcuts care.
#[derive(Clone, Copy, Debug, PartialEq, Eq, Structural)]
pub enum Platform {
    MacOs,
    Windows,
    Other,
}

/// How the window is shown.
#[derive(Clone, Copy, Debug, PartialEq, Eq, Structural)]
pub enum DisplayMode {
    Windowed,
    BorderlessFullscreen,
    SizedFullscreen,
    Fullscreen,
}

/// The keys that the window shortcuts read in one frame.
#[derive(Clone, Copy, Debug, PartialEq, Eq, Structural)]
pub struct ShortcutKeys {
    /// The left platform key (Command on macOS) is held.
    pub super_held: bool,
    /// The left Control key is held.
    pub control_held: bool,
    pub w_just_pressed: bool,
    pub f_just_pressed: bool,
    pub f11_just_pressed: bool,
}

/// What the window layer should do after this frame's shortcuts.
#[derive(Clone, Copy, Debug, PartialEq, Eq, Structural)]
pub struct WindowCommand {
    /// Quit the application.
    pub exit: bool,
    /// The display mode to switch to (the current one if unchanged).
    pub mode: DisplayMode,
}

/// Windowed and borderless fullscreen swap; other modes stay.
pub open spec fn toggled(m: DisplayMode) -> DisplayMode {
    match m {
        DisplayMode::Windowed => DisplayMode::BorderlessFullscreen,
        DisplayMode::BorderlessFullscreen => DisplayMode::Windowed,
        _ => m,
    }
}

/// On macOS, Command+W quits (and leaves fullscreen first), and
/// Command+Control+F toggles fullscreen. On Windows, F11 toggles
/// fullscreen. Elsewhere there are no shortcuts.
pub open spec fn shortcut_command(os: Platform, k: ShortcutKeys, m: DisplayMode) -> WindowCommand {
    match os {
        Platform::MacOs => {
            let exit = k.super_held && k.w_just_pressed;
            let m1 = if exit { DisplayMode::Windowed } else { m };
            let m2 = if k.super_held && k.control_held && k.f_just_pressed { toggled(m1) } else { m1 };
            WindowCommand { exit, mode: m2 }
        },
        Platform::Windows => WindowCommand {
            exit: false,
            mode: if k.f11_just_pressed { toggled(m) } else { m },
        },
        Platform::Other => WindowCommand { exit: false, mode: m },
    }
}

/// Swaps windowed and borderless fullscreen.
pub fn toggle_mode(m: DisplayMode) -> (r: DisplayMode)
    ensures
        r == toggled(m),
{
    match m {
        DisplayMode::Windowed => DisplayMode::BorderlessFullscreen,
        DisplayMode::BorderlessFullscreen => DisplayMode::Windowed,
        other => other,
    }
}

/// Decides what the window shortcuts pressed in this frame do.
pub fn window_shortcuts(os: Platform, keys: &ShortcutKeys, mode: DisplayMode) -> (r: WindowCommand)
    ensures
        r == shortcut_command(os, *keys, mode),
{
    match os {
        Platform::MacOs => {
            let exit = keys.super_held && keys.w_just_pressed;
            let mut m = mode;
            if exit {
                m = DisplayMode::Windowed;
            }
            if keys.super_held && keys.control_held && keys.f_just_pressed {
                m = toggle_mode(m);
            }
            WindowCommand { exit, mode: m }
        },
        Platform::Windows => {
            let m = if keys.f11_just_pressed { toggle_mode(mode) } else { mode };
            WindowCommand { exit: false, mode: m }
        },
        Platform::Other => WindowCommand { exit: false, mode },
    }
}

} // verus!
