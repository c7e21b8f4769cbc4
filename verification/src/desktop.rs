//! What the viewer asks of the desktop: the commands that show a file or a
//! folder in the platform's file manager, and how the maximise button
//! behaves. The caller runs the commands and talks to the window.

use vstd::prelude::*;

use crate::platform::Platform;
use crate::text_selection::{command, command_is, ShellCommand};

verus! {

/// The command that shows `path` in the file manager: on macOS `open -R`
/// with the path, on Windows `explorer /select,` followed by the path, on
/// other Unixes `xdg-open` on `unix_target` (the path when it is a folder,
/// else the folder holding it, as the caller finds it). None elsewhere.
pub fn reveal_path_command(platform: Platform, path: &str, unix_target: &str) -> (r: Option<ShellCommand>)
    ensures
        match platform {
            Platform::MacOs => r matches Some(c) && command_is(c, "open"@, seq!["-R"@, path@]),
            Platform::Windows => r matches Some(c) && command_is(
                c,
                "explorer"@,
                seq!["/select,"@ + path@],
            ),
            Platform::Linux => r matches Some(c) && command_is(c, "xdg-open"@, seq![unix_target@]),
            Platform::OtherUnix => r matches Some(c) && command_is(c, "xdg-open"@, seq![unix_target@]),
            Platform::Other => r is None,
        },
{
    match platform {
        Platform::MacOs => {
            let c = command("open", vec!["-R".to_string(), path.to_string()]);
            proof {
                assert(c.args@.map_values(|a: String| a@) =~= seq!["-R"@, path@]);
            }
            Some(c)
        },
        Platform::Windows => {
            let mut arg = "/select,".to_string();
            arg.append(path);
            let c = command("explorer", vec![arg]);
            proof {
                assert(c.args@.map_values(|a: String| a@) =~= seq!["/select,"@ + path@]);
            }
            Some(c)
        },
        Platform::Linux | Platform::OtherUnix => {
            let c = command("xdg-open", vec![unix_target.to_string()]);
            proof {
                assert(c.args@.map_values(|a: String| a@) =~= seq![unix_target@]);
            }
            Some(c)
        },
        Platform::Other => None,
    }
}

/// The command that opens the folder `dir` in the file manager: `open` on
/// macOS, `explorer` on Windows, `xdg-open` on other Unixes. None elsewhere.
pub fn open_directory_command(platform: Platform, dir: &str) -> (r: Option<ShellCommand>)
    ensures
        match platform {
            Platform::MacOs => r matches Some(c) && command_is(c, "open"@, seq![dir@]),
            Platform::Windows => r matches Some(c) && command_is(c, "explorer"@, seq![dir@]),
            Platform::Linux => r matches Some(c) && command_is(c, "xdg-open"@, seq![dir@]),
            Platform::OtherUnix => r matches Some(c) && command_is(c, "xdg-open"@, seq![dir@]),
            Platform::Other => r is None,
        },
{
    let program = match platform {
        Platform::MacOs => "open",
        Platform::Windows => "explorer",
        Platform::Linux | Platform::OtherUnix => "xdg-open",
        Platform::Other => return None,
    };
    let c = command(program, vec![dir.to_string()]);
    proof {
        assert(c.args@.map_values(|a: String| a@) =~= seq![dir@]);
        reveal_strlit("open");
        reveal_strlit("explorer");
        reveal_strlit("xdg-open");
    }
    Some(c)
}

/// What the maximise button does.
#[derive(Clone, Copy, Debug, PartialEq, Eq, Structural)]
pub enum WindowZoom {
    /// Ask the platform to restore the window; zoom when that fails.
    RestoreNativelyElseZoom,
    /// Zoom (maximise or restore) the window.
    Zoom,
}

/// The maximise button of a window (`is_maximized` when it is): on Windows a
/// maximised window is restored by the platform, otherwise the window zooms.
pub fn zoom_or_restore_window(platform: Platform, is_maximized: bool) -> (r: WindowZoom)
    ensures
        r == if platform == Platform::Windows && is_maximized {
            WindowZoom::RestoreNativelyElseZoom
        } else {
            WindowZoom::Zoom
        },
{
    match platform {
        Platform::Windows => if is_maximized {
            WindowZoom::RestoreNativelyElseZoom
        } else {
            WindowZoom::Zoom
        },
        _ => WindowZoom::Zoom,
    }
}

} // verus!
