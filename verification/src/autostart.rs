//! The desktop entry that starts cosmic-clip on login.

use vstd::prelude::*;

use crate::text::{chars_of, extend_chars, string_of};

verus! {

/// The lines of the desktop entry before its `Exec=` value.
pub open spec fn entry_head() -> Seq<char> {
    "[Desktop Entry]\nType=Application\nName=cosmic-clip\nGenericName=Clipboard Manager\nComment=Clipboard history (Wayland-native tray)\nExec="@
}

/// The lines of the desktop entry after its `Exec=` value.
pub open spec fn entry_tail() -> Seq<char> {
    "\nIcon=cosmic-clip-symbolic\nTerminal=false\nCategories=Utility;\nStartupNotify=false\nX-GNOME-Autostart-enabled=true\nX-GNOME-Autostart-Delay=8\n"@
}

/// The autostart desktop entry that runs `exec`.
pub fn desktop_entry(exec: &str) -> (r: String)
    ensures
        r@ == entry_head() + exec@ + entry_tail(),
{
    let mut out = chars_of(
        "[Desktop Entry]\nType=Application\nName=cosmic-clip\nGenericName=Clipboard Manager\nComment=Clipboard history (Wayland-native tray)\nExec=",
    );
    let e = chars_of(exec);
    extend_chars(&mut out, e.as_slice());
    let tail = chars_of(
        "\nIcon=cosmic-clip-symbolic\nTerminal=false\nCategories=Utility;\nStartupNotify=false\nX-GNOME-Autostart-enabled=true\nX-GNOME-Autostart-Delay=8\n",
    );
    extend_chars(&mut out, tail.as_slice());
    string_of(out.as_slice())
}

} // verus!
