//! Keyboard shortcuts: which command a key press stands for, given which
//! dialogs and panels are open. `primary` is the platform's main modifier
//! (Cmd on macOS, Ctrl elsewhere).

use vstd::prelude::*;

use crate::viewer::{DialogState, PdfViewer};

verus! {

/// What a key press asks for. Anything but `Ignored` also stops the key from
/// reaching anything else.
#[derive(Clone, Copy, Debug, PartialEq, Eq, Structural)]
pub enum KeyCommand {
    /// Not a shortcut here; the key goes on.
    Ignored,
    CloseSettingsDialog,
    CloseAboutDialog,
    CloseNoteEditor,
    SaveNoteEditor,
    CloseCommandPanel,
    /// Move the command panel's selection by this many rows.
    MoveCommandPanelSelection(isize),
    ExecuteCommandPanelSelection,
    ToggleCommandPanel,
    CopySelection,
    SelectAllText,
    ClearTextSelection,
    CloseCurrentTab,
    OpenPdf,
    /// Switch to the shown tab this many places away, wrapping around.
    SwitchTabByOffset(isize),
    /// Switch to the shown tab at this position (past the end: the last).
    SwitchToVisibleTab(usize),
}

/// The tab a digit key with the main modifier switches to: 1 to 8 the first
/// eight shown tabs, 9 the last.
pub open spec fn digit_tab(key: Seq<char>) -> Option<usize> {
    if key == "1"@ {
        Some(0usize)
    } else if key == "2"@ {
        Some(1usize)
    } else if key == "3"@ {
        Some(2usize)
    } else if key == "4"@ {
        Some(3usize)
    } else if key == "5"@ {
        Some(4usize)
    } else if key == "6"@ {
        Some(5usize)
    } else if key == "7"@ {
        Some(6usize)
    } else if key == "8"@ {
        Some(7usize)
    } else if key == "9"@ {
        Some(usize::MAX)
    } else {
        None
    }
}

/// The command for a key press: an open dialog or panel takes the keys
/// first (the settings dialog, then the about dialog, then the note editor,
/// then the command panel), else the viewer's shortcuts apply.
pub open spec fn key_command(d: DialogState, key: Seq<char>, primary: bool, shift: bool) -> KeyCommand {
    if d.settings.open {
        if key == "escape"@ {
            KeyCommand::CloseSettingsDialog
        } else {
            KeyCommand::Ignored
        }
    } else if d.about.open {
        if key == "escape"@ {
            KeyCommand::CloseAboutDialog
        } else {
            KeyCommand::Ignored
        }
    } else if d.note_editor.open {
        if key == "escape"@ {
            KeyCommand::CloseNoteEditor
        } else if key == "enter"@ && primary {
            KeyCommand::SaveNoteEditor
        } else {
            KeyCommand::Ignored
        }
    } else if d.command_panel_open {
        if key == "escape"@ {
            KeyCommand::CloseCommandPanel
        } else if key == "down"@ {
            KeyCommand::MoveCommandPanelSelection(1isize)
        } else if key == "up"@ {
            KeyCommand::MoveCommandPanelSelection(-1isize)
        } else if key == "enter"@ {
            KeyCommand::ExecuteCommandPanelSelection
        } else if key == "t"@ && primary && !shift {
            KeyCommand::ToggleCommandPanel
        } else {
            KeyCommand::Ignored
        }
    } else if key == "c"@ && primary {
        KeyCommand::CopySelection
    } else if key == "a"@ && primary {
        KeyCommand::SelectAllText
    } else if key == "escape"@ {
        KeyCommand::ClearTextSelection
    } else if key == "w"@ && primary {
        KeyCommand::CloseCurrentTab
    } else if key == "t"@ && primary && !shift {
        KeyCommand::ToggleCommandPanel
    } else if key == "o"@ && primary {
        KeyCommand::OpenPdf
    } else if key == "["@ && primary && shift {
        KeyCommand::SwitchTabByOffset(-1isize)
    } else if key == "]"@ && primary && shift {
        KeyCommand::SwitchTabByOffset(1isize)
    } else if primary && digit_tab(key) is Some {
        KeyCommand::SwitchToVisibleTab(digit_tab(key)->0)
    } else {
        KeyCommand::Ignored
    }
}

/// With no dialog or panel open and the main modifier held, the digit key
/// `d` from `1` to `8` goes to the shown tab at place `d - 1` (the first shown
/// tab for `1`), and `9` to the last shown one (the largest place, which the
/// switch clamps); without the modifier a digit is no shortcut.
pub proof fn law_digit_keys_pick_shown_tabs(d: DialogState, digit: char, shift: bool)
    requires
        !d.settings.open,
        !d.about.open,
        !d.note_editor.open,
        !d.command_panel_open,
        '1' <= digit && digit <= '9',
    ensures
        digit <= '8' ==> key_command(d, seq![digit], true, shift) == KeyCommand::SwitchToVisibleTab(
            ((digit as int) - ('1' as int)) as usize,
        ),
        digit <= '8' ==> digit_tab(seq![digit]) == Some(((digit as int) - ('1' as int)) as usize),
        digit == '9' ==> key_command(d, seq![digit], true, shift) == KeyCommand::SwitchToVisibleTab(
            usize::MAX,
        ),
        key_command(d, seq![digit], false, shift) == KeyCommand::Ignored,
{
    reveal_strlit("1");
    reveal_strlit("2");
    reveal_strlit("3");
    reveal_strlit("4");
    reveal_strlit("5");
    reveal_strlit("6");
    reveal_strlit("7");
    reveal_strlit("8");
    reveal_strlit("9");
    reveal_strlit("c");
    reveal_strlit("a");
    reveal_strlit("escape");
    reveal_strlit("w");
    reveal_strlit("t");
    reveal_strlit("o");
    reveal_strlit("[");
    reveal_strlit("]");
    let k = seq![digit];
    assert("1"@ =~= seq!['1']);
    assert(k == "1"@ <==> digit == '1') by {
        if k == "1"@ {
            assert(k[0] == "1"@[0]);
        }
    }
    assert("2"@ =~= seq!['2']);
    assert(k == "2"@ <==> digit == '2') by {
        if k == "2"@ {
            assert(k[0] == "2"@[0]);
        }
    }
    assert("3"@ =~= seq!['3']);
    assert(k == "3"@ <==> digit == '3') by {
        if k == "3"@ {
            assert(k[0] == "3"@[0]);
        }
    }
    assert("4"@ =~= seq!['4']);
    assert(k == "4"@ <==> digit == '4') by {
        if k == "4"@ {
            assert(k[0] == "4"@[0]);
        }
    }
    assert("5"@ =~= seq!['5']);
    assert(k == "5"@ <==> digit == '5') by {
        if k == "5"@ {
            assert(k[0] == "5"@[0]);
        }
    }
    assert("6"@ =~= seq!['6']);
    assert(k == "6"@ <==> digit == '6') by {
        if k == "6"@ {
            assert(k[0] == "6"@[0]);
        }
    }
    assert("7"@ =~= seq!['7']);
    assert(k == "7"@ <==> digit == '7') by {
        if k == "7"@ {
            assert(k[0] == "7"@[0]);
        }
    }
    assert("8"@ =~= seq!['8']);
    assert(k == "8"@ <==> digit == '8') by {
        if k == "8"@ {
            assert(k[0] == "8"@[0]);
        }
    }
    assert("9"@ =~= seq!['9']);
    assert(k == "9"@ <==> digit == '9') by {
        if k == "9"@ {
            assert(k[0] == "9"@[0]);
        }
    }
    assert(k != "c"@ && k != "a"@ && k != "w"@ && k != "t"@ && k != "o"@ && k != "["@ && k != "]"@) by {
        assert(k[0] == digit);
    }
    assert(k != "escape"@) by {
        assert(k.len() == 1);
    }
    assert(digit <= '8' ==> digit_tab(k) == Some(((digit as int) - ('1' as int)) as usize));
    assert(digit == '9' ==> digit_tab(k) == Some(usize::MAX));
    assert(key_command(d, k, true, shift) == KeyCommand::SwitchToVisibleTab(digit_tab(k)->0));
}

/// The viewer's shortcuts when no dialog or panel is open: with the main
/// modifier, `c` copies the selection, `a` selects all text on the page, `w`
/// closes the current tab, `o` opens a file, `t` (without shift) shows or
/// hides the command panel, and with shift `[` and `]` go to the previous and
/// next shown tab; escape clears the selection whatever is held. Letters
/// without the modifier are no shortcut.
pub proof fn law_viewer_shortcuts(d: DialogState, shift: bool, primary: bool)
    requires
        !d.settings.open,
        !d.about.open,
        !d.note_editor.open,
        !d.command_panel_open,
    ensures
        key_command(d, seq!['c'], true, shift) == KeyCommand::CopySelection,
        key_command(d, seq!['a'], true, shift) == KeyCommand::SelectAllText,
        key_command(d, seq!['w'], true, shift) == KeyCommand::CloseCurrentTab,
        key_command(d, seq!['o'], true, shift) == KeyCommand::OpenPdf,
        key_command(d, seq!['t'], true, false) == KeyCommand::ToggleCommandPanel,
        key_command(d, seq!['['], true, true) == KeyCommand::SwitchTabByOffset(-1isize),
        key_command(d, seq![']'], true, true) == KeyCommand::SwitchTabByOffset(1isize),
        key_command(d, seq!['e', 's', 'c', 'a', 'p', 'e'], primary, shift) == KeyCommand::ClearTextSelection,
        key_command(d, seq!['c'], false, shift) == KeyCommand::Ignored,
        key_command(d, seq!['w'], false, shift) == KeyCommand::Ignored,
        key_command(d, seq!['o'], false, shift) == KeyCommand::Ignored,
{
    reveal_strlit("c");
    reveal_strlit("a");
    reveal_strlit("escape");
    reveal_strlit("w");
    reveal_strlit("t");
    reveal_strlit("o");
    reveal_strlit("[");
    reveal_strlit("]");
    reveal_strlit("1");
    reveal_strlit("2");
    reveal_strlit("3");
    reveal_strlit("4");
    reveal_strlit("5");
    reveal_strlit("6");
    reveal_strlit("7");
    reveal_strlit("8");
    reveal_strlit("9");
    assert("c"@ =~= seq!['c']);
    assert("a"@ =~= seq!['a']);
    assert("w"@ =~= seq!['w']);
    assert("t"@ =~= seq!['t']);
    assert("o"@ =~= seq!['o']);
    assert("["@ =~= seq!['[']);
    assert("]"@ =~= seq![']']);
    assert("escape"@ =~= seq!['e', 's', 'c', 'a', 'p', 'e']);
    let letters = seq![seq!['c'], seq!['w'], seq!['o']];
    assert forall|k: int| 0 <= k < 3 implies digit_tab(#[trigger] letters[k]) is None by {
        let x = letters[k];
        assert(x.len() == 1);
        assert(x[0] != '1' && x[0] != '2' && x[0] != '3' && x[0] != '4' && x[0] != '5' && x[0] != '6'
            && x[0] != '7' && x[0] != '8' && x[0] != '9');
        assert(x != "1"@ && x != "2"@ && x != "3"@ && x != "4"@ && x != "5"@ && x != "6"@ && x != "7"@
            && x != "8"@ && x != "9"@) by {
            assert("1"@[0] == '1' && "2"@[0] == '2' && "3"@[0] == '3' && "4"@[0] == '4' && "5"@[0]
                == '5' && "6"@[0] == '6' && "7"@[0] == '7' && "8"@[0] == '8' && "9"@[0] == '9');
        }
    }
    assert(letters[0] == seq!['c'] && letters[1] == seq!['w'] && letters[2] == seq!['o']);
    assert(seq!['w'] != "c"@ && seq!['w'] != "a"@ && seq!['o'] != "c"@ && seq!['o'] != "a"@
        && seq!['o'] != "w"@ && seq!['o'] != "t"@ && seq!['a'] != "c"@ && seq!['w'] != "escape"@
        && seq!['o'] != "escape"@ && seq!['c'] != "escape"@) by {
        assert(seq!['w'][0] == 'w' && seq!['o'][0] == 'o' && seq!['a'][0] == 'a');
    }
    assert(seq!['t'] != "c"@ && seq!['t'] != "a"@ && seq!['t'] != "w"@ && seq!['t'] != "escape"@
        && seq!['['] != "c"@ && seq!['['] != "a"@ && seq!['['] != "w"@ && seq!['['] != "t"@
        && seq!['['] != "o"@ && seq!['['] != "escape"@ && seq![']'] != "c"@ && seq![']'] != "a"@
        && seq![']'] != "w"@ && seq![']'] != "t"@ && seq![']'] != "o"@ && seq![']'] != "escape"@
        && seq![']'] != "["@ && seq!['a'] != "escape"@) by {
        assert(seq!['t'][0] == 't' && seq!['['][0] == '[' && seq![']'][0] == ']');
    }
    assert(seq!['e', 's', 'c', 'a', 'p', 'e'] != "c"@ && seq!['e', 's', 'c', 'a', 'p', 'e'] != "a"@);
}

/// Whether the key's name is `name`.
fn key_is(key: &Vec<char>, name: &str) -> (r: bool)
    ensures
        r == (key@ == name@),
{
    let expected = crate::strings::chars_of(name);
    if key.len() != expected.len() {
        return false;
    }
    let mut i: usize = 0;
    while i < key.len()
        invariant
            i <= key@.len(),
            key@.len() == expected@.len(),
            expected@ == name@,
            forall|k: int| 0 <= k < i ==> key@[k] == expected@[k],
        decreases key@.len() - i,
    {
        if key[i] != expected[i] {
            return false;
        }
        i += 1;
    }
    assert(key@ =~= expected@);
    true
}

/// The tab a digit key switches to.
fn digit_tab_exec(key: &Vec<char>) -> (r: Option<usize>)
    ensures
        r == digit_tab(key@),
{
    if key_is(key, "1") {
        Some(0)
    } else if key_is(key, "2") {
        Some(1)
    } else if key_is(key, "3") {
        Some(2)
    } else if key_is(key, "4") {
        Some(3)
    } else if key_is(key, "5") {
        Some(4)
    } else if key_is(key, "6") {
        Some(5)
    } else if key_is(key, "7") {
        Some(6)
    } else if key_is(key, "8") {
        Some(7)
    } else if key_is(key, "9") {
        Some(usize::MAX)
    } else {
        None
    }
}

impl PdfViewer {
    /// The command a key press stands for (see [`key_command`]); the caller
    /// carries it out.
    pub fn handle_key_down(&self, key: &str, primary: bool, shift: bool) -> (r: KeyCommand)
        ensures
            r == key_command(self.dialogs, key@, primary, shift),
    {
        let k = crate::strings::chars_of(key);
        let d = self.dialogs;
        if d.settings.open {
            return if key_is(&k, "escape") {
                KeyCommand::CloseSettingsDialog
            } else {
                KeyCommand::Ignored
            };
        }
        if d.about.open {
            return if key_is(&k, "escape") {
                KeyCommand::CloseAboutDialog
            } else {
                KeyCommand::Ignored
            };
        }
        if d.note_editor.open {
            return if key_is(&k, "escape") {
                KeyCommand::CloseNoteEditor
            } else if key_is(&k, "enter") && primary {
                KeyCommand::SaveNoteEditor
            } else {
                KeyCommand::Ignored
            };
        }
        if d.command_panel_open {
            return if key_is(&k, "escape") {
                KeyCommand::CloseCommandPanel
            } else if key_is(&k, "down") {
                KeyCommand::MoveCommandPanelSelection(1)
            } else if key_is(&k, "up") {
                KeyCommand::MoveCommandPanelSelection(-1)
            } else if key_is(&k, "enter") {
                KeyCommand::ExecuteCommandPanelSelection
            } else if key_is(&k, "t") && primary && !shift {
                KeyCommand::ToggleCommandPanel
            } else {
                KeyCommand::Ignored
            };
        }
        if key_is(&k, "c") && primary {
            KeyCommand::CopySelection
        } else if key_is(&k, "a") && primary {
            KeyCommand::SelectAllText
        } else if key_is(&k, "escape") {
            KeyCommand::ClearTextSelection
        } else if key_is(&k, "w") && primary {
            KeyCommand::CloseCurrentTab
        } else if key_is(&k, "t") && primary && !shift {
            KeyCommand::ToggleCommandPanel
        } else if key_is(&k, "o") && primary {
            KeyCommand::OpenPdf
        } else if key_is(&k, "[") && primary && shift {
            KeyCommand::SwitchTabByOffset(-1)
        } else if key_is(&k, "]") && primary && shift {
            KeyCommand::SwitchTabByOffset(1)
        } else if primary {
            match digit_tab_exec(&k) {
                Some(i) => KeyCommand::SwitchToVisibleTab(i),
                None => KeyCommand::Ignored,
            }
        } else {
            KeyCommand::Ignored
        }
    }
}

} // verus!
