//! Dialogs shown in windows of their own (settings, about, the list of
//! shortcuts, the note editor), saving a note from the editor, the settings
//! the user can change, and the state of the update check. Windows are made
//! and removed by the caller to match the state here: a dialog that is no
//! longer open loses its window.

use vstd::prelude::*;

use crate::popups::{bookmark_closed, recent_closed};
use crate::strings::{
    char_utf8_width_exec, trim, utf8_len, utf8_len_exec, utf8_prefix,
};
use crate::tab::next_epoch;
use crate::types::{LanguagePreference, MarkdownNoteEntry, ThemeMode, UpdaterUiState};
use crate::updater::UpdateCheck;
use crate::viewer::{note_id_start, note_ids, notes_after_upsert, DialogState, DialogWindow, PdfViewer};

verus! {

/// A dialog window after a new session was opened.
pub open spec fn window_opened(w: DialogWindow) -> DialogWindow {
    DialogWindow { open: true, session: next_epoch(w.session) }
}

impl DialogWindow {
    /// Opens a new session and returns it; none when the dialog is already
    /// open (its window is brought to the front instead).
    pub fn open_session(&mut self) -> (r: Option<u64>)
        ensures
            old(self).open ==> r is None && *final(self) == *old(self),
            !old(self).open ==> *final(self) == window_opened(*old(self)) && r == Some(
                final(self).session,
            ),
    {
        if self.open {
            return None;
        }
        self.open = true;
        self.session = self.session.wrapping_add(1);
        Some(self.session)
    }

    /// Closes the dialog; true when it was open.
    pub fn close(&mut self) -> (r: bool)
        ensures
            r == old(self).open,
            *final(self) == (DialogWindow { open: false, ..*old(self) }),
    {
        let was = self.open;
        self.open = false;
        was
    }

    /// The window of session `session` was closed by the user: the dialog
    /// closes when that is its current session. True when it was open then.
    pub fn window_closed(&mut self, session: u64) -> (r: bool)
        ensures
            old(self).session == session ==> r == old(self).open && *final(self) == (DialogWindow {
                open: false,
                ..*old(self)
            }),
            old(self).session != session ==> !r && *final(self) == *old(self),
    {
        if self.session != session {
            return false;
        }
        self.close()
    }
}

/// The note with id `id` that comes first, if any.
pub open spec fn note_with_id(notes: Seq<MarkdownNoteEntry>, id: u64) -> Option<MarkdownNoteEntry> {
    if exists|k: int| 0 <= k < notes.len() && notes[k].id == id {
        let k = choose|k: int|
            0 <= k < notes.len() && notes[k].id == id && forall|j: int|
                0 <= j < k ==> notes[j].id != id;
        Some(notes[k])
    } else {
        None
    }
}

/// What saving from the note editor did.
pub enum NoteSave {
    /// The editor was closed or reopened meanwhile; nothing changed.
    Ignored,
    /// Nothing to save: blank text, or a new note without a file or page.
    Rejected,
    /// This note was saved and the editor closed.
    Saved(MarkdownNoteEntry),
}

/// The note editor closed with nothing pending.
pub open spec fn editor_closed(d: DialogState) -> DialogState {
    DialogState {
        note_editor: DialogWindow { open: false, ..d.note_editor },
        note_anchor_page: None,
        note_edit_id: None,
        ..d
    }
}

/// The dialogs after one of them was opened: the command panel and the note
/// editor are closed, and so are the other dialogs in `others`.
pub open spec fn others_closed(d: DialogState, close_settings: bool, close_about: bool) -> DialogState {
    let e = if d.note_editor.open {
        editor_closed(d)
    } else {
        d
    };
    DialogState {
        command_panel_open: false,
        settings: if close_settings {
            DialogWindow { open: false, ..d.settings }
        } else {
            d.settings
        },
        about: if close_about {
            DialogWindow { open: false, ..d.about }
        } else {
            d.about
        },
        ..e
    }
}

/// The message of a failed update check before it is cut: its first line
/// that is not blank, trimmed, or `unknown error` when there is none.
pub open spec fn updater_error_message(raw: Seq<char>) -> Seq<char> {
    let line = crate::viewer::first_nonblank_line(raw);
    if line.len() == 0 {
        "unknown error"@
    } else {
        line
    }
}

/// The message shown for a failed update check: when its UTF-8 encoding is
/// longer than 88 bytes, its longest prefix of at most 85 bytes (cut between
/// characters) followed by `...`.
pub open spec fn updater_error_summary(raw: Seq<char>) -> Seq<char> {
    let message = updater_error_message(raw);
    if utf8_len(message) > 88 {
        utf8_prefix(message, 85) + "..."@
    } else {
        message
    }
}

impl PdfViewer {
    /// Closes the settings dialog; true when it was open.
    pub fn close_settings_dialog(&mut self) -> (r: bool)
        ensures
            r == old(self).dialogs.settings.open,
            final(self).dialogs == (DialogState {
                settings: DialogWindow { open: false, ..old(self).dialogs.settings },
                ..old(self).dialogs
            }),
            final(self).same_but_dialogs(&*old(self)),
    {
        self.dialogs.settings.close()
    }

    /// Closes the about dialog; true when it was open.
    pub fn close_about_dialog(&mut self) -> (r: bool)
        ensures
            r == old(self).dialogs.about.open,
            final(self).dialogs == (DialogState {
                about: DialogWindow { open: false, ..old(self).dialogs.about },
                ..old(self).dialogs
            }),
            final(self).same_but_dialogs(&*old(self)),
    {
        self.dialogs.about.close()
    }

    /// Closes the list of shortcuts; true when it was open.
    pub fn close_keymap_dialog(&mut self) -> (r: bool)
        ensures
            r == old(self).dialogs.keymap.open,
            final(self).dialogs == (DialogState {
                keymap: DialogWindow { open: false, ..old(self).dialogs.keymap },
                ..old(self).dialogs
            }),
            final(self).same_but_dialogs(&*old(self)),
    {
        self.dialogs.keymap.close()
    }

    /// The settings window of `session` was closed by the user.
    pub fn on_settings_dialog_window_closed(&mut self, session: u64) -> (r: bool)
        ensures
            final(self).same_but_dialogs(&*old(self)),
            old(self).dialogs.settings.session == session ==> r == old(self).dialogs.settings.open
                && final(self).dialogs == (DialogState {
                settings: DialogWindow { open: false, ..old(self).dialogs.settings },
                ..old(self).dialogs
            }),
            old(self).dialogs.settings.session != session ==> !r && final(self).dialogs == old(self).dialogs,
    {
        self.dialogs.settings.window_closed(session)
    }

    /// The about window of `session` was closed by the user.
    pub fn on_about_dialog_window_closed(&mut self, session: u64) -> (r: bool)
        ensures
            final(self).same_but_dialogs(&*old(self)),
            old(self).dialogs.about.session == session ==> r == old(self).dialogs.about.open
                && final(self).dialogs == (DialogState {
                about: DialogWindow { open: false, ..old(self).dialogs.about },
                ..old(self).dialogs
            }),
            old(self).dialogs.about.session != session ==> !r && final(self).dialogs == old(self).dialogs,
    {
        self.dialogs.about.window_closed(session)
    }

    /// The shortcuts window of `session` was closed by the user; true when
    /// that is its current session.
    pub fn on_keymap_dialog_window_closed(&mut self, session: u64) -> (r: bool)
        ensures
            final(self).same_but_dialogs(&*old(self)),
            r == (old(self).dialogs.keymap.session == session),
            final(self).dialogs == if r {
                DialogState {
                    keymap: DialogWindow { open: false, ..old(self).dialogs.keymap },
                    ..old(self).dialogs
                }
            } else {
                old(self).dialogs
            },
    {
        if self.dialogs.keymap.session != session {
            return false;
        }
        self.dialogs.keymap.open = false;
        true
    }

    /// Closes the note editor and forgets what it was for; true when it was
    /// open or held a note or page.
    pub fn close_markdown_note_editor(&mut self) -> (r: bool)
        ensures
            final(self).same_but_dialogs(&*old(self)),
            final(self).dialogs == editor_closed(old(self).dialogs),
            r == (old(self).dialogs.note_editor.open || old(self).dialogs.note_anchor_page is Some
                || old(self).dialogs.note_edit_id is Some),
    {
        let changed = self.dialogs.note_editor.open || self.dialogs.note_anchor_page.is_some()
            || self.dialogs.note_edit_id.is_some();
        self.dialogs.note_editor.open = false;
        self.dialogs.note_anchor_page = None;
        self.dialogs.note_edit_id = None;
        changed
    }

    /// The note editor window of `session` was closed by the user: when that
    /// is its current session the editor closes and forgets what it was for.
    /// True when anything changed.
    pub fn on_markdown_note_editor_window_closed(&mut self, session: u64) -> (r: bool)
        ensures
            final(self).same_but_dialogs(&*old(self)),
            old(self).dialogs.note_editor.session == session ==> final(self).dialogs == editor_closed(
                old(self).dialogs,
            ) && r == (old(self).dialogs.note_editor.open || old(self).dialogs.note_anchor_page is Some
                || old(self).dialogs.note_edit_id is Some),
            old(self).dialogs.note_editor.session != session ==> !r && final(self).dialogs == old(self).dialogs,
    {
        if self.dialogs.note_editor.session != session {
            return false;
        }
        self.close_markdown_note_editor()
    }

    /// Opens the note editor for a new note on page `anchor_page`, closing any
    /// editor first; returns the editor's session.
    pub fn open_markdown_note_editor_for_new(&mut self, anchor_page: usize) -> (r: u64)
        ensures
            final(self).same_but_dialogs(&*old(self)),
            final(self).dialogs == (DialogState {
                note_editor: DialogWindow {
                    open: true,
                    session: next_epoch(old(self).dialogs.note_editor.session),
                },
                note_anchor_page: Some(anchor_page),
                note_edit_id: None,
                ..old(self).dialogs
            }),
            r == final(self).dialogs.note_editor.session,
    {
        self.close_markdown_note_editor();
        self.dialogs.note_anchor_page = Some(anchor_page);
        self.dialogs.note_edit_id = None;
        self.open_note_editor_window()
    }

    /// Opens the note editor on the note `note_id`, closing any editor
    /// first; returns the editor's session and the note's text. None (and
    /// nothing changes) when no note has that id.
    pub fn open_markdown_note_editor_for_edit(&mut self, note_id: u64) -> (r: Option<(u64, String)>)
        ensures
            final(self).same_but_dialogs(&*old(self)),
            match note_with_id(old(self).markdown_notes@, note_id) {
                None => r is None && final(self).dialogs == old(self).dialogs,
                Some(n) => {
                    &&& final(self).dialogs == (DialogState {
                        note_editor: DialogWindow {
                            open: true,
                            session: next_epoch(old(self).dialogs.note_editor.session),
                        },
                        note_anchor_page: None,
                        note_edit_id: Some(note_id),
                        ..old(self).dialogs
                    })
                    &&& r matches Some((session, text)) && session == final(self).dialogs.note_editor.session && text == n.markdown
                },
            },
    {
        let markdown = match self.markdown_note_by_id(note_id) {
            Some(note) => note.markdown.clone(),
            None => {
                proof {
                    assert(!(exists|k: int|
                        0 <= k < self.markdown_notes@.len() && self.markdown_notes@[k].id == note_id));
                }
                return None;
            },
        };
        proof {
            let k = choose|k: int|
                0 <= k < self.markdown_notes@.len() && self.markdown_notes@[k].markdown == markdown
                    && self.markdown_notes@[k].id == note_id && forall|j: int|
                    0 <= j < k ==> self.markdown_notes@[j].id != note_id;
            lemma_first_note_unique(self.markdown_notes@, note_id, k);
        }
        self.close_markdown_note_editor();
        self.dialogs.note_anchor_page = None;
        self.dialogs.note_edit_id = Some(note_id);
        let session = self.open_note_editor_window();
        Some((session, markdown))
    }

    /// Marks the note editor open under a new session.
    fn open_note_editor_window(&mut self) -> (r: u64)
        ensures
            final(self).same_but_dialogs(&*old(self)),
            final(self).dialogs == (DialogState {
                note_editor: DialogWindow {
                    open: true,
                    session: next_epoch(old(self).dialogs.note_editor.session),
                },
                ..old(self).dialogs
            }),
            r == final(self).dialogs.note_editor.session,
    {
        self.dialogs.note_editor.open = true;
        self.dialogs.note_editor.session = self.dialogs.note_editor.session.wrapping_add(1);
        self.dialogs.note_editor.session
    }

    /// Opens the settings dialog, closing the command panel, the popups, the
    /// about dialog and the note editor first. Returns the new session, or
    /// none when it was already open.
    pub fn open_settings_dialog(&mut self) -> (r: Option<u64>)
        ensures
            self_unchanged_but_overlays(&*final(self), &*old(self)),
            overlays_closed(&*final(self), &*old(self)),
            ({
                let d = others_closed(old(self).dialogs, false, true);
                if d.settings.open {
                    r is None && final(self).dialogs == d
                } else {
                    final(self).dialogs == (DialogState {
                        settings: window_opened(d.settings),
                        ..d
                    }) && r == Some(final(self).dialogs.settings.session)
                }
            }),
    {
        self.close_overlays();
        self.close_about_dialog();
        self.dialogs.settings.open_session()
    }

    /// Opens the about dialog, closing the command panel, the popups, the
    /// settings dialog and the note editor first. Returns the new session, or
    /// none when it was already open.
    pub fn open_about_dialog(&mut self) -> (r: Option<u64>)
        ensures
            self_unchanged_but_overlays(&*final(self), &*old(self)),
            overlays_closed(&*final(self), &*old(self)),
            ({
                let d = others_closed(old(self).dialogs, true, false);
                if d.about.open {
                    r is None && final(self).dialogs == d
                } else {
                    final(self).dialogs == (DialogState { about: window_opened(d.about), ..d }) && r
                        == Some(final(self).dialogs.about.session)
                }
            }),
    {
        self.close_overlays();
        self.close_settings_dialog();
        self.dialogs.about.open_session()
    }

    /// Opens the list of shortcuts, closing the command panel, the popups,
    /// the settings and about dialogs and the note editor first. Returns the
    /// new session, or none when it was already open.
    pub fn open_keymap_dialog(&mut self) -> (r: Option<u64>)
        ensures
            self_unchanged_but_overlays(&*final(self), &*old(self)),
            overlays_closed(&*final(self), &*old(self)),
            ({
                let d = others_closed(old(self).dialogs, true, true);
                if d.keymap.open {
                    r is None && final(self).dialogs == d
                } else {
                    final(self).dialogs == (DialogState { keymap: window_opened(d.keymap), ..d })
                        && r == Some(final(self).dialogs.keymap.session)
                }
            }),
    {
        self.close_overlays();
        self.close_settings_dialog();
        self.close_about_dialog();
        self.dialogs.keymap.open_session()
    }

    /// Closes the command panel, the open popups and the note editor.
    fn close_overlays(&mut self)
        ensures
            self_unchanged_but_overlays(&*final(self), &*old(self)),
            overlays_closed(&*final(self), &*old(self)),
            final(self).dialogs == others_closed(old(self).dialogs, false, false),
    {
        self.dialogs.command_panel_open = false;
        if self.recent_popup.open {
            self.close_recent_popup();
        }
        if self.bookmark_popup.open {
            self.close_bookmark_popup();
        }
        if self.dialogs.note_editor.open {
            self.close_markdown_note_editor();
        }
    }

    /// Saves the text of the note editor of `session`, stamped `now_unix_secs`
    /// (new notes get an id from `now_unix_millis`). Blank text is refused.
    /// Editing an existing note changes its text and time; otherwise a new
    /// note goes on the editor's page of the active tab's file. A saved note
    /// closes the editor.
    pub fn save_markdown_note_from_editor_window(
        &mut self,
        session: u64,
        markdown: &str,
        now_unix_secs: u64,
        now_unix_millis: u64,
    ) -> (r: NoteSave)
        requires
            old(self).tab_bar.wf(),
            exists|x: u64|
                note_id_start(now_unix_millis) <= x && !note_ids(old(self).markdown_notes@).contains(x),
        ensures
            final(self).tab_bar == old(self).tab_bar,
            final(self).recent_files == old(self).recent_files,
            final(self).bookmarks == old(self).bookmarks,
            final(self).hovered_markdown_note_id == old(self).hovered_markdown_note_id,
            final(self).same_ui_state_but_dialogs(&*old(self)),
            ({
                let d = old(self).dialogs;
                let text = trim(markdown@);
                let editing = match d.note_edit_id {
                    Some(id) => note_with_id(old(self).markdown_notes@, id),
                    None => None,
                };
                if !d.note_editor.open || d.note_editor.session != session {
                    r is Ignored && final(self).markdown_notes == old(self).markdown_notes
                        && final(self).dialogs == d
                } else if text.len() == 0 {
                    r is Rejected && final(self).markdown_notes == old(self).markdown_notes
                        && final(self).dialogs == d
                } else if editing is Some {
                    let n = editing->0;
                    &&& r matches NoteSave::Saved(saved)
                    &&& saved == (MarkdownNoteEntry {
                        markdown: saved.markdown,
                        updated_at_unix_secs: now_unix_secs,
                        ..n
                    })
                    &&& saved.markdown@ == text
                    &&& final(self).markdown_notes@ == notes_after_upsert(
                        old(self).markdown_notes@,
                        saved,
                    )
                    &&& final(self).dialogs == editor_closed(d)
                } else if old(self).active_path() is None || d.note_anchor_page is None {
                    r is Rejected && final(self).markdown_notes == old(self).markdown_notes
                        && final(self).dialogs == d
                } else {
                    let ids = note_ids(old(self).markdown_notes@);
                    &&& r matches NoteSave::Saved(saved)
                    &&& note_id_start(now_unix_millis) <= saved.id
                    &&& !ids.contains(saved.id)
                    &&& forall|x: u64| note_id_start(now_unix_millis) <= x < saved.id ==> ids.contains(x)
                    &&& saved.path@ == old(self).active_path()->0
                    &&& saved.page_index == d.note_anchor_page->0
                    &&& saved.markdown@ == text
                    &&& saved.created_at_unix_secs == now_unix_secs
                    &&& saved.updated_at_unix_secs == now_unix_secs
                    &&& saved.selected_text@ == Seq::<char>::empty()
                    &&& final(self).markdown_notes@ == notes_after_upsert(
                        old(self).markdown_notes@,
                        saved,
                    )
                    &&& final(self).dialogs == editor_closed(d)
                }
            }),
    {
        if !self.dialogs.note_editor.open || self.dialogs.note_editor.session != session {
            return NoteSave::Ignored;
        }
        let text = crate::strings::trim_string(markdown);
        if text.as_str().is_empty() {
            return NoteSave::Rejected;
        }
        let existing = match self.dialogs.note_edit_id {
            Some(id) => match self.markdown_note_by_id(id) {
                Some(note) => {
                    proof {
                        let k = choose|k: int|
                            0 <= k < self.markdown_notes@.len() && self.markdown_notes@[k] == *note
                                && forall|j: int| 0 <= j < k ==> self.markdown_notes@[j].id != id;
                        lemma_first_note_unique(self.markdown_notes@, id, k);
                    }
                    Some(note.clone())
                },
                None => {
                    proof {
                        assert(!(exists|k: int|
                            0 <= k < self.markdown_notes@.len() && self.markdown_notes@[k].id == id));
                    }
                    None
                },
            },
            None => None,
        };
        let note = match existing {
            Some(found) => MarkdownNoteEntry {
                markdown: text,
                updated_at_unix_secs: now_unix_secs,
                ..found
            },
            None => {
                let path = match self.active_tab_path() {
                    Some(p) => p.clone(),
                    None => return NoteSave::Rejected,
                };
                let page = match self.dialogs.note_anchor_page {
                    Some(p) => p,
                    None => return NoteSave::Rejected,
                };
                let id = self.next_markdown_note_id(now_unix_millis);
                MarkdownNoteEntry {
                    id,
                    path,
                    page_index: page,
                    markdown: text,
                    created_at_unix_secs: now_unix_secs,
                    updated_at_unix_secs: now_unix_secs,
                    selected_text: String::new(),
                }
            },
        };
        let saved = note.clone();
        self.upsert_markdown_note(note);
        self.close_markdown_note_editor();
        NoteSave::Saved(saved)
    }

    /// Shows or hides the page navigation in the title bar; true when it
    /// changed (the caller stores the preferences).
    pub fn set_titlebar_navigation_visible(&mut self, visible: bool) -> (r: bool)
        ensures
            r == (old(self).preferences.titlebar.show_navigation != visible),
            final(self).preferences.titlebar.show_navigation == visible,
            final(self).preferences.titlebar.show_zoom == old(self).preferences.titlebar.show_zoom,
            final(self).preferences.theme_mode == old(self).preferences.theme_mode,
            final(self).preferences.light_theme_name == old(self).preferences.light_theme_name,
            final(self).preferences.dark_theme_name == old(self).preferences.dark_theme_name,
            final(self).preferences.language == old(self).preferences.language,
            final(self).same_but_preferences(&*old(self)),
    {
        if self.preferences.titlebar.show_navigation == visible {
            return false;
        }
        self.preferences.titlebar.show_navigation = visible;
        true
    }

    /// Shows or hides the zoom controls in the title bar; true when it
    /// changed (the caller stores the preferences).
    pub fn set_titlebar_zoom_visible(&mut self, visible: bool) -> (r: bool)
        ensures
            r == (old(self).preferences.titlebar.show_zoom != visible),
            final(self).preferences.titlebar.show_zoom == visible,
            final(self).preferences.titlebar.show_navigation == old(self).preferences.titlebar.show_navigation,
            final(self).preferences.theme_mode == old(self).preferences.theme_mode,
            final(self).preferences.light_theme_name == old(self).preferences.light_theme_name,
            final(self).preferences.dark_theme_name == old(self).preferences.dark_theme_name,
            final(self).preferences.language == old(self).preferences.language,
            final(self).same_but_preferences(&*old(self)),
    {
        if self.preferences.titlebar.show_zoom == visible {
            return false;
        }
        self.preferences.titlebar.show_zoom = visible;
        true
    }

    /// Switches between light and dark; true when it changed (the caller
    /// stores the preferences and applies the theme).
    pub fn set_theme_mode(&mut self, mode: ThemeMode) -> (r: bool)
        ensures
            r == (old(self).preferences.theme_mode != mode),
            final(self).preferences.theme_mode == mode,
            final(self).preferences.titlebar == old(self).preferences.titlebar,
            final(self).preferences.light_theme_name == old(self).preferences.light_theme_name,
            final(self).preferences.dark_theme_name == old(self).preferences.dark_theme_name,
            final(self).preferences.language == old(self).preferences.language,
            final(self).same_but_preferences(&*old(self)),
    {
        if self.preferences.theme_mode == mode {
            return false;
        }
        self.preferences.theme_mode = mode;
        true
    }

    /// Chooses the colour theme used in `mode`; true when it changed (the
    /// caller stores the preferences and applies the theme).
    pub fn set_theme_color_by_name(&mut self, mode: ThemeMode, theme_name: &str) -> (r: bool)
        ensures
            final(self).same_but_preferences(&*old(self)),
            final(self).preferences.titlebar == old(self).preferences.titlebar,
            final(self).preferences.theme_mode == old(self).preferences.theme_mode,
            final(self).preferences.language == old(self).preferences.language,
            mode == ThemeMode::Dark ==> ({
                &&& r == !(old(self).preferences.dark_theme_name matches Some(n) && n@ == theme_name@)
                &&& final(self).preferences.light_theme_name == old(self).preferences.light_theme_name
                &&& final(self).preferences.dark_theme_name matches Some(n) && n@ == theme_name@
                &&& !r ==> final(self).preferences.dark_theme_name == old(self).preferences.dark_theme_name
            }),
            mode == ThemeMode::Light ==> ({
                &&& r == !(old(self).preferences.light_theme_name matches Some(n) && n@ == theme_name@)
                &&& final(self).preferences.dark_theme_name == old(self).preferences.dark_theme_name
                &&& final(self).preferences.light_theme_name matches Some(n) && n@ == theme_name@
                &&& !r ==> final(self).preferences.light_theme_name == old(self).preferences.light_theme_name
            }),
    {
        let wanted = crate::strings::string_from_chars(crate::strings::chars_of(theme_name).as_slice());
        match mode {
            ThemeMode::Dark => {
                let same = match &self.preferences.dark_theme_name {
                    Some(n) => *n == wanted,
                    None => false,
                };
                if same {
                    return false;
                }
                self.preferences.dark_theme_name = Some(wanted);
                true
            },
            ThemeMode::Light => {
                let same = match &self.preferences.light_theme_name {
                    Some(n) => *n == wanted,
                    None => false,
                };
                if same {
                    return false;
                }
                self.preferences.light_theme_name = Some(wanted);
                true
            },
        }
    }

    /// Chooses the interface language; true when it changed (the caller
    /// stores it and redraws in that language).
    pub fn set_language_preference(&mut self, preference: LanguagePreference) -> (r: bool)
        ensures
            r == (old(self).preferences.language != preference),
            final(self).preferences.language == preference,
            final(self).preferences.titlebar == old(self).preferences.titlebar,
            final(self).preferences.theme_mode == old(self).preferences.theme_mode,
            final(self).preferences.light_theme_name == old(self).preferences.light_theme_name,
            final(self).preferences.dark_theme_name == old(self).preferences.dark_theme_name,
            final(self).same_but_preferences(&*old(self)),
    {
        if self.preferences.language == preference {
            return false;
        }
        self.preferences.language = preference;
        true
    }

    /// Starts an update check; false (and nothing changes) when one is
    /// already running.
    pub fn begin_update_check(&mut self) -> (r: bool)
        ensures
            r == !(old(self).updater_state is Checking),
            final(self).updater_state == if r {
                UpdaterUiState::Checking
            } else {
                old(self).updater_state
            },
            final(self).same_but_updater(&*old(self)),
    {
        if let UpdaterUiState::Checking = self.updater_state {
            return false;
        }
        self.updater_state = UpdaterUiState::Checking;
        true
    }

    /// Takes in how an update check ended: up to date, an update to offer,
    /// or the error, shown summarised.
    pub fn finish_update_check(&mut self, result: Result<UpdateCheck, String>)
        ensures
            final(self).same_but_updater(&*old(self)),
            match result {
                Ok(UpdateCheck::UpToDate { latest_version }) => final(self).updater_state == (
                UpdaterUiState::UpToDate { latest_version }),
                Ok(UpdateCheck::UpdateAvailable(info)) => final(self).updater_state == (
                UpdaterUiState::Available {
                    latest_version: info.latest_version,
                    download_url: info.download_url,
                }),
                Err(e) => final(self).updater_state matches UpdaterUiState::Error { message }
                    && message@ == updater_error_summary(e@),
            },
    {
        self.updater_state = match result {
            Ok(UpdateCheck::UpToDate { latest_version }) => UpdaterUiState::UpToDate { latest_version },
            Ok(UpdateCheck::UpdateAvailable(info)) => UpdaterUiState::Available {
                latest_version: info.latest_version,
                download_url: info.download_url,
            },
            Err(e) => UpdaterUiState::Error { message: summarize_updater_error(e.as_str()) },
        };
    }
}

/// Everything but the dialogs, the popups and the notes' editor state is as
/// in `other`.
pub open spec fn self_unchanged_but_overlays(a: &PdfViewer, b: &PdfViewer) -> bool {
    &&& a.tab_bar == b.tab_bar
    &&& a.recent_files == b.recent_files
    &&& a.bookmarks == b.bookmarks
    &&& a.markdown_notes == b.markdown_notes
    &&& a.hovered_markdown_note_id == b.hovered_markdown_note_id
    &&& a.context_menu == b.context_menu
    &&& a.pointer == b.pointer
    &&& a.updater_state == b.updater_state
    &&& a.preferences == b.preferences
    &&& a.resize_restore_epoch == b.resize_restore_epoch
}

/// The popups of `a` are those of `b` closed when they were open.
pub open spec fn overlays_closed(a: &PdfViewer, b: &PdfViewer) -> bool {
    &&& a.recent_popup == if b.recent_popup.open {
        recent_closed(b.recent_popup)
    } else {
        b.recent_popup
    }
    &&& a.bookmark_popup == if b.bookmark_popup.open {
        bookmark_closed(b.bookmark_popup)
    } else {
        b.bookmark_popup
    }
}

/// The first note with an id is the one `note_with_id` names.
proof fn lemma_first_note_unique(notes: Seq<MarkdownNoteEntry>, id: u64, k: int)
    requires
        0 <= k < notes.len(),
        notes[k].id == id,
        forall|j: int| 0 <= j < k ==> notes[j].id != id,
    ensures
        note_with_id(notes, id) == Some(notes[k]),
{
    let c = choose|c: int|
        0 <= c < notes.len() && notes[c].id == id && forall|j: int| 0 <= j < c ==> notes[j].id != id;
    assert(c == k) by {
        if c < k {
        } else if c > k {
            assert(notes[k].id != id);
        }
    }
}

/// The message of a failed update check before it is cut.
fn updater_error_message_exec(raw: &str) -> (r: Vec<char>)
    ensures
        r@ == updater_error_message(raw@),
{
    let line = crate::viewer::bookmark_note_preview_text(raw);
    if line.as_str().is_empty() {
        let fallback = "unknown error";
        proof {
            reveal_strlit("unknown error");
        }
        crate::strings::chars_of(fallback)
    } else {
        crate::strings::chars_of(line.as_str())
    }
}

/// The message shown for a failed update check: its first line that is not
/// blank, trimmed (`unknown error` when there is none); one longer than 88
/// bytes is cut between characters to at most 85 bytes and ends in `...`.
pub fn summarize_updater_error(raw: &str) -> (r: String)
    ensures
        r@ == updater_error_summary(raw@),
{
    let chars = updater_error_message_exec(raw);
    let total = utf8_len_exec(chars.as_slice());
    if total <= 88 {
        return crate::strings::string_from_chars(chars.as_slice());
    }
    let mut cut = chars.len();
    let mut bytes = total;
    assert(chars@.take(cut as int) =~= chars@);
    while bytes > 85
        invariant
            cut <= chars@.len(),
            bytes == utf8_len(chars@.take(cut as int)),
            utf8_prefix(chars@.take(cut as int), 85) == utf8_prefix(chars@, 85),
        decreases cut,
    {
        if cut == 0 {
            assert(chars@.take(0) =~= Seq::<char>::empty());
        }
        let ghost before = chars@.take(cut as int);
        assert(before.drop_last() =~= chars@.take(cut - 1));
        bytes = bytes - char_utf8_width_exec(chars[cut - 1]) as u128;
        cut -= 1;
    }
    let mut r = crate::strings::string_from_chars(&chars.as_slice()[0..cut]);
    let dots = "...";
    proof {
        reveal_strlit("...");
    }
    r.append(dots);
    assert(chars@.subrange(0, cut as int) =~= chars@.take(cut as int));
    r
}

} // verus!
