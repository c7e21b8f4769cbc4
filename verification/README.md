# kpdf

The session and tab logic of the kPDF desktop PDF viewer, written in Verus:
every operation states in its contract what it does to the viewer's state,
and Verus proves it.

## Layout

- `src/` — the verified library.
  - `tab.rs`, `tab_actions.rs`: tabs, the tab bar, switching, opening and
    closing tabs, dragging them, their context menus. The viewer compares the
    paths it holds as text; `normalize_paths` rebuilds paths from their
    components (with `std::path`) before they are handed to it.
  - `viewer.rs`: the session (recent files, bookmarks, notes, preferences) and
    its restore on start.
  - `text_selection.rs`, `interactions.rs`: selecting and copying page text.
  - `rendering.rs`, `navigation.rs`: which pages to render next, page
    navigation and keeping the page view and thumbnails in step.
  - `popups.rs`, `dialogs.rs`, `keys.rs`: popups, dialogs, preferences, the
    update-check state and keyboard shortcuts.
  - `store.rs`, `codec.rs`: how state is laid out in the local database, with
    round-trip proofs.
  - `updater.rs`: comparing the running version with a published release and
    picking the download for the platform (versions are parsed and ordered
    by the `semver` crate).
  - `desktop.rs`: the commands that show files in the file manager.
  - `laws.rs`: properties that span operations, such as that closing tabs
    never leaves the bar empty, that reordering keeps the same tabs, and that
    the open tabs come back after a restart.
- `tests/` — tests of the library on concrete values.
- `app/` — a command-line program around the library: the sled database,
  reading documents with Pdfium, fetching the latest release, and running
  clipboard and file-manager commands.
