//! Text selection on a page: the selected character range, the text of each
//! page in reading order, and the selection's life cycle (start, drag, end,
//! clear). Character geometry stays with the caller; here a page's text is the
//! sequence of the texts of its characters.

use vstd::prelude::*;

use std::collections::HashMap;

use crate::platform::Platform;

verus! {

broadcast use {vstd::std_specs::hash::group_hash_axioms, vstd::string::group_string_axioms};

/// A range of characters `[start_char_index, end_char_index)` on one page.
#[derive(Clone, Copy, Debug, PartialEq, Eq, Structural)]
pub struct TextSelection {
    pub page_index: usize,
    pub start_char_index: usize,
    pub end_char_index: usize,
}

impl TextSelection {
    /// The selection between two character positions, in either order.
    pub fn new(page_index: usize, start_char_index: usize, end_char_index: usize) -> (r: Self)
        ensures
            r.page_index == page_index,
            r.start_char_index == if start_char_index <= end_char_index {
                start_char_index
            } else {
                end_char_index
            },
            r.end_char_index == if start_char_index <= end_char_index {
                end_char_index
            } else {
                start_char_index
            },
    {
        let (start, end) = if start_char_index <= end_char_index {
            (start_char_index, end_char_index)
        } else {
            (end_char_index, start_char_index)
        };
        TextSelection { page_index, start_char_index: start, end_char_index: end }
    }

    pub fn is_empty(&self) -> (r: bool)
        ensures
            r == (self.start_char_index == self.end_char_index),
    {
        self.start_char_index == self.end_char_index
    }

    /// Number of selected characters (none when the end lies before the start).
    pub fn char_count(&self) -> (r: usize)
        ensures
            r == if self.end_char_index >= self.start_char_index {
                (self.end_char_index - self.start_char_index) as usize
            } else {
                0usize
            },
    {
        self.end_char_index.saturating_sub(self.start_char_index)
    }
}

/// The texts of a run of characters, joined.
pub open spec fn joined(texts: Seq<Seq<char>>) -> Seq<char>
    decreases texts.len(),
{
    if texts.len() == 0 {
        Seq::empty()
    } else {
        joined(texts.drop_last()) + texts.last()
    }
}

/// The characters' texts of a page as plain sequences.
pub open spec fn char_texts(chars: Seq<String>) -> Seq<Seq<char>> {
    chars.map_values(|c: String| c@)
}

pub open spec fn min_usize(a: usize, b: usize) -> usize {
    if a <= b {
        a
    } else {
        b
    }
}

/// The text that a selection covers on a page whose characters have the given
/// texts; positions past the end are clamped to it.
pub open spec fn selected_text(chars: Seq<String>, selection: TextSelection) -> Seq<char> {
    let len = chars.len() as usize;
    let start = min_usize(selection.start_char_index, len);
    let end = min_usize(selection.end_char_index, len);
    joined(char_texts(chars).subrange(start as int, end as int))
}

/// The text of one page, one entry per character in reading order.
#[derive(Debug)]
pub struct PageTextCache {
    pub page_index: usize,
    pub chars: Vec<String>,
}

impl PageTextCache {
    /// A copy holding the same characters.
    pub fn duplicate(&self) -> (r: Self)
        ensures
            r.page_index == self.page_index,
            r.chars@ == self.chars@,
    {
        let chars = self.chars.clone();
        assert(chars@ =~= self.chars@);
        PageTextCache { page_index: self.page_index, chars }
    }

    /// The characters' texts joined over the selected range, clamped to the page.
    pub fn get_text(&self, selection: &TextSelection) -> (r: String)
        requires
            min_usize(selection.start_char_index, self.chars@.len() as usize) <= min_usize(
                selection.end_char_index,
                self.chars@.len() as usize,
            ),
        ensures
            r@ == selected_text(self.chars@, *selection),
    {
        let len = self.chars.len();
        let start = if selection.start_char_index <= len {
            selection.start_char_index
        } else {
            len
        };
        let end = if selection.end_char_index <= len {
            selection.end_char_index
        } else {
            len
        };
        let ghost texts = char_texts(self.chars@);
        let mut r = String::new();
        let mut i = start;
        while i < end
            invariant
                start <= i <= end <= len,
                len == self.chars@.len(),
                texts == char_texts(self.chars@),
                r@ == joined(texts.subrange(start as int, i as int)),
            decreases end - i,
        {
            r.append(self.chars[i].as_str());
            proof {
                let next = texts.subrange(start as int, i + 1);
                assert(next.drop_last() =~= texts.subrange(start as int, i as int));
            }
            i += 1;
        }
        r
    }
}

/// Selection state of one document and the text of its pages.
pub struct TextSelectionManager {
    text_caches: HashMap<usize, PageTextCache>,
    current_selection: Option<TextSelection>,
    is_selecting: bool,
    selection_start: Option<(usize, usize)>,
}

impl TextSelectionManager {
    /// The cached texts, by page.
    pub closed spec fn caches(&self) -> Map<usize, Seq<String>> {
        Map::new(
            |p: usize| self.text_caches@.contains_key(p),
            |p: usize| self.text_caches@[p].chars@,
        )
    }

    /// Whether every cached page's entry is filed under its own page number.
    pub closed spec fn caches_filed(&self) -> bool {
        forall|p: usize| #[trigger]
            self.text_caches@.contains_key(p) ==> self.text_caches@[p].page_index == p
    }

    /// Whether the cached pages are filed under their numbers and the
    /// selection runs forward.
    pub closed spec fn wf(&self) -> bool {
        &&& self.caches_filed()
        &&& self.current_selection matches Some(s) ==> s.start_char_index <= s.end_char_index
    }

    pub closed spec fn spec_current_selection(&self) -> Option<TextSelection> {
        self.current_selection
    }

    pub closed spec fn spec_is_selecting(&self) -> bool {
        self.is_selecting
    }

    /// Where the selection in progress began: `(page, character)`.
    pub closed spec fn spec_selection_start(&self) -> Option<(usize, usize)> {
        self.selection_start
    }

    pub fn new() -> (r: Self)
        ensures
            r.wf(),
            r.caches() == Map::<usize, Seq<String>>::empty(),
            r.spec_current_selection() is None,
            !r.spec_is_selecting(),
            r.spec_selection_start() is None,
    {
        let r = TextSelectionManager {
            text_caches: HashMap::new(),
            current_selection: None,
            is_selecting: false,
            selection_start: None,
        };
        assert(r.caches() =~= Map::<usize, Seq<String>>::empty());
        r
    }

    /// A copy of the cached text of a page.
    pub fn get_page_cache(&self, page_index: usize) -> (r: Option<PageTextCache>)
        requires
            self.wf(),
        ensures
            match r {
                Some(c) => self.caches().contains_key(page_index) && c.chars@ == self.caches()[page_index]
                    && c.page_index == page_index,
                None => !self.caches().contains_key(page_index),
            },
    {
        match self.text_caches.get(&page_index) {
            Some(cache) => Some(cache.duplicate()),
            None => None,
        }
    }

    /// Begins a selection at a character: empty, and in progress.
    pub fn start_selection(&mut self, page_index: usize, char_index: usize)
        ensures
            final(self).spec_is_selecting(),
            final(self).spec_selection_start() == Some((page_index, char_index)),
            final(self).spec_current_selection() == Some(
                TextSelection {
                    page_index,
                    start_char_index: char_index,
                    end_char_index: char_index,
                },
            ),
            final(self).caches() == old(self).caches(),
            final(self).wf() == old(self).caches_filed(),
            old(self).wf() ==> final(self).wf(),
    {
        self.is_selecting = true;
        self.selection_start = Some((page_index, char_index));
        self.current_selection = Some(TextSelection::new(page_index, char_index, char_index));
    }

    /// Extends the selection to a character on the page where it began; a
    /// character on another page changes nothing.
    pub fn update_selection(&mut self, page_index: usize, char_index: usize)
        ensures
            final(self).spec_current_selection() == match old(self).spec_selection_start() {
                Some((start_page, start_char)) => if start_page == page_index {
                    Some(
                        TextSelection {
                            page_index,
                            start_char_index: if start_char <= char_index {
                                start_char
                            } else {
                                char_index
                            },
                            end_char_index: if start_char <= char_index {
                                char_index
                            } else {
                                start_char
                            },
                        },
                    )
                } else {
                    old(self).spec_current_selection()
                },
                None => old(self).spec_current_selection(),
            },
            final(self).spec_is_selecting() == old(self).spec_is_selecting(),
            final(self).spec_selection_start() == old(self).spec_selection_start(),
            final(self).caches() == old(self).caches(),
            old(self).wf() ==> final(self).wf(),
    {
        if let Some((start_page, start_char)) = self.selection_start {
            if start_page == page_index {
                self.current_selection = Some(TextSelection::new(page_index, start_char, char_index));
            }
        }
    }

    /// Finishes dragging; the selection stays.
    pub fn end_selection(&mut self)
        ensures
            !final(self).spec_is_selecting(),
            final(self).spec_current_selection() == old(self).spec_current_selection(),
            final(self).spec_selection_start() == old(self).spec_selection_start(),
            final(self).caches() == old(self).caches(),
            final(self).wf() == old(self).wf(),
    {
        self.is_selecting = false;
        assert(self.text_caches@ == old(self).text_caches@);
    }

    /// Drops the selection.
    pub fn clear_selection(&mut self)
        ensures
            final(self).spec_current_selection() is None,
            final(self).spec_selection_start() is None,
            !final(self).spec_is_selecting(),
            final(self).caches() == old(self).caches(),
            final(self).wf() == old(self).caches_filed(),
            old(self).wf() ==> final(self).wf(),
    {
        self.current_selection = None;
        self.selection_start = None;
        self.is_selecting = false;
    }

    pub fn get_current_selection(&self) -> (r: Option<&TextSelection>)
        ensures
            match r {
                Some(s) => self.spec_current_selection() == Some(*s),
                None => self.spec_current_selection() is None,
            },
    {
        self.current_selection.as_ref()
    }

    pub fn is_selecting(&self) -> (r: bool)
        ensures
            r == self.spec_is_selecting(),
    {
        self.is_selecting
    }

    /// The selected text, when there is a selection, its page's text is cached
    /// and the text is not empty.
    pub fn get_selected_text(&self) -> (r: Option<String>)
        requires
            self.wf(),
        ensures
            match spec_selected_text(self.caches(), self.spec_current_selection()) {
                Some(t) => r is Some && r->0@ == t,
                None => r is None,
            },
    {
        let selection = match self.current_selection.as_ref() {
            Some(s) => s,
            None => return None,
        };
        let cache = match self.get_page_cache(selection.page_index) {
            Some(c) => c,
            None => return None,
        };
        let text = cache.get_text(selection);
        if text.as_str().is_empty() {
            None
        } else {
            Some(text)
        }
    }

    /// Forgets the text of every page.
    pub fn clear_cache(&mut self)
        ensures
            final(self).caches() == Map::<usize, Seq<String>>::empty(),
            final(self).caches_filed(),
            old(self).wf() ==> final(self).wf(),
            final(self).spec_current_selection() == old(self).spec_current_selection(),
            final(self).spec_is_selecting() == old(self).spec_is_selecting(),
            final(self).spec_selection_start() == old(self).spec_selection_start(),
    {
        self.text_caches.clear();
        assert(self.caches() =~= Map::<usize, Seq<String>>::empty());
    }

    /// Stores the text of a page, replacing what was cached for it.
    pub fn load_cached_text(&mut self, page_index: usize, chars: Vec<String>)
        requires
            old(self).wf(),
        ensures
            final(self).wf(),
            final(self).caches() == old(self).caches().insert(page_index, chars@),
            final(self).spec_current_selection() == old(self).spec_current_selection(),
            final(self).spec_is_selecting() == old(self).spec_is_selecting(),
            final(self).spec_selection_start() == old(self).spec_selection_start(),
    {
        let ghost chars_view = chars@;
        let cache = PageTextCache { page_index, chars };
        self.text_caches.insert(page_index, cache);
        assert(self.caches() =~= old(self).caches().insert(page_index, chars_view));
    }
}

/// The text that the current selection covers, when its page is cached and the
/// text is not empty.
pub open spec fn spec_selected_text(
    caches: Map<usize, Seq<String>>,
    selection: Option<TextSelection>,
) -> Option<Seq<char>> {
    match selection {
        Some(s) => if caches.contains_key(s.page_index) && selected_text(
            caches[s.page_index],
            s,
        ).len() > 0 {
            Some(selected_text(caches[s.page_index], s))
        } else {
            None
        },
        None => None,
    }
}

/// A program to run, with its arguments.
#[derive(Clone, Debug)]
pub struct ShellCommand {
    pub program: String,
    pub args: Vec<String>,
}

/// How to put text on the system clipboard with the platform's tools.
#[derive(Clone, Debug)]
pub enum ClipboardPlan {
    /// Run `source` and feed its output to the first of `sinks` that starts.
    Piped { source: ShellCommand, sinks: Vec<ShellCommand> },
    /// Run one command.
    Single(ShellCommand),
}

/// Why text could not be copied.
#[derive(Clone, Copy, Debug, PartialEq, Eq, Structural)]
pub enum ClipboardError {
    /// No clipboard tool is known for the platform.
    Unsupported,
}

impl ClipboardError {
    /// The message that tells the user what went wrong.
    pub fn message(&self) -> (r: String)
        ensures
            r@ == "Clipboard not supported on this platform"@,
    {
        "Clipboard not supported on this platform".to_string()
    }
}

/// The text with every `'` doubled, as a single-quoted PowerShell string needs.
pub open spec fn double_single_quotes(s: Seq<char>) -> Seq<char>
    decreases s.len(),
{
    if s.len() == 0 {
        Seq::empty()
    } else {
        double_single_quotes(s.drop_last()) + if s.last() == '\'' {
            seq!['\'', '\'']
        } else {
            seq![s.last()]
        }
    }
}

pub open spec fn command_is(c: ShellCommand, program: Seq<char>, args: Seq<Seq<char>>) -> bool {
    c.program@ == program && c.args@.map_values(|a: String| a@) == args
}

/// The PowerShell statement that sets the clipboard to the text.
pub open spec fn powershell_set_clipboard(text: Seq<char>) -> Seq<char> {
    "Set-Clipboard -Value '"@ + double_single_quotes(text) + "'"@
}

/// The command that writes the text as it is to its output:
/// `printf '%s' <text>`.
pub open spec fn prints_text(c: ShellCommand, text: Seq<char>) -> bool {
    command_is(c, "printf"@, seq!["%s"@, text])
}

/// The commands that put the text on the clipboard: on macOS the text
/// printed and piped into `pbcopy`; on Linux the text printed and piped into
/// `xclip -selection clipboard`, else `wl-copy`; on Windows PowerShell's
/// `Set-Clipboard`. Elsewhere copying is not supported.
pub open spec fn clipboard_plan_is(platform: Platform, text: Seq<char>, r: Result<ClipboardPlan, ClipboardError>) -> bool {
    match platform {
        Platform::MacOs => r matches Ok(ClipboardPlan::Piped { source, sinks }) && prints_text(
            source,
            text,
        ) && sinks@.len() == 1 && command_is(sinks@[0], "pbcopy"@, seq![]),
        Platform::Linux => r matches Ok(ClipboardPlan::Piped { source, sinks }) && prints_text(
            source,
            text,
        ) && sinks@.len() == 2 && command_is(
            sinks@[0],
            "xclip"@,
            seq!["-selection"@, "clipboard"@],
        ) && command_is(sinks@[1], "wl-copy"@, seq![]),
        Platform::Windows => r matches Ok(ClipboardPlan::Single(c)) && command_is(
            c,
            "powershell"@,
            seq!["-command"@, powershell_set_clipboard(text)],
        ),
        Platform::OtherUnix => r == Err::<ClipboardPlan, ClipboardError>(ClipboardError::Unsupported),
        Platform::Other => r == Err::<ClipboardPlan, ClipboardError>(ClipboardError::Unsupported),
    }
}

pub(crate) fn command(program: &str, args: Vec<String>) -> (r: ShellCommand)
    ensures
        r.program@ == program@,
        r.args@ == args@,
{
    ShellCommand { program: program.to_string(), args }
}

fn escape_for_powershell(text: &str) -> (r: String)
    ensures
        r@ == double_single_quotes(text@),
{
    let chars = crate::strings::chars_of(text);
    let mut r = String::new();
    let mut i: usize = 0;
    while i < chars.len()
        invariant
            i <= chars@.len(),
            chars@ == text@,
            r@ == double_single_quotes(chars@.take(i as int)),
        decreases chars@.len() - i,
    {
        let c = chars[i];
        proof {
            assert(chars@.take(i + 1).drop_last() =~= chars@.take(i as int));
        }
        if c == '\'' {
            crate::strings::push_char(&mut r, '\'');
            crate::strings::push_char(&mut r, '\'');
        } else {
            crate::strings::push_char(&mut r, c);
        }
        i += 1;
        assert(r@ =~= double_single_quotes(chars@.take(i as int)));
    }
    assert(chars@.take(chars@.len() as int) =~= chars@);
    r
}

/// The commands that copy `text` to the system clipboard on the platform, or
/// `Unsupported` where no clipboard tool is known.
pub fn copy_to_clipboard(platform: Platform, text: &str) -> (r: Result<ClipboardPlan, ClipboardError>)
    ensures
        clipboard_plan_is(platform, text@, r),
{
    match platform {
        Platform::MacOs => {
            let source = printed(text);
            let sink = command("pbcopy", Vec::new());
            let sinks = vec![sink];
            proof {
                assert(sinks@[0].args@.map_values(|a: String| a@) =~= Seq::<Seq<char>>::empty());
            }
            Ok(ClipboardPlan::Piped { source, sinks })
        },
        Platform::Linux => {
            let source = printed(text);
            let xclip = command("xclip", vec!["-selection".to_string(), "clipboard".to_string()]);
            let wl_copy = command("wl-copy", Vec::new());
            let sinks = vec![xclip, wl_copy];
            proof {
                assert(sinks@[0].args@.map_values(|a: String| a@) =~= seq![
                    "-selection"@,
                    "clipboard"@,
                ]);
                assert(sinks@[1].args@.map_values(|a: String| a@) =~= Seq::<Seq<char>>::empty());
            }
            Ok(ClipboardPlan::Piped { source, sinks })
        },
        Platform::Windows => {
            let mut script = "Set-Clipboard -Value '".to_string();
            let escaped = escape_for_powershell(text);
            script.append(escaped.as_str());
            script.append("'");
            let c = command("powershell", vec!["-command".to_string(), script]);
            proof {
                assert(c.args@.map_values(|a: String| a@) =~= seq![
                    "-command"@,
                    powershell_set_clipboard(text@),
                ]);
            }
            Ok(ClipboardPlan::Single(c))
        },
        Platform::OtherUnix => Err(ClipboardError::Unsupported),
        Platform::Other => Err(ClipboardError::Unsupported),
    }
}

/// `printf '%s' <text>`: the text, as it is, on the output.
fn printed(text: &str) -> (r: ShellCommand)
    ensures
        prints_text(r, text@),
{
    let c = command("printf", vec!["%s".to_string(), text.to_string()]);
    proof {
        assert(c.args@.map_values(|a: String| a@) =~= seq!["%s"@, text@]);
    }
    c
}

} // verus!
