//! The client's browsing state: which entry is selected, which mode the
//! command bar is in, and what each key press does to them. Drawing and the
//! terminal are the caller's.

use vstd::prelude::*;
use vstd::string::StringExecFns;
use crate::ipc::{EntrySummary, Request, RequestKind, RequestView, Response, SummaryView};
use crate::paste::{PasteEngine, PasteMethod};

verus! {

/// A key of the keyboard, as far as the client tells keys apart.
#[derive(Debug, Clone, Copy, PartialEq, Eq, Structural)]
pub enum Key {
    Char(char),
    Esc,
    Enter,
    Backspace,
    Up,
    Down,
    Other,
}

/// What came in from the terminal.
#[derive(Debug, Clone, Copy, PartialEq, Eq, Structural)]
pub enum InputEvent {
    /// A key went down.
    KeyPress(Key),
    /// Anything else: a key released or repeated, a resize, the mouse.
    Other,
}

/// What the client reacts to.
#[derive(Debug, Clone, Copy, PartialEq, Eq, Structural)]
pub enum UiEvent {
    Input(InputEvent),
}

/// What the command bar is taking text for, if for anything.
#[derive(Debug, Clone, Copy, PartialEq, Eq, Structural)]
pub enum UiMode {
    Normal,
    Search,
    AddTag,
    RemoveTag,
    Export,
    Import,
    Help,
}

/// The file name that an export or an import is offered.
pub open spec fn default_export_path() -> Seq<char> {
    "clipboard_export.json"@
}

/// What handling an event came to.
#[derive(Debug, PartialEq, Eq)]
pub struct HandleOutcome {
    /// The client is to end.
    pub should_exit: bool,
    /// The request to send to the daemon, if any.
    pub request: Option<Request>,
    /// The text to paste before the request is sent, if any.
    pub paste: Option<String>,
}

/// An outcome as a mathematical value.
pub struct OutcomeView {
    pub should_exit: bool,
    pub request: Option<RequestView>,
    pub paste: Option<Seq<char>>,
}

impl View for HandleOutcome {
    type V = OutcomeView;

    open spec fn view(&self) -> OutcomeView {
        OutcomeView {
            should_exit: self.should_exit,
            request: match self.request {
                Some(r) => Some(r@),
                None => None,
            },
            paste: self.paste.deep_view(),
        }
    }
}

impl OutcomeView {
    /// Nothing to do.
    pub open spec fn nothing() -> OutcomeView {
        OutcomeView { should_exit: false, request: None, paste: None }
    }

    /// Send `request` and go on.
    pub open spec fn send(request: Option<RequestView>) -> OutcomeView {
        OutcomeView { should_exit: false, request, paste: None }
    }
}

/// The browsing state as a mathematical value.
pub struct UiView {
    pub entries: Seq<SummaryView>,
    pub selected: usize,
    pub filter: Seq<char>,
    pub mode: UiMode,
    pub input: Seq<char>,
}

impl UiView {
    /// The selection is on an entry, or at the top where there is none.
    pub open spec fn wf(self) -> bool {
        self.selected == 0 || self.selected < self.entries.len()
    }

    /// The request that the text in the command bar makes in the present
    /// mode: none for no text, and none for a tag where no entry is
    /// selected.
    pub open spec fn submit(self) -> Option<RequestView> {
        if self.input.len() == 0 {
            None
        } else {
            match self.mode {
                UiMode::Search => Some(RequestView::Search { query: self.input }),
                UiMode::AddTag => if self.selected < self.entries.len() {
                    Some(
                        RequestView::AddTag {
                            id: self.entries[self.selected as int].id,
                            tag: self.input,
                        },
                    )
                } else {
                    None
                },
                UiMode::RemoveTag => if self.selected < self.entries.len() {
                    Some(
                        RequestView::RemoveTag {
                            id: self.entries[self.selected as int].id,
                            tag: self.input,
                        },
                    )
                } else {
                    None
                },
                UiMode::Export => Some(RequestView::Export { path: self.input }),
                UiMode::Import => Some(RequestView::Import { path: self.input }),
                _ => None,
            }
        }
    }

    /// A key press while the command bar takes text. Escape gives up,
    /// enter submits, backspace takes the last character off, a character
    /// is added; while searching, each added character searches anew.
    pub open spec fn press_in_input_mode(self, key: Key) -> (UiView, OutcomeView) {
        match key {
            Key::Esc => (
                UiView { mode: UiMode::Normal, input: Seq::empty(), ..self },
                OutcomeView::nothing(),
            ),
            Key::Enter => (
                UiView { mode: UiMode::Normal, input: Seq::empty(), ..self },
                OutcomeView::send(self.submit()),
            ),
            Key::Backspace => (
                UiView {
                    input: if self.input.len() > 0 {
                        self.input.drop_last()
                    } else {
                        self.input
                    },
                    ..self
                },
                OutcomeView::nothing(),
            ),
            Key::Char(c) => {
                let input = self.input.push(c);
                if self.mode == UiMode::Search {
                    (
                        UiView { input, filter: input, ..self },
                        OutcomeView::send(Some(RequestView::Search { query: input })),
                    )
                } else {
                    (UiView { input, ..self }, OutcomeView::nothing())
                }
            },
            _ => (self, OutcomeView::nothing()),
        }
    }

    /// A key press in normal mode.
    pub open spec fn press_in_normal_mode(self, key: Key) -> (UiView, OutcomeView) {
        let n = self.entries.len();
        let exit = OutcomeView { should_exit: true, request: None, paste: None };
        if key == Key::Char('q') || key == Key::Esc {
            (self, exit)
        } else if key == Key::Char('?') {
            (UiView { mode: UiMode::Help, ..self }, OutcomeView::nothing())
        } else if key == Key::Char('j') || key == Key::Down {
            (
                UiView {
                    selected: if n > 0 && self.selected + 1 < n {
                        (self.selected + 1) as usize
                    } else if n > 0 {
                        (n - 1) as usize
                    } else {
                        self.selected
                    },
                    ..self
                },
                OutcomeView::nothing(),
            )
        } else if key == Key::Char('k') || key == Key::Up {
            (
                UiView {
                    selected: if self.selected > 0 {
                        (self.selected - 1) as usize
                    } else {
                        self.selected
                    },
                    ..self
                },
                OutcomeView::nothing(),
            )
        } else if key == Key::Char('g') {
            (UiView { selected: 0, ..self }, OutcomeView::nothing())
        } else if key == Key::Char('G') {
            (
                UiView { selected: if n > 0 { (n - 1) as usize } else { self.selected }, ..self },
                OutcomeView::nothing(),
            )
        } else if key == Key::Enter || key == Key::Char('l') {
            if self.selected < n {
                let entry = self.entries[self.selected as int];
                (
                    self,
                    OutcomeView {
                        should_exit: true,
                        request: Some(RequestView::Paste { id: entry.id }),
                        paste: Some(entry.preview),
                    },
                )
            } else {
                (self, OutcomeView::nothing())
            }
        } else if key == Key::Char('/') {
            (UiView { mode: UiMode::Search, input: self.filter, ..self }, OutcomeView::nothing())
        } else if key == Key::Char('t') {
            (UiView { mode: UiMode::AddTag, input: Seq::empty(), ..self }, OutcomeView::nothing())
        } else if key == Key::Char('T') {
            (
                UiView { mode: UiMode::RemoveTag, input: Seq::empty(), ..self },
                OutcomeView::nothing(),
            )
        } else if key == Key::Char('e') {
            (
                UiView { mode: UiMode::Export, input: default_export_path(), ..self },
                OutcomeView::nothing(),
            )
        } else if key == Key::Char('i') {
            (
                UiView { mode: UiMode::Import, input: default_export_path(), ..self },
                OutcomeView::nothing(),
            )
        } else {
            (self, OutcomeView::nothing())
        }
    }

    /// A key press: any key closes the help; otherwise the key goes to the
    /// command bar while it takes text, and to the list when it does not.
    pub open spec fn press(self, key: Key) -> (UiView, OutcomeView) {
        if self.mode == UiMode::Help {
            (UiView { mode: UiMode::Normal, ..self }, OutcomeView::nothing())
        } else if self.mode != UiMode::Normal {
            self.press_in_input_mode(key)
        } else {
            self.press_in_normal_mode(key)
        }
    }

    /// The state and the outcome after an event. Only key presses count.
    pub open spec fn handle(self, event: UiEvent) -> (UiView, OutcomeView) {
        match event {
            UiEvent::Input(InputEvent::KeyPress(key)) => self.press(key),
            UiEvent::Input(InputEvent::Other) => (self, OutcomeView::nothing()),
        }
    }

    /// The state after a response: the entries are those of the response,
    /// and the selection stays where it was, or goes to the last entry
    /// where it was behind it, or to the top where there is no entry.
    pub open spec fn ingest(self, entries: Seq<SummaryView>) -> UiView {
        UiView {
            entries,
            selected: if entries.len() == 0 {
                0
            } else if self.selected >= entries.len() {
                (entries.len() - 1) as usize
            } else {
                self.selected
            },
            ..self
        }
    }
}

/// Every key press leaves the selection on an entry, or at the top.
pub proof fn handle_keeps_selection_valid(s: UiView, event: UiEvent)
    requires
        s.wf(),
    ensures
        s.handle(event).0.wf(),
        s.handle(event).0.entries == s.entries,
{
}

/// After a response the selection is on an entry, or at the top.
pub proof fn ingest_makes_selection_valid(s: UiView, entries: Seq<SummaryView>)
    ensures
        s.ingest(entries).wf(),
{
}

/// The client's browsing state.
pub struct TerminalUi {
    entries: Vec<EntrySummary>,
    selected: usize,
    filter: String,
    paste: PasteEngine,
    mode: UiMode,
    input_buffer: String,
}

impl View for TerminalUi {
    type V = UiView;

    closed spec fn view(&self) -> UiView {
        UiView {
            entries: self.entries.deep_view(),
            selected: self.selected,
            filter: self.filter@,
            mode: self.mode,
            input: self.input_buffer@,
        }
    }
}

impl TerminalUi {
    /// The engine that pastes for this client.
    pub closed spec fn spec_paste(&self) -> PasteEngine {
        self.paste
    }

    /// A client with no entries, in normal mode, that pastes by way of the
    /// clipboard.
    pub fn new() -> (r: TerminalUi)
        ensures
            r@ == (UiView {
                entries: Seq::empty(),
                selected: 0,
                filter: Seq::empty(),
                mode: UiMode::Normal,
                input: Seq::empty(),
            }),
            r.spec_paste().spec_method() == PasteMethod::SendInput,
    {
        let r = TerminalUi {
            entries: Vec::new(),
            selected: 0,
            filter: String::new(),
            paste: PasteEngine::new(PasteMethod::SendInput),
            mode: UiMode::Normal,
            input_buffer: String::new(),
        };
        assert(r@.entries =~= Seq::empty());
        r
    }

    /// The entries on show.
    pub fn entries(&self) -> (r: &Vec<EntrySummary>)
        ensures
            r.deep_view() == self@.entries,
    {
        &self.entries
    }

    /// The position of the selected entry.
    pub fn selected(&self) -> (r: usize)
        ensures
            r == self@.selected,
    {
        self.selected
    }

    /// The query of the last search.
    pub fn filter(&self) -> (r: &str)
        ensures
            r@ == self@.filter,
    {
        self.filter.as_str()
    }

    /// The text in the command bar.
    pub fn input_buffer(&self) -> (r: &str)
        ensures
            r@ == self@.input,
    {
        self.input_buffer.as_str()
    }

    /// The mode of the command bar.
    pub fn mode(&self) -> (r: UiMode)
        ensures
            r == self@.mode,
    {
        self.mode
    }

    /// The engine that pastes for this client.
    pub fn paste_engine(&self) -> (r: PasteEngine)
        ensures
            r == self.spec_paste(),
    {
        self.paste
    }

    /// The request that the text in the command bar makes.
    pub fn handle_input_mode_submit(&self) -> (r: Option<Request>)
        ensures
            r.is_some() == self@.submit().is_some(),
            r matches Some(request) ==> self@.submit() == Some(request@),
    {
        if self.input_buffer.as_str().is_empty() {
            return None;
        }
        let text = self.input_buffer.clone();
        match self.mode {
            UiMode::Search => Some(Request { kind: RequestKind::Search { query: text } }),
            UiMode::AddTag => {
                if self.selected < self.entries.len() {
                    Some(
                        Request {
                            kind: RequestKind::AddTag { id: self.entries[self.selected].id, tag: text },
                        },
                    )
                } else {
                    None
                }
            },
            UiMode::RemoveTag => {
                if self.selected < self.entries.len() {
                    Some(
                        Request {
                            kind: RequestKind::RemoveTag {
                                id: self.entries[self.selected].id,
                                tag: text,
                            },
                        },
                    )
                } else {
                    None
                }
            },
            UiMode::Export => Some(Request { kind: RequestKind::Export { path: text } }),
            UiMode::Import => Some(Request { kind: RequestKind::Import { path: text } }),
            _ => None,
        }
    }

    /// A key press while the command bar takes text.
    fn press_in_input_mode(&mut self, key: Key) -> (r: HandleOutcome)
        ensures
            (final(self)@, r@) == old(self)@.press_in_input_mode(key),
            final(self).spec_paste() == old(self).spec_paste(),
    {
        let mut request: Option<Request> = None;
        match key {
            Key::Esc => {
                self.mode = UiMode::Normal;
                self.input_buffer = String::new();
            },
            Key::Enter => {
                request = self.handle_input_mode_submit();
                self.mode = UiMode::Normal;
                self.input_buffer = String::new();
            },
            Key::Backspace => {
                let _ = self.input_buffer.pop();
            },
            Key::Char(c) => {
                self.input_buffer.push(c);
                if self.mode == UiMode::Search {
                    self.filter = self.input_buffer.clone();
                    request = Some(
                        Request { kind: RequestKind::Search { query: self.filter.clone() } },
                    );
                }
            },
            _ => {},
        }
        HandleOutcome { should_exit: false, request, paste: None }
    }

    /// A key press in normal mode.
    fn press_in_normal_mode(&mut self, key: Key) -> (r: HandleOutcome)
        requires
            old(self)@.wf(),
        ensures
            (final(self)@, r@) == old(self)@.press_in_normal_mode(key),
            final(self).spec_paste() == old(self).spec_paste(),
    {
        let mut request: Option<Request> = None;
        let mut paste: Option<String> = None;
        let mut should_exit = false;
        let n = self.entries.len();
        match key {
            Key::Esc => {
                should_exit = true;
            },
            Key::Down => {
                if n > 0 {
                    self.selected = if self.selected + 1 < n { self.selected + 1 } else { n - 1 };
                }
            },
            Key::Up => {
                if self.selected > 0 {
                    self.selected -= 1;
                }
            },
            Key::Enter => {
                if self.selected < n {
                    paste = Some(self.entries[self.selected].preview.clone());
                    request = Some(
                        Request { kind: RequestKind::Paste { id: self.entries[self.selected].id } },
                    );
                    should_exit = true;
                }
            },
            Key::Char(c) => {
                if c == 'q' {
                    should_exit = true;
                } else if c == '?' {
                    self.mode = UiMode::Help;
                } else if c == 'j' {
                    if n > 0 {
                        self.selected = if self.selected + 1 < n { self.selected + 1 } else { n - 1 };
                    }
                } else if c == 'k' {
                    if self.selected > 0 {
                        self.selected -= 1;
                    }
                } else if c == 'g' {
                    self.selected = 0;
                } else if c == 'G' {
                    if n > 0 {
                        self.selected = n - 1;
                    }
                } else if c == 'l' {
                    if self.selected < n {
                        paste = Some(self.entries[self.selected].preview.clone());
                        request = Some(
                            Request {
                                kind: RequestKind::Paste { id: self.entries[self.selected].id },
                            },
                        );
                        should_exit = true;
                    }
                } else if c == '/' {
                    self.mode = UiMode::Search;
                    self.input_buffer = self.filter.clone();
                } else if c == 't' {
                    self.mode = UiMode::AddTag;
                    self.input_buffer = String::new();
                } else if c == 'T' {
                    self.mode = UiMode::RemoveTag;
                    self.input_buffer = String::new();
                } else if c == 'e' {
                    self.mode = UiMode::Export;
                    self.input_buffer = String::from_str("clipboard_export.json");
                } else if c == 'i' {
                    self.mode = UiMode::Import;
                    self.input_buffer = String::from_str("clipboard_export.json");
                }
            },
            _ => {},
        }
        HandleOutcome { should_exit, request, paste }
    }

    /// Takes an event and says what is to be done for it. Where the outcome
    /// holds text to paste, the caller pastes it before it sends the
    /// request.
    pub fn handle_event(&mut self, event: UiEvent) -> (r: HandleOutcome)
        requires
            old(self)@.wf(),
        ensures
            (final(self)@, r@) == old(self)@.handle(event),
            final(self)@.wf(),
            final(self).spec_paste() == old(self).spec_paste(),
    {
        match event {
            UiEvent::Input(InputEvent::KeyPress(key)) => {
                if self.mode == UiMode::Help {
                    self.mode = UiMode::Normal;
                    HandleOutcome { should_exit: false, request: None, paste: None }
                } else if self.mode != UiMode::Normal {
                    self.press_in_input_mode(key)
                } else {
                    self.press_in_normal_mode(key)
                }
            },
            UiEvent::Input(InputEvent::Other) => HandleOutcome {
                should_exit: false,
                request: None,
                paste: None,
            },
        }
    }

    /// Takes in a response: its entries are shown from now on.
    pub fn ingest_response(&mut self, response: Response)
        ensures
            final(self)@ == old(self)@.ingest(response@),
            final(self)@.wf(),
            final(self).spec_paste() == old(self).spec_paste(),
    {
        let n = response.entries.len();
        if n == 0 {
            self.selected = 0;
        } else if self.selected >= n {
            self.selected = n - 1;
        }
        self.entries = response.entries;
    }
}

} // verus!
