//! The tabs of a session and the modal editing state machine that
//! keystrokes drive.
use vstd::prelude::*;

verus! {

/// One browsing session: the namespace, the resource alias as typed (not
/// yet resolved) and a name filter.
#[derive(Debug, Clone)]
pub struct Tab {
    /// Namespace to list in; `None` lists across all namespaces.
    pub namespace: Option<String>,
    /// Resource alias as typed by the user.
    pub resource: String,
    /// Name filter as typed by the user.
    pub filter: String,
}

/// Mathematical model of a [`Tab`].
pub struct TabView {
    pub namespace: Option<Seq<char>>,
    pub resource: Seq<char>,
    pub filter: Seq<char>,
}

impl View for Tab {
    type V = TabView;

    open spec fn view(&self) -> TabView {
        TabView {
            namespace: match self.namespace {
                Some(n) => Some(n@),
                None => None,
            },
            resource: self.resource@,
            filter: self.filter@,
        }
    }
}

/// A fresh tab: namespace `default`, resource `pods`, no filter.
pub open spec fn default_tab() -> TabView {
    TabView {
        namespace: Some(seq!['d', 'e', 'f', 'a', 'u', 'l', 't']),
        resource: seq!['p', 'o', 'd', 's'],
        filter: Seq::empty(),
    }
}

impl Default for Tab {
    fn default() -> (r: Tab)
        ensures
            r@ == default_tab(),
    {
        let r = Tab {
            namespace: Some(String::from_str("default")),
            resource: String::from_str("pods"),
            filter: String::new(),
        };
        proof {
            reveal_strlit("default");
            reveal_strlit("pods");
        }
        assert(r@.namespace->Some_0 =~= default_tab().namespace->Some_0);
        assert(r@.resource =~= default_tab().resource);
        r
    }
}

/// Which field of the active tab keystrokes edit.
#[derive(Debug, Clone, Copy, PartialEq, Eq, Structural)]
pub enum Editing {
    Namespace,
    Resource,
    Filter,
}

/// What the session does after a keystroke.
#[derive(Debug, Clone, Copy, PartialEq, Eq, Structural)]
pub enum Action {
    Continue,
    Quit,
}

/// A key, as far as the session tells keys apart.
#[derive(Debug, Clone, Copy, PartialEq, Eq, Structural)]
pub enum Key {
    Char(char),
    Tab,
    BackTab,
    Backspace,
    Enter,
    Esc,
    Other,
}

/// A key press, with whether Control, and no other modifier, was held.
#[derive(Debug, Clone, Copy, PartialEq, Eq, Structural)]
pub struct KeyPress {
    pub key: Key,
    pub control: bool,
}

/// The tabs of a session, the active one, and the field being edited.
#[derive(Debug)]
pub struct UIState {
    pub tabs: Vec<Tab>,
    pub active_tab_idx: usize,
    pub editing: Option<Editing>,
}

/// Mathematical model of a [`UIState`].
pub struct UIStateView {
    pub tabs: Seq<TabView>,
    pub active: int,
    pub editing: Option<Editing>,
}

impl UIStateView {
    /// At least one tab, and the active index points to one.
    pub open spec fn wf(self) -> bool {
        self.tabs.len() > 0 && 0 <= self.active < self.tabs.len()
    }
}

impl View for UIState {
    type V = UIStateView;

    open spec fn view(&self) -> UIStateView {
        UIStateView {
            tabs: self.tabs@.map_values(|t: Tab| t@),
            active: self.active_tab_idx as int,
            editing: self.editing,
        }
    }
}

/// The session a user starts with: one fresh tab, active, nothing edited.
pub open spec fn initial_state() -> UIStateView {
    UIStateView { tabs: seq![default_tab()], active: 0, editing: None }
}

/// `t` with `c` typed into the field that `mode` edits; typing into an
/// unset namespace does nothing.
pub open spec fn type_char(t: TabView, mode: Editing, c: char) -> TabView {
    match mode {
        Editing::Namespace => TabView {
            namespace: match t.namespace {
                Some(n) => Some(n.push(c)),
                None => None,
            },
            ..t
        },
        Editing::Resource => TabView { resource: t.resource.push(c), ..t },
        Editing::Filter => TabView { filter: t.filter.push(c), ..t },
    }
}

/// `s` without its last character, if it has one.
pub open spec fn erase_last(s: Seq<char>) -> Seq<char> {
    if s.len() > 0 {
        s.drop_last()
    } else {
        s
    }
}

/// `t` with the last character of the field that `mode` edits removed.
pub open spec fn erase_char(t: TabView, mode: Editing) -> TabView {
    match mode {
        Editing::Namespace => TabView {
            namespace: match t.namespace {
                Some(n) => Some(erase_last(n)),
                None => None,
            },
            ..t
        },
        Editing::Resource => TabView { resource: erase_last(t.resource), ..t },
        Editing::Filter => TabView { filter: erase_last(t.filter), ..t },
    }
}

/// The new-tab chord: Control-t.
pub open spec fn is_new_tab(k: KeyPress) -> bool {
    k.control && k.key == Key::Char('t')
}

/// The quit chord: Control-c.
pub open spec fn is_quit(k: KeyPress) -> bool {
    k.control && k.key == Key::Char('c')
}

/// The session after key press `k`, and what to do next.
///
/// Tab switching, new tabs, quitting and entering an editing mode are only
/// wired while nothing is being edited; while a field is edited, plain
/// characters are typed into it, Backspace erases, and Enter or Escape end
/// the editing.
pub open spec fn step(s: UIStateView, k: KeyPress) -> (UIStateView, Action) {
    match s.editing {
        None => if is_new_tab(k) {
            (UIStateView { tabs: s.tabs.push(default_tab()), ..s }, Action::Continue)
        } else if is_quit(k) {
            (s, Action::Quit)
        } else {
            match k.key {
                Key::Tab => (
                    UIStateView {
                        active: if s.active + 1 < s.tabs.len() {
                            s.active + 1
                        } else {
                            s.tabs.len() - 1
                        },
                        ..s
                    },
                    Action::Continue,
                ),
                Key::BackTab => (
                    UIStateView {
                        active: if s.active > 0 {
                            s.active - 1
                        } else {
                            0
                        },
                        ..s
                    },
                    Action::Continue,
                ),
                Key::Char(c) => if k.control {
                    (s, Action::Continue)
                } else if c == 'f' {
                    (UIStateView { editing: Some(Editing::Filter), ..s }, Action::Continue)
                } else if c == 'r' {
                    (UIStateView { editing: Some(Editing::Resource), ..s }, Action::Continue)
                } else if c == 'n' {
                    (UIStateView { editing: Some(Editing::Namespace), ..s }, Action::Continue)
                } else {
                    (s, Action::Continue)
                },
                _ => (s, Action::Continue),
            }
        },
        Some(mode) => match k.key {
            Key::Char(c) => if k.control {
                (s, Action::Continue)
            } else {
                (
                    UIStateView {
                        tabs: s.tabs.update(s.active, type_char(s.tabs[s.active], mode, c)),
                        ..s
                    },
                    Action::Continue,
                )
            },
            Key::Backspace => (
                UIStateView {
                    tabs: s.tabs.update(s.active, erase_char(s.tabs[s.active], mode)),
                    ..s
                },
                Action::Continue,
            ),
            Key::Enter | Key::Esc => (UIStateView { editing: None, ..s }, Action::Continue),
            _ => (s, Action::Continue),
        },
    }
}

/// Relies on std's `String::push`: appends one character.
#[verifier::external_body]
fn push_char(s: &mut String, c: char)
    ensures
        final(s)@ == old(s)@.push(c),
{
    s.push(c)
}

/// Relies on std's `String::pop`: removes the last character and returns
/// it, or returns `None` and leaves an empty string as it is.
#[verifier::external_body]
fn pop_char(s: &mut String) -> (r: Option<char>)
    ensures
        old(s)@.len() == 0 ==> r is None && final(s)@ == old(s)@,
        old(s)@.len() > 0 ==> r == Some(old(s)@.last()) && final(s)@ == old(s)@.drop_last(),
{
    s.pop()
}

impl Tab {
    /// Types `c` into the field that `mode` edits.
    fn type_char(&mut self, mode: Editing, c: char)
        ensures
            final(self)@ == type_char(old(self)@, mode, c),
    {
        match mode {
            Editing::Filter => push_char(&mut self.filter, c),
            Editing::Namespace => {
                if let Some(n) = &mut self.namespace {
                    push_char(n, c);
                }
            },
            Editing::Resource => push_char(&mut self.resource, c),
        }
    }

    /// Erases the last character of the field that `mode` edits.
    fn erase_char(&mut self, mode: Editing)
        ensures
            final(self)@ == erase_char(old(self)@, mode),
    {
        match mode {
            Editing::Filter => {
                pop_char(&mut self.filter);
            },
            Editing::Namespace => {
                if let Some(n) = &mut self.namespace {
                    pop_char(n);
                }
            },
            Editing::Resource => {
                pop_char(&mut self.resource);
            },
        }
    }
}

impl Default for UIState {
    fn default() -> (r: UIState)
        ensures
            r@ == initial_state(),
            r@.wf(),
    {
        let mut tabs: Vec<Tab> = Vec::new();
        tabs.push(Tab::default());
        let r = UIState { tabs, active_tab_idx: 0, editing: None };
        assert(r@.tabs =~= initial_state().tabs);
        r
    }
}

impl UIState {
    /// The active tab.
    pub fn active_tab(&self) -> (r: &Tab)
        requires
            self@.wf(),
        ensures
            r@ == self@.tabs[self@.active],
    {
        &self.tabs[self.active_tab_idx]
    }

    /// The active tab, for editing in place; the other tabs and the rest of
    /// the session stay as they are.
    pub fn active_tab_mut(&mut self) -> (r: &mut Tab)
        requires
            old(self)@.wf(),
        ensures
            r@ == old(self)@.tabs[old(self)@.active],
            final(self).active_tab_idx == old(self).active_tab_idx,
            final(self).editing == old(self).editing,
            final(self).tabs@ == old(self).tabs@.update(old(self).active_tab_idx as int, *final(r)),
    {
        &mut self.tabs[self.active_tab_idx]
    }

    /// Appends a fresh tab; the active tab stays the same.
    pub fn new_tab(&mut self)
        requires
            old(self)@.wf(),
        ensures
            final(self)@ == (UIStateView { tabs: old(self)@.tabs.push(default_tab()), ..old(self)@ }),
            final(self)@.wf(),
    {
        self.tabs.push(Tab::default());
        assert(self@.tabs =~= old(self)@.tabs.push(default_tab()));
    }

    /// Applies key press `key` to the session and says whether to go on.
    pub fn handle_key(&mut self, key: KeyPress) -> (r: Action)
        requires
            old(self)@.wf(),
        ensures
            final(self)@.wf(),
            (final(self)@, r) == step(old(self)@, key),
            old(self)@.editing is None && is_new_tab(key) ==> final(self)@.active == old(self)@.active
                && final(self)@.tabs.len() == old(self)@.tabs.len() + 1,
    {
        match self.editing {
            None => {
                if key.control && key.key == Key::Char('t') {
                    self.new_tab();
                    return Action::Continue;
                }
                if key.control && key.key == Key::Char('c') {
                    return Action::Quit;
                }
                match key.key {
                    Key::Tab => {
                        if self.active_tab_idx < self.tabs.len() - 1 {
                            self.active_tab_idx = self.active_tab_idx + 1;
                        } else {
                            self.active_tab_idx = self.tabs.len() - 1;
                        }
                    },
                    Key::BackTab => {
                        if self.active_tab_idx > 0 {
                            self.active_tab_idx = self.active_tab_idx - 1;
                        }
                    },
                    Key::Char(c) => {
                        if !key.control {
                            if c == 'f' {
                                self.editing = Some(Editing::Filter);
                            } else if c == 'r' {
                                self.editing = Some(Editing::Resource);
                            } else if c == 'n' {
                                self.editing = Some(Editing::Namespace);
                            }
                        }
                    },
                    _ => {},
                }
                Action::Continue
            },
            Some(mode) => {
                match key.key {
                    Key::Char(c) => {
                        if !key.control {
                            let tab = self.active_tab_mut();
                            tab.type_char(mode, c);
                            assert(self@.tabs =~= old(self)@.tabs.update(
                                old(self)@.active,
                                type_char(old(self)@.tabs[old(self)@.active], mode, c),
                            ));
                        }
                    },
                    Key::Backspace => {
                        let tab = self.active_tab_mut();
                        tab.erase_char(mode);
                        assert(self@.tabs =~= old(self)@.tabs.update(
                            old(self)@.active,
                            erase_char(old(self)@.tabs[old(self)@.active], mode),
                        ));
                    },
                    Key::Enter | Key::Esc => {
                        self.editing = None;
                    },
                    _ => {},
                }
                Action::Continue
            },
        }
    }
}

/// Every key press keeps the session well formed.
pub proof fn lemma_step_wf(s: UIStateView, k: KeyPress)
    requires
        s.wf(),
    ensures
        step(s, k).0.wf(),
{
}

/// Tab index clamping: opening a tab never moves the active index,
/// switching forward on the last tab and backward on the first change
/// nothing.
pub proof fn lemma_tab_index_clamping(s: UIStateView, control: bool)
    requires
        s.wf(),
        s.editing is None,
    ensures
        step(s, KeyPress { key: Key::Char('t'), control: true }).0.active == s.active,
        step(s, KeyPress { key: Key::Char('t'), control: true }).0.tabs == s.tabs.push(
            default_tab(),
        ),
        s.active == s.tabs.len() - 1 ==> step(s, KeyPress { key: Key::Tab, control }) == (
            s,
            Action::Continue,
        ),
        s.active == 0 ==> step(s, KeyPress { key: Key::BackTab, control }) == (
            s,
            Action::Continue,
        ),
{
}

/// Editing isolation: a character typed while the resource field is edited
/// is appended to the active tab's resource, and nothing else changes.
pub proof fn lemma_editing_isolation(s: UIStateView, c: char)
    requires
        s.wf(),
        s.editing == Some(Editing::Resource),
    ensures
        ({
            let (n, a) = step(s, KeyPress { key: Key::Char(c), control: false });
            &&& a == Action::Continue
            &&& n.active == s.active
            &&& n.editing == s.editing
            &&& n.tabs.len() == s.tabs.len()
            &&& forall|i: int| 0 <= i < s.tabs.len() && i != s.active ==> n.tabs[i] == s.tabs[i]
            &&& n.tabs[s.active].resource == s.tabs[s.active].resource.push(c)
            &&& n.tabs[s.active].namespace == s.tabs[s.active].namespace
            &&& n.tabs[s.active].filter == s.tabs[s.active].filter
        }),
{
}

} // verus!
