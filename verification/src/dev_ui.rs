//! The state of the developer UI windows and what their buttons and keys
//! do to it; drawing them is left to the UI toolkit.
use crate::ecs::{Ecs, EntityId};
use crate::script::line_end;
use crate::slots::key_slot;
use crate::story::StoryVars;
use crate::text::{
    chars_of, decimal, find_chars, find_spec, i32_to_string, lemma_decimal_reads_back, parse_i32, parse_i32_value,
    string_from_chars,
};
use itertools::Itertools;
use std::marker::PhantomData;
use vstd::prelude::*;
use vstd::string::*;

verus! {

/// Whether `filter` occurs in `s`.
pub open spec fn contains_spec(s: Seq<char>, filter: Seq<char>) -> bool {
    find_spec(s, filter, 0) is Some
}

/// Whether `filter` occurs in `s`.
pub fn contains(s: &str, filter: &str) -> (b: bool)
    ensures
        b == contains_spec(s@, filter@),
{
    let h = chars_of(s);
    let n = chars_of(filter);
    find_chars(&h, &n, 0).is_some()
}

/// The list of entity windows and its filter.
pub struct EntitiesListWindow {
    pub open: bool,
    pub filter_string: String,
}

impl EntitiesListWindow {
    /// A closed list with an empty filter.
    pub fn new() -> (w: EntitiesListWindow)
        ensures
            !w.open,
            w.filter_string@ == Seq::<char>::empty(),
    {
        EntitiesListWindow { open: false, filter_string: String::new() }
    }

    /// Whether an entity is listed: its name, or the text of its id,
    /// contains the filter.
    pub fn shows(&self, name: &Option<String>, id_text: &str) -> (b: bool)
        ensures
            b == ((name matches Some(n) && contains_spec(n@, self.filter_string@)) || contains_spec(id_text@, self.filter_string@)),
    {
        let by_name = match name {
            Some(n) => contains(n.as_str(), self.filter_string.as_str()),
            None => false,
        };
        by_name || contains(id_text, self.filter_string.as_str())
    }
}

/// Whether one of the windows is for entity `e`.
pub open spec fn has_window(windows: Seq<EntityId>, e: u64) -> bool {
    exists|i: int| 0 <= i < windows.len() && (#[trigger] windows[i]).key() == e
}

/// The live entities that have no window yet, in slot order: the windows the
/// developer UI opens for new entities on a frame.
pub fn entities_without_window(ecs: &Ecs, windows: &Vec<EntityId>) -> (r: Vec<EntityId>)
    requires
        ecs.wf(),
    ensures
        forall|i: int| 0 <= i < r@.len() ==> ecs.entities().contains(#[trigger] r@[i].key()) && !has_window(windows@, r@[i].key()),
        forall|e: u64| ecs.entities().contains(e) && !has_window(windows@, e) ==> exists|i: int| 0 <= i < r@.len() && (#[trigger] r@[i]).key() == e,
        forall|i: int, j: int| 0 <= i < j < r@.len() ==> (#[trigger] r@[i]).key() != (#[trigger] r@[j]).key(),
{
    let ids = ecs.entity_ids();
    let mut r: Vec<EntityId> = Vec::new();
    let ghost mut picked: Seq<int> = Seq::empty();
    let mut i: usize = 0;
    while i < ids.len()
        invariant
            i <= ids@.len(),
            forall|a: int| 0 <= a < ids@.len() ==> ecs.entities().contains(#[trigger] ids@[a].key()),
            forall|a: int, b: int| 0 <= a < b < ids@.len() ==> key_slot((#[trigger] ids@[a]).key()) < key_slot((#[trigger] ids@[b]).key()),
            r@.len() == picked.len(),
            forall|a: int| 0 <= a < picked.len() ==> 0 <= #[trigger] picked[a] < i && r@[a] == ids@[picked[a]] && !has_window(windows@, ids@[picked[a]].key()),
            forall|a: int, c: int| 0 <= a < c < picked.len() ==> #[trigger] picked[a] < #[trigger] picked[c],
            forall|b: int| 0 <= b < i && !has_window(windows@, (#[trigger] ids@[b]).key()) ==> exists|a: int| 0 <= a < picked.len() && picked[a] == b,
        decreases ids@.len() - i,
    {
        let id = ids[i];
        let mut found = false;
        let mut j: usize = 0;
        while j < windows.len()
            invariant
                j <= windows@.len(),
                found == exists|w: int| 0 <= w < j && (#[trigger] windows@[w]).key() == id.key(),
            decreases windows@.len() - j,
        {
            if windows[j].same(id) {
                found = true;
            }
            j = j + 1;
        }
        let ghost old_picked = picked;
        if !found {
            r.push(id);
            proof {
                picked = picked.push(i as int);
                assert forall|b: int| 0 <= b < i + 1 && !has_window(windows@, (#[trigger] ids@[b]).key()) implies exists|a: int| 0 <= a < picked.len() && picked[a] == b by {
                    if b == i {
                        assert(picked[picked.len() - 1] == b);
                    } else {
                        let a = choose|a: int| 0 <= a < old_picked.len() && old_picked[a] == b;
                        assert(picked[a] == b);
                    }
                }
            }
        } else {
            proof {
                assert forall|b: int| 0 <= b < i + 1 && !has_window(windows@, (#[trigger] ids@[b]).key()) implies exists|a: int| 0 <= a < picked.len() && picked[a] == b by {
                    if b == i {
                        assert(has_window(windows@, ids@[b].key()));
                    }
                }
            }
        }
        i = i + 1;
    }
    assert forall|e: u64| ecs.entities().contains(e) && !has_window(windows@, e) implies exists|a: int| 0 <= a < r@.len() && (#[trigger] r@[a]).key() == e by {
        let b = choose|b: int| 0 <= b < ids@.len() && (#[trigger] ids@[b]).key() == e;
        let a = choose|a: int| 0 <= a < picked.len() && picked[a] == b;
        assert(r@[a].key() == e);
    }
    assert forall|a: int| 0 <= a < r@.len() implies ecs.entities().contains(#[trigger] r@[a].key()) && !has_window(windows@, r@[a].key()) by {
        assert(r@[a] == ids@[picked[a]]);
    }
    assert forall|a: int, c: int| 0 <= a < c < r@.len() implies (#[trigger] r@[a]).key() != (#[trigger] r@[c]).key() by {
        assert(picked[a] < picked[c]);
        assert(key_slot(ids@[picked[a]].key()) < key_slot(ids@[picked[c]].key()));
    }
    r
}

/// The editor of one component of an entity, as text.
pub struct ComponentCollapsible<C> {
    pub entity_id: EntityId,
    pub text: String,
    pub is_being_edited: bool,
    pub _component: PhantomData<C>,
}

impl<C> ComponentCollapsible<C> {
    /// An editor for the entity's component, not being edited.
    pub fn new(entity_id: EntityId) -> (c: Self)
        ensures
            c.entity_id == entity_id,
            c.text@ == Seq::<char>::empty(),
            !c.is_being_edited,
    {
        ComponentCollapsible { entity_id, text: String::new(), is_being_edited: false, _component: PhantomData }
    }
}

/// A read-only view of one component of an entity.
pub struct ImmutableComponentCollapsible<C> {
    pub entity_id: EntityId,
    pub _component: PhantomData<C>,
}

impl<C> ImmutableComponentCollapsible<C> {
    /// A view of the entity's component.
    pub fn new(entity_id: EntityId) -> (c: Self)
        ensures
            c.entity_id == entity_id,
    {
        ImmutableComponentCollapsible { entity_id, _component: PhantomData }
    }
}

/// Whether text `a` comes before text `b` in the order of `str`: compared
/// character by character by code point, a proper prefix first.
pub open spec fn text_lt(a: Seq<char>, b: Seq<char>) -> bool
    decreases a.len(),
{
    if a.len() == 0 {
        b.len() > 0
    } else if b.len() == 0 {
        false
    } else if a[0] != b[0] {
        (a[0] as u32) < (b[0] as u32)
    } else {
        text_lt(a.drop_first(), b.drop_first())
    }
}

/// The (name, value) entries as plain values.
pub open spec fn entry_views(s: Seq<(String, i32)>) -> Seq<(Seq<char>, i32)> {
    s.map_values(|e: (String, i32)| (e.0@, e.1))
}

/// The entries whose name contains `filter`, in their order.
pub open spec fn visible_entries(s: Seq<(String, i32)>, filter: Seq<char>) -> Seq<(Seq<char>, i32)> {
    entry_views(s).filter(|e: (Seq<char>, i32)| contains_spec(e.0, filter))
}

/// No entry's name comes before the name of an entry ahead of it.
pub open spec fn names_ascending(s: Seq<(String, i32)>) -> bool {
    forall|i: int, j: int| 0 <= i < j < s.len() ==> !text_lt((#[trigger] s[j]).0@, (#[trigger] s[i]).0@)
}

/// Sorts (name, value) entries with `Itertools::sorted`, which sorts by the
/// entries' `Ord` (name first): the same entries, names ascending.
#[verifier::external_body]
fn sorted_entries(v: Vec<(String, i32)>) -> (r: Vec<(String, i32)>)
    ensures
        entry_views(r@).to_multiset() == entry_views(v@).to_multiset(),
        names_ascending(r@),
{
    v.into_iter().sorted().collect()
}

/// The story variable list, its filter and the variable being edited.
pub struct StoryVarsWindow {
    pub open: bool,
    pub filter_string: String,
    pub var_being_edited: Option<String>,
    pub edit_text: String,
}

impl StoryVarsWindow {
    /// A closed window, nothing being edited.
    pub fn new() -> (w: StoryVarsWindow)
        ensures
            !w.open,
            w.filter_string@ == Seq::<char>::empty(),
            w.var_being_edited is None,
            w.edit_text@ == Seq::<char>::empty(),
    {
        StoryVarsWindow { open: false, filter_string: String::new(), var_being_edited: None, edit_text: String::new() }
    }

    /// Whether a variable is listed: its name contains the filter.
    pub fn shows(&self, key: &str) -> (b: bool)
        ensures
            b == contains_spec(key@, self.filter_string@),
    {
        contains(key, self.filter_string.as_str())
    }

    /// The variables the window lists: those whose name contains the
    /// filter, by name.
    pub fn visible_vars(&self, story_vars: &StoryVars) -> (r: Vec<(String, i32)>)
        ensures
            entry_views(r@).to_multiset() == visible_entries(story_vars.vars@, self.filter_string@).to_multiset(),
            names_ascending(r@),
    {
        let ghost pred = |e: (Seq<char>, i32)| contains_spec(e.0, self.filter_string@);
        let mut kept: Vec<(String, i32)> = Vec::new();
        let mut i: usize = 0;
        while i < story_vars.vars.len()
            invariant
                i <= story_vars.vars@.len(),
                pred == (|e: (Seq<char>, i32)| contains_spec(e.0, self.filter_string@)),
                entry_views(kept@) == entry_views(story_vars.vars@.take(i as int)).filter(pred),
            decreases story_vars.vars@.len() - i,
        {
            let entry = &story_vars.vars[i];
            let ghost before = entry_views(story_vars.vars@.take(i as int));
            let ghost e = (entry.0@, entry.1);
            proof {
                assert(entry_views(story_vars.vars@.take(i as int + 1)) =~= before.push(e));
                reveal(Seq::filter);
                assert(before.push(e).drop_last() =~= before);
            }
            if contains(entry.0.as_str(), self.filter_string.as_str()) {
                let name = entry.0.clone();
                let ghost kept_before = kept@;
                kept.push((name, entry.1));
                proof {
                    assert(entry_views(kept@) =~= entry_views(kept_before).push(e));
                }
            }
            i = i + 1;
        }
        proof {
            assert(story_vars.vars@.take(story_vars.vars@.len() as int) =~= story_vars.vars@);
        }
        sorted_entries(kept)
    }

    /// Starts editing a variable: the edit text begins as its value.
    pub fn begin_edit(&mut self, key: &String, val: i32)
        ensures
            final(self).var_being_edited matches Some(k) && k@ == key@,
            final(self).edit_text@ == decimal(val as int),
            final(self).open == old(self).open,
            final(self).filter_string == old(self).filter_string,
    {
        self.var_being_edited = Some(key.clone());
        self.edit_text = i32_to_string(val);
    }

    /// Stops editing without a change.
    pub fn cancel_edit(&mut self)
        ensures
            final(self).var_being_edited is None,
            final(self).edit_text@ == Seq::<char>::empty(),
            final(self).open == old(self).open,
            final(self).filter_string == old(self).filter_string,
    {
        self.var_being_edited = None;
        self.edit_text = String::new();
    }

    /// Stops editing; the variable takes the edit text's value if the text
    /// is a valid `i32`, and keeps its value otherwise.
    pub fn save_edit(&mut self, story_vars: &mut StoryVars)
        requires
            old(story_vars).wf(),
        ensures
            final(story_vars).wf(),
            final(story_vars)@ == match (old(self).var_being_edited, parse_i32_value(old(self).edit_text@)) {
                (Some(k), Some(v)) => if old(story_vars)@.dom().contains(k@) { old(story_vars)@.insert(k@, v) } else { old(story_vars)@ },
                _ => old(story_vars)@,
            },
            final(self).var_being_edited is None,
            final(self).edit_text@ == Seq::<char>::empty(),
            final(self).open == old(self).open,
            final(self).filter_string == old(self).filter_string,
    {
        match &self.var_being_edited {
            Some(k) => match parse_i32(self.edit_text.as_str()) {
                Some(v) => story_vars.set(k.as_str(), v),
                None => {},
            },
            None => {},
        }
        self.var_being_edited = None;
        self.edit_text = String::new();
    }
}

/// Saving an edit that was left as it began gives the variable back the
/// value it had: the text an edit starts from (`begin_edit`) reads back
/// (`save_edit`) as that value, so the variables stay as they were.
pub proof fn law_unchanged_edit_keeps_value(vars: Map<Seq<char>, i32>, key: Seq<char>)
    requires
        vars.dom().contains(key),
    ensures
        parse_i32_value(decimal(vars[key] as int)) == Some(vars[key]),
        vars.insert(key, vars[key]) == vars,
{
    lemma_decimal_reads_back(vars[key]);
    assert(vars.insert(key, vars[key]) =~= vars);
}

/// A key the console's input line reacts to.
#[derive(Clone, Copy, Debug, PartialEq, Eq, Structural)]
pub enum ConsoleKey {
    Up,
    Down,
    Enter,
    Other,
}

/// The console's input line, the commands entered before (most recent
/// first), and which of them is shown while scrolling through them.
pub struct InputPanel {
    pub input_text: String,
    pub input_history: Vec<String>,
    pub history_cursor: Option<usize>,
}

/// The texts of a list of strings.
pub open spec fn texts(v: Seq<String>) -> Seq<Seq<char>> {
    v.map_values(|s: String| s@)
}

impl InputPanel {
    /// The history cursor points into the history.
    pub open spec fn wf(&self) -> bool {
        self.history_cursor matches Some(i) ==> i < self.input_history@.len()
    }

    /// An empty input line and history.
    pub fn new() -> (p: InputPanel)
        ensures
            p.wf(),
            p.input_text@ == Seq::<char>::empty(),
            p.input_history@.len() == 0,
            p.history_cursor is None,
    {
        InputPanel { input_text: String::new(), input_history: Vec::new(), history_cursor: None }
    }

    /// The history entry being shown, if the history is being scrolled.
    pub fn shown_history_text(&self) -> (r: Option<String>)
        requires
            self.wf(),
        ensures
            match self.history_cursor {
                Some(i) => r matches Some(t) && t@ == self.input_history@[i as int]@,
                None => r is None,
            },
    {
        match self.history_cursor {
            Some(i) => Some(self.input_history[i].clone()),
            None => None,
        }
    }

    /// Handles a key: up and down scroll the history (up to older entries);
    /// any other key stops scrolling and takes the shown entry `shown` (as
    /// shown when the frame began) as the input; Enter then echoes the input
    /// to the scrollback, moves it to the front of the history (dropping
    /// equal entries) and returns it as the command to run, clearing the
    /// line.
    pub fn on_key(&mut self, key: ConsoleKey, shown: &Option<String>, scrollback: &mut String) -> (command: Option<String>)
        requires
            old(self).wf(),
        ensures
            final(self).wf(),
            key == ConsoleKey::Up ==> {
                &&& final(self).history_cursor == match old(self).history_cursor {
                    Some(i) => if i + 1 < old(self).input_history@.len() { Some((i + 1) as usize) } else { Some(i) },
                    None => if old(self).input_history@.len() > 0 { Some(0usize) } else { None },
                }
                &&& final(self).input_text == old(self).input_text
                &&& final(self).input_history == old(self).input_history
                &&& *final(scrollback) == *old(scrollback)
                &&& command is None
            },
            key == ConsoleKey::Down ==> {
                &&& final(self).history_cursor == match old(self).history_cursor {
                    Some(i) => if i > 0 { Some((i - 1) as usize) } else { None },
                    None => None,
                }
                &&& final(self).input_text == old(self).input_text
                &&& final(self).input_history == old(self).input_history
                &&& *final(scrollback) == *old(scrollback)
                &&& command is None
            },
            key == ConsoleKey::Other ==> {
                &&& final(self).history_cursor is None
                &&& final(self).input_text@ == (match *shown { Some(t) => t@, None => old(self).input_text@ })
                &&& final(self).input_history == old(self).input_history
                &&& *final(scrollback) == *old(scrollback)
                &&& command is None
            },
            key == ConsoleKey::Enter ==> {
                let entered = match *shown { Some(t) => t@, None => old(self).input_text@ };
                &&& final(self).history_cursor is None
                &&& final(self).input_text@ == Seq::<char>::empty()
                &&& texts(final(self).input_history@) == seq![entered] + texts(old(self).input_history@).filter(|s: Seq<char>| s != entered)
                &&& final(scrollback)@ == scrollback_pushed(old(scrollback)@, "> "@ + entered)
                &&& command matches Some(c) && c@ == entered
            },
    {
        match key {
            ConsoleKey::Up => {
                self.history_cursor = match self.history_cursor {
                    Some(i) => {
                        assert(i < self.input_history.len());
                        if i + 1 < self.input_history.len() { Some(i + 1) } else { Some(i) }
                    },
                    None => if self.input_history.len() > 0 { Some(0) } else { None },
                };
                None
            },
            ConsoleKey::Down => {
                self.history_cursor = match self.history_cursor {
                    Some(i) => if i > 0 { Some(i - 1) } else { None },
                    None => None,
                };
                None
            },
            ConsoleKey::Other => {
                match shown {
                    Some(t) => {
                        self.input_text = t.clone();
                    },
                    None => {},
                }
                self.history_cursor = None;
                None
            },
            ConsoleKey::Enter => {
                match shown {
                    Some(t) => {
                        self.input_text = t.clone();
                    },
                    None => {},
                }
                self.history_cursor = None;
                let mut echo = String::from_str("> ");
                echo.append(self.input_text.as_str());
                ConsoleWindow::push_to_scrollback(scrollback, echo.as_str());
                let entered = self.input_text.clone();
                let ghost e = entered@;
                let ghost pred = |s: Seq<char>| s != e;
                let ghost old_h = texts(self.input_history@);
                let mut history: Vec<String> = Vec::new();
                history.push(entered.clone());
                let mut i: usize = 0;
                while i < self.input_history.len()
                    invariant
                        old_h == texts(self.input_history@),
                        e == entered@,
                        pred == (|s: Seq<char>| s != e),
                        i <= self.input_history@.len(),
                        texts(history@) == seq![e] + old_h.take(i as int).filter(pred),
                    decreases self.input_history@.len() - i,
                {
                    let ghost before = texts(history@);
                    let keep = !crate::text::str_eq(self.input_history[i].as_str(), entered.as_str());
                    if keep {
                        history.push(self.input_history[i].clone());
                    }
                    proof {
                        reveal(Seq::filter);
                        let t = old_h.take(i + 1);
                        assert(t.drop_last() =~= old_h.take(i as int));
                        assert(t.last() == self.input_history@[i as int]@);
                        assert(t.filter(pred) == (if pred(t.last()) { t.drop_last().filter(pred).push(t.last()) } else { t.drop_last().filter(pred) }));
                        if keep {
                            assert(texts(history@) =~= before.push(self.input_history@[i as int]@));
                        }
                        assert(texts(history@) =~= seq![e] + old_h.take(i + 1).filter(pred));
                    }
                    i = i + 1;
                }
                assert(old_h.take(self.input_history@.len() as int) =~= old_h);
                self.input_history = history;
                self.input_text = String::new();
                Some(entered)
            },
        }
    }
}

/// The scrollback after a line is added: on a new line unless it was empty.
pub open spec fn scrollback_pushed(scrollback: Seq<char>, line: Seq<char>) -> Seq<char> {
    if scrollback.len() == 0 {
        line
    } else {
        scrollback + "\n"@ + line
    }
}

/// The developer console window: its input line and the text shown above it.
pub struct ConsoleWindow {
    pub open: bool,
    pub input_panel: InputPanel,
    pub scrollback: String,
}

impl ConsoleWindow {
    /// A closed console with nothing entered.
    pub fn new() -> (w: ConsoleWindow)
        ensures
            !w.open,
            w.input_panel.wf(),
            w.input_panel.input_text@ == Seq::<char>::empty(),
            w.input_panel.input_history@.len() == 0,
            w.input_panel.history_cursor is None,
            w.scrollback@ == Seq::<char>::empty(),
    {
        ConsoleWindow { open: false, input_panel: InputPanel::new(), scrollback: String::new() }
    }

    /// Adds a line to the scrollback, on a new line unless it is empty.
    pub fn push_to_scrollback(scrollback: &mut String, str: &str)
        ensures
            final(scrollback)@ == scrollback_pushed(old(scrollback)@, str@),
    {
        if !scrollback.as_str().is_empty() {
            scrollback.append("\n");
        }
        scrollback.append(str);
    }
}

/// The index just after the `k`-th line break of `s` (the start of line
/// `k`, counting from 0), or the length if there are fewer line breaks.
pub open spec fn line_start(s: Seq<char>, k: nat) -> int
    decreases k,
{
    if k == 0 {
        0
    } else {
        let p = line_start(s, (k - 1) as nat);
        if p >= s.len() || line_end(s, p) >= s.len() {
            s.len() as int
        } else {
            line_end(s, p) + 1
        }
    }
}


proof fn lemma_line_start_bound(s: Seq<char>, k: nat)
    ensures
        0 <= line_start(s, k) <= s.len(),
    decreases k,
{
    if k > 0 {
        lemma_line_start_bound(s, (k - 1) as nat);
        let p = line_start(s, (k - 1) as nat);
        if p < s.len() {
            crate::script::lemma_line_end(s, p);
        }
    }
}

/// The start of line `k` of `s` (see `line_start`).
fn line_start_index(s: &Vec<char>, k: usize) -> (p: usize)
    ensures
        p == line_start(s@, k as nat),
{
    let mut p: usize = 0;
    let mut j: usize = 0;
    while j < k
        invariant
            j <= k,
            p == line_start(s@, j as nat),
        decreases k - j,
    {
        proof {
            lemma_line_start_bound(s@, j as nat);
        }
        if p < s.len() {
            let mut e: usize = p;
            while e < s.len() && s[e] != '\n'
                invariant
                    p <= e <= s@.len(),
                    line_end(s@, p as int) == line_end(s@, e as int),
                decreases s@.len() - e,
            {
                e = e + 1;
            }
            if e < s.len() {
                p = e + 1;
            } else {
                p = s.len();
            }
        }
        j = j + 1;
    }
    p
}

/// A script's source around the line it stopped at (counting from 1): the
/// lines before it, the line itself, and the lines after it, each line
/// keeping its line break.
pub fn split_at_line(source: &str, line: usize) -> (r: (String, String, String))
    requires
        line >= 1,
    ensures
        ({
            let s = source@;
            let a = line_start(s, (line - 1) as nat);
            let b = line_start(s, line as nat);
            &&& r.0@ == s.subrange(0, a)
            &&& r.1@ == s.subrange(a, b)
            &&& r.2@ == s.subrange(b, s.len() as int)
        }),
{
    let s = chars_of(source);
    let a = line_start_index(&s, line - 1);
    let b = line_start_index(&s, line);
    proof {
        lemma_line_start_bound(s@, (line - 1) as nat);
        assert(line as nat == ((line - 1) as nat + 1) as nat);
        crate::script::lemma_line_end(s@, a as int);
    }
    let mut before: Vec<char> = Vec::new();
    let mut current: Vec<char> = Vec::new();
    let mut after: Vec<char> = Vec::new();
    let mut i: usize = 0;
    while i < s.len()
        invariant
            a <= b <= s@.len(),
            i <= s@.len(),
            before@ == s@.subrange(0, if i < a { i as int } else { a as int }),
            current@ == s@.subrange(a as int, if i < a { a as int } else if i < b { i as int } else { b as int }),
            after@ == s@.subrange(b as int, if i < b { b as int } else { i as int }),
        decreases s@.len() - i,
    {
        if i < a {
            before.push(s[i]);
        } else if i < b {
            current.push(s[i]);
        } else {
            after.push(s[i]);
        }
        i = i + 1;
        assert(before@ =~= s@.subrange(0, if i < a { i as int } else { a as int }));
        assert(current@ =~= s@.subrange(a as int, if i < a { a as int } else if i < b { i as int } else { b as int }));
        assert(after@ =~= s@.subrange(b as int, if i < b { b as int } else { i as int }));
    }
    (string_from_chars(&before), string_from_chars(&current), string_from_chars(&after))
}


proof fn lemma_filter_from(h: Seq<Seq<char>>, pred: spec_fn(Seq<char>) -> bool, x: Seq<char>)
    requires
        h.filter(pred).contains(x),
    ensures
        h.contains(x),
        pred(x),
    decreases h.len(),
{
    reveal(Seq::filter);
    if h.len() > 0 {
        let f = h.drop_last().filter(pred);
        if f.contains(x) {
            lemma_filter_from(h.drop_last(), pred, x);
            let i = choose|i: int| 0 <= i < h.drop_last().len() && h.drop_last()[i] == x;
            assert(h[i] == x);
        } else {
            assert(h.filter(pred) == f.push(h.last()));
            let i = choose|i: int| 0 <= i < h.filter(pred).len() && h.filter(pred)[i] == x;
            assert(i == f.len());
            assert(h[h.len() - 1] == x);
        }
    }
}

proof fn lemma_filter_distinct(h: Seq<Seq<char>>, pred: spec_fn(Seq<char>) -> bool)
    requires
        h.no_duplicates(),
    ensures
        h.filter(pred).no_duplicates(),
    decreases h.len(),
{
    reveal(Seq::filter);
    if h.len() > 0 {
        let d = h.drop_last();
        assert(d.no_duplicates()) by {
            assert forall|i: int, j: int| 0 <= i < d.len() && 0 <= j < d.len() && i != j implies d[i] != d[j] by {
                assert(d[i] == h[i] && d[j] == h[j]);
            }
        }
        lemma_filter_distinct(d, pred);
        let f = d.filter(pred);
        if pred(h.last()) {
            assert(!f.contains(h.last())) by {
                if f.contains(h.last()) {
                    lemma_filter_from(d, pred, h.last());
                    let i = choose|i: int| 0 <= i < d.len() && d[i] == h.last();
                    assert(h[i] == h[h.len() - 1]);
                }
            }
            let g = f.push(h.last());
            assert forall|i: int, j: int| 0 <= i < g.len() && 0 <= j < g.len() && i != j implies g[i] != g[j] by {
                if i == f.len() {
                    assert(f.contains(g[j]));
                } else if j == f.len() {
                    assert(f.contains(g[i]));
                }
            }
        }
    }
}

/// The console history never holds a command twice: entering a command
/// puts it first and drops its earlier copies.
pub proof fn law_history_stays_distinct(h: Seq<Seq<char>>, entered: Seq<char>)
    requires
        h.no_duplicates(),
    ensures
        (seq![entered] + h.filter(|s: Seq<char>| s != entered)).no_duplicates(),
        (seq![entered] + h.filter(|s: Seq<char>| s != entered))[0] == entered,
{
    let pred = |s: Seq<char>| s != entered;
    lemma_filter_distinct(h, pred);
    let f = h.filter(pred);
    let g = seq![entered] + f;
    assert forall|i: int, j: int| 0 <= i < g.len() && 0 <= j < g.len() && i != j implies g[i] != g[j] by {
        if i == 0 {
            assert(g[j] == f[j - 1]);
            assert(f.contains(f[j - 1]));
            lemma_filter_from(h, pred, f[j - 1]);
        } else if j == 0 {
            assert(g[i] == f[i - 1]);
            assert(f.contains(f[i - 1]));
            lemma_filter_from(h, pred, f[i - 1]);
        } else {
            assert(g[i] == f[i - 1] && g[j] == f[j - 1]);
        }
    }
}

} // verus!
