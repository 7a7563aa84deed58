use crate::line::{render_row, scored, EntryView};
use crate::path::{path_text, DirPath};
use crate::rank::{insert_ranked, lemma_insert_ranked, lemma_sort_ranked, rescore_views, sort_ranked};
use crate::store::{is_visible_count, EntryStore};
use crate::text::{pop_char, push_char};
use vstd::prelude::*;

verus! {

/// A key press, as the terminal reports it.
#[derive(Clone, Copy, Debug, PartialEq, Eq, Structural)]
pub enum Key {
    Char(char),
    Ctrl(char),
    Backspace,
    Other,
}

/// What one key press asks of the session.
#[derive(Clone, Copy, Debug, PartialEq, Eq, Structural)]
pub enum Command {
    Insert(char),
    Erase,
    Confirm,
    Interrupt,
    Ignore,
}

/// Ctrl-C interrupts, backspace erases, return and tab confirm, any other
/// character is inserted into the query, and every other key is ignored.
pub open spec fn command_spec(key: Key) -> Command {
    match key {
        Key::Ctrl(c) => if c == 'c' {
            Command::Interrupt
        } else {
            Command::Ignore
        },
        Key::Backspace => Command::Erase,
        Key::Char(c) => if c == '\n' || c == '\t' {
            Command::Confirm
        } else {
            Command::Insert(c)
        },
        Key::Other => Command::Ignore,
    }
}

/// Maps one key press to the command it stands for.
pub fn command_of(key: Key) -> (r: Command)
    ensures
        r == command_spec(key),
{
    match key {
        Key::Ctrl(c) => if c == 'c' {
            Command::Interrupt
        } else {
            Command::Ignore
        },
        Key::Backspace => Command::Erase,
        Key::Char(c) => if c == '\n' || c == '\t' {
            Command::Confirm
        } else {
            Command::Insert(c)
        },
        Key::Other => Command::Ignore,
    }
}

/// The abstract value of an action.
pub enum ActionView {
    Nothing,
    Redraw,
    Resolve { base: Seq<Seq<char>>, subpath: Seq<char> },
    StartFeed { dir: Seq<Seq<char>>, generation: int },
    Quit,
}

/// What the session asks of its surroundings after a step.
pub enum Action {
    /// Nothing changed.
    Nothing,
    /// The query or the entries changed: draw again.
    Redraw,
    /// Resolve `base` joined with `subpath` to a canonical directory and,
    /// if that succeeds, hand it to `Session::enter`.
    Resolve { base: DirPath, subpath: String },
    /// Start enumerating `dir`, tagging every line with `generation`.
    StartFeed { dir: DirPath, generation: u64 },
    /// End the session.
    Quit,
}

impl View for Action {
    type V = ActionView;

    open spec fn view(&self) -> ActionView {
        match self {
            Action::Nothing => ActionView::Nothing,
            Action::Redraw => ActionView::Redraw,
            Action::Resolve { base, subpath } => ActionView::Resolve { base: base@, subpath: subpath@ },
            Action::StartFeed { dir, generation } => ActionView::StartFeed {
                dir: dir@,
                generation: *generation as int,
            },
            Action::Quit => ActionView::Quit,
        }
    }
}

/// The abstract value of a session.
pub struct SessionView {
    pub dir: Seq<Seq<char>>,
    pub query: Seq<char>,
    pub entries: Seq<EntryView>,
    pub generation: int,
}

/// The session after a move to `dir`: no entries, an empty query, and the
/// next generation.
pub open spec fn moved_to(s: SessionView, dir: Seq<Seq<char>>) -> SessionView {
    SessionView { dir, query: Seq::empty(), entries: Seq::empty(), generation: s.generation + 1 }
}

/// The session after the query became `q`: every entry rescored and sorted.
pub open spec fn with_query(s: SessionView, q: Seq<char>) -> SessionView {
    SessionView { query: q, entries: sort_ranked(rescore_views(s.entries, q)), ..s }
}

/// A move to `dir`, with the enumeration that it starts.
pub open spec fn enter_step(s: SessionView, dir: Seq<Seq<char>>) -> (SessionView, ActionView) {
    (moved_to(s, dir), ActionView::StartFeed { dir, generation: s.generation + 1 })
}

/// A move to the parent directory; nothing at the root.
pub open spec fn ascend_step(s: SessionView) -> (SessionView, ActionView) {
    if s.dir.len() == 0 {
        (s, ActionView::Nothing)
    } else {
        enter_step(s, s.dir.drop_last())
    }
}

/// One key press.
pub open spec fn key_step(s: SessionView, key: Key) -> (SessionView, ActionView) {
    match command_spec(key) {
        Command::Insert(c) => (with_query(s, s.query.push(c)), ActionView::Redraw),
        Command::Erase => if s.query.len() > 0 {
            (with_query(s, s.query.drop_last()), ActionView::Redraw)
        } else {
            ascend_step(s)
        },
        Command::Confirm => if s.query.len() == 0 {
            (s, ActionView::Nothing)
        } else {
            (s, ActionView::Resolve { base: s.dir, subpath: s.query })
        },
        Command::Interrupt => (s, ActionView::Quit),
        Command::Ignore => (s, ActionView::Nothing),
    }
}

/// One enumerated line tagged with `generation`: kept only when the tag is
/// the session's current generation.
pub open spec fn line_step(s: SessionView, generation: int, text: Seq<char>) -> SessionView {
    if generation == s.generation {
        SessionView {
            entries: insert_ranked(s.entries, scored(text, s.query, s.entries.len())),
            ..s
        }
    } else {
        s
    }
}

/// The navigation session: current directory, query, entries, and the
/// generation of the enumeration whose lines are accepted.
pub struct Session {
    dir: DirPath,
    store: EntryStore,
    generation: u64,
}

impl View for Session {
    type V = SessionView;

    closed spec fn view(&self) -> SessionView {
        SessionView {
            dir: self.dir@,
            query: self.store@.query,
            entries: self.store@.entries,
            generation: self.generation as int,
        }
    }
}

impl Session {
    pub closed spec fn wf(&self) -> bool {
        self.store.wf()
    }

    /// A session in `dir` with an empty query and no entries, at generation 1.
    pub fn new(dir: DirPath) -> (r: Session)
        ensures
            r.wf(),
            r@ == (SessionView { dir: dir@, query: Seq::empty(), entries: Seq::empty(), generation: 1 }),
    {
        let r = Session { dir, store: EntryStore::new(), generation: 1 };
        assert(r@.query =~= Seq::<char>::empty());
        assert(r@.entries =~= Seq::<EntryView>::empty());
        r
    }

    /// The current directory.
    pub fn dir(&self) -> (r: &DirPath)
        ensures
            r@ == self@.dir,
    {
        &self.dir
    }

    /// The current generation.
    pub fn generation(&self) -> (r: u64)
        ensures
            r as int == self@.generation,
    {
        self.generation
    }

    /// The entry store.
    pub fn store(&self) -> (r: &EntryStore)
        requires
            self.wf(),
        ensures
            r.wf(),
            r@.query == self@.query,
            r@.entries == self@.entries,
    {
        &self.store
    }

    /// The enumeration to run for the current directory and generation.
    pub fn feed(&self) -> (r: Action)
        ensures
            r@ == (ActionView::StartFeed { dir: self@.dir, generation: self@.generation }),
    {
        Action::StartFeed { dir: self.dir.duplicate(), generation: self.generation }
    }

    /// Moves to `dir`, a directory resolved by the caller: the entries and the
    /// query are cleared, the generation advances, and a new enumeration is
    /// asked for.
    pub fn enter(&mut self, dir: DirPath) -> (r: Action)
        requires
            old(self).wf(),
            old(self)@.generation < u64::MAX,
        ensures
            final(self).wf(),
            (final(self)@, r@) == enter_step(old(self)@, dir@),
    {
        self.generation = self.generation + 1;
        self.store.clear();
        let empty = String::new();
        self.store.rescore_all(empty.as_str());
        proof {
            let s = rescore_views(Seq::<EntryView>::empty(), Seq::<char>::empty());
            assert(s =~= Seq::<EntryView>::empty());
            assert(self@.entries =~= Seq::<EntryView>::empty());
            assert(self@.query =~= Seq::<char>::empty());
        }
        self.dir = dir;
        self.feed()
    }

    /// The prompt line: `> `, the directory, a space, and the query.
    pub fn prompt_line(&self) -> (r: String)
        requires
            self.wf(),
        ensures
            r@ == seq!['>', ' '] + path_text(self@.dir) + seq![' '] + self@.query,
    {
        let mut r = String::new();
        push_char(&mut r, '>');
        push_char(&mut r, ' ');
        let d = self.dir.to_text();
        r.append(d.as_str());
        push_char(&mut r, ' ');
        r.append(self.store.query());
        r
    }

    /// The rows to draw on `max_rows` rows of a terminal `term_width`
    /// columns wide: the leading matched entries in rank order, at most
    /// `max_rows` of them, each rendered with its matches highlighted.
    pub fn visible_rows(&self, max_rows: usize, term_width: usize) -> (r: Vec<String>)
        requires
            self.wf(),
        ensures
            is_visible_count(self@.entries, max_rows as nat, r@.len()),
            forall|i: int|
                0 <= i < r@.len() ==> (#[trigger] r@[i])@ == render_row(self@.entries[i], term_width as nat),
    {
        let shown = self.store.snapshot_visible(max_rows);
        let mut r: Vec<String> = Vec::new();
        let mut i: usize = 0;
        while i < shown.len()
            invariant
                i <= shown@.len(),
                r@.len() == i,
                forall|k: int|
                    0 <= k < i ==> (#[trigger] r@[k])@ == render_row(shown@[k]@, term_width as nat),
            decreases shown@.len() - i,
        {
            r.push(shown[i].display(term_width));
            i += 1;
        }
        r
    }

    /// Sets the query to `q` and rescores.
    fn set_query(&mut self, q: &str)
        requires
            old(self).wf(),
        ensures
            final(self).wf(),
            final(self)@ == with_query(old(self)@, q@),
    {
        self.store.rescore_all(q);
    }

    /// Handles one key press.
    pub fn handle_key(&mut self, key: Key) -> (r: Action)
        requires
            old(self).wf(),
            old(self)@.generation < u64::MAX,
        ensures
            final(self).wf(),
            (final(self)@, r@) == key_step(old(self)@, key),
    {
        match command_of(key) {
            Command::Insert(c) => {
                let mut q = String::from_str(self.store.query());
                push_char(&mut q, c);
                self.set_query(q.as_str());
                Action::Redraw
            },
            Command::Erase => {
                let mut q = String::from_str(self.store.query());
                match pop_char(&mut q) {
                    Some(_) => {
                        self.set_query(q.as_str());
                        Action::Redraw
                    },
                    None => match self.dir.parent() {
                        Some(p) => self.enter(p),
                        None => Action::Nothing,
                    },
                }
            },
            Command::Confirm => {
                let q = self.store.query();
                if q.is_empty() {
                    Action::Nothing
                } else {
                    Action::Resolve { base: self.dir.duplicate(), subpath: String::from_str(q) }
                }
            },
            Command::Interrupt => Action::Quit,
            Command::Ignore => Action::Nothing,
        }
    }

    /// Takes one enumerated line tagged with `generation`: appended when the
    /// tag is the current generation, dropped otherwise. Returns whether it
    /// was appended.
    pub fn accept_line(&mut self, generation: u64, line: String) -> (r: bool)
        requires
            old(self).wf(),
        ensures
            final(self).wf(),
            r == (generation == old(self)@.generation),
            final(self)@ == line_step(old(self)@, generation as int, line@),
    {
        if generation == self.generation {
            self.store.append(line);
            true
        } else {
            false
        }
    }
}

/// An event that reaches a session: a key press, a resolved directory to
/// move to, or an enumerated line with its generation tag.
pub enum Event {
    Press(Key),
    Enter(Seq<Seq<char>>),
    Line(int, Seq<char>),
}

/// The session after one event.
pub open spec fn step(s: SessionView, e: Event) -> SessionView {
    match e {
        Event::Press(key) => key_step(s, key).0,
        Event::Enter(dir) => enter_step(s, dir).0,
        Event::Line(generation, text) => line_step(s, generation, text),
    }
}

/// The session after a sequence of events, in order.
pub open spec fn run(s: SessionView, events: Seq<Event>) -> SessionView
    decreases events.len(),
{
    if events.len() == 0 {
        s
    } else {
        step(run(s, events.drop_last()), events.last())
    }
}

/// Every entry's text arrived as a line tagged with the current generation.
pub open spec fn entries_from_current(s: SessionView, events: Seq<Event>) -> bool {
    forall|i: int|
        0 <= i < s.entries.len() ==> exists|k: int|
            0 <= k < events.len() && #[trigger] events[k] == Event::Line(
                s.generation,
                (#[trigger] s.entries[i]).text,
            )
}

/// Generation isolation: starting with no entries, whatever directory moves,
/// key presses and tagged lines follow, every entry of the session holds a
/// line that was delivered tagged with the session's current generation; a
/// line of an earlier enumeration never stays.
pub proof fn lemma_generation_isolation(s: SessionView, events: Seq<Event>)
    requires
        s.entries.len() == 0,
    ensures
        entries_from_current(run(s, events), events),
    decreases events.len(),
{
    broadcast use vstd::seq_lib::group_to_multiset_ensures;

    if events.len() > 0 {
        let evs = events.drop_last();
        lemma_generation_isolation(s, evs);
        let p = run(s, evs);
        let e = events.last();
        let n = step(p, e);
        assert forall|i: int| 0 <= i < n.entries.len() implies exists|k: int|
            0 <= k < events.len() && #[trigger] events[k] == Event::Line(
                n.generation,
                (#[trigger] n.entries[i]).text,
            ) by {
            // an entry of `n` that was already an entry of `p` keeps its witness
            assert(forall|j: int| 0 <= j < p.entries.len() && p.entries[j].text == n.entries[i].text
                ==> exists|k: int| 0 <= k < events.len() && events[k] == Event::Line(
                p.generation,
                n.entries[i].text,
            )) by {
                assert forall|j: int| 0 <= j < p.entries.len() && p.entries[j].text == n.entries[i].text
                    implies exists|k: int| 0 <= k < events.len() && events[k] == Event::Line(
                    p.generation,
                    n.entries[i].text,
                ) by {
                    let k = choose|k: int| 0 <= k < evs.len() && #[trigger] evs[k] == Event::Line(
                        p.generation,
                        p.entries[j].text,
                    );
                    assert(events[k] == evs[k]);
                }
            }
            match e {
                Event::Press(key) => {
                    let q = n.query;
                    if n.generation == p.generation && n.entries != p.entries {
                        let r = rescore_views(p.entries, q);
                        assert(n.entries == sort_ranked(r));
                        lemma_sort_ranked(r);
                        assert(n.entries.contains(n.entries[i]));
                        assert(n.entries.to_multiset().count(n.entries[i]) > 0);
                        assert(r.contains(n.entries[i]));
                        let j = choose|j: int| 0 <= j < r.len() && r[j] == n.entries[i];
                        assert(r[j].text == p.entries[j].text);
                    } else if n.generation == p.generation {
                        assert(n.entries[i] == p.entries[i]);
                    }
                },
                Event::Enter(dir) => {},
                Event::Line(g, t) => {
                    if g == p.generation {
                        let x = scored(t, p.query, p.entries.len());
                        lemma_insert_ranked(p.entries, x);
                        assert(n.entries.contains(n.entries[i]));
                        assert(n.entries.to_multiset().count(n.entries[i]) > 0);
                        if n.entries[i] == x {
                            assert(events[events.len() - 1] == Event::Line(g, t));
                        } else {
                            assert(p.entries.to_multiset().count(n.entries[i]) > 0);
                            assert(p.entries.contains(n.entries[i]));
                        }
                    } else {
                        assert(n.entries[i] == p.entries[i]);
                    }
                },
            }
        }
    }
}

/// Round trip: moving down into a child of the current directory and then
/// erasing on the empty query (a move up) returns to the directory of the
/// start, two generations later and with no entries.
pub proof fn lemma_descend_then_ascend(s: SessionView, name: Seq<char>)
    ensures
        ({
            let down = enter_step(s, s.dir.push(name)).0;
            let up = key_step(down, Key::Backspace).0;
            up.dir == s.dir && up.generation == s.generation + 2 && up.entries.len() == 0
        }),
{
    assert(s.dir.push(name).drop_last() =~= s.dir);
}

} // verus!
