use fuzzy_nav::line::OutputLine;
use fuzzy_nav::path::DirPath;
use fuzzy_nav::rank::update_fuzz;
use fuzzy_nav::scorer::FuzzyScorer;
use fuzzy_nav::session::{command_of, Action, Command, Key, Session};
use fuzzy_nav::store::EntryStore;

fn path(parts: &[&str]) -> DirPath {
    DirPath::from_parts(parts.iter().map(|p| p.to_string()).collect())
}

fn texts(store: &EntryStore, rows: usize) -> Vec<String> {
    store
        .snapshot_visible(rows)
        .iter()
        .map(|e| e.text().to_string())
        .collect()
}

fn store_with(lines: &[&str]) -> EntryStore {
    let mut store = EntryStore::new();
    for l in lines {
        store.append(l.to_string());
    }
    store
}

#[test]
fn scoring_is_deterministic() {
    let m = FuzzyScorer::new();
    let a = OutputLine::new("src/main.rs".to_string(), &m, "mn");
    let b = OutputLine::new("src/main.rs".to_string(), &m, "mn");
    assert!(a.is_match());
    assert_eq!(a.score(), b.score());
    assert_eq!(a.indices(), b.indices());
    assert!(a.score() > 0);
}

#[test]
fn empty_query_scores_zero_with_no_positions() {
    let m = FuzzyScorer::new();
    let a = OutputLine::new("anything".to_string(), &m, "");
    assert!(a.is_match());
    assert_eq!(a.score(), 0);
    assert!(a.indices().is_empty());
}

#[test]
fn no_match_never_keeps_a_stale_score() {
    let m = FuzzyScorer::new();
    let mut a = OutputLine::new("apple.txt".to_string(), &m, "ap");
    assert!(a.is_match());
    assert!(a.score() > 0);
    assert_eq!(a.indices(), &vec![0, 1]);
    a.update(&m, "zz");
    assert!(!a.is_match());
    assert_eq!(a.score(), 0);
    assert!(a.indices().is_empty());
    assert_eq!(a.text(), "apple.txt");
}

#[test]
fn display_highlights_matched_characters() {
    let m = FuzzyScorer::new();
    let a = OutputLine::new("ab".to_string(), &m, "a");
    assert_eq!(a.display(80), "\x1b[38;5;1ma\x1b[39mb\n");
    assert_eq!(a.display(1), "\x1b[38;5;1ma\n");
    assert_eq!(a.display(0), "\n");
}

#[test]
fn update_fuzz_rescores_and_sorts() {
    let m = FuzzyScorer::new();
    let mut v = vec![
        OutputLine::new("banana.txt".to_string(), &m, ""),
        OutputLine::new("apple.txt".to_string(), &m, ""),
    ];
    update_fuzz(&mut v, &m, "ap");
    assert_eq!(v[0].text(), "apple.txt");
    assert!(v[0].is_match());
    assert!(!v[1].is_match());
}

#[test]
fn scenario_query_ranks_the_best_match_first() {
    let mut store = store_with(&["apple.txt", "banana.txt", "grape.txt"]);
    store.rescore_all("ap");
    let shown = texts(&store, 10);
    assert_eq!(shown[0], "apple.txt");
    assert!(!shown.contains(&"banana.txt".to_string()));
    assert_eq!(store.len(), 3);
}

#[test]
fn scenario_no_match_leaves_no_visible_rows() {
    let mut store = store_with(&["apple.txt", "banana.txt", "grape.txt"]);
    store.rescore_all("xyz123");
    assert!(store.snapshot_visible(10).is_empty());
    let mut s = Session::new(DirPath::root());
    for l in ["apple.txt", "banana.txt"] {
        s.accept_line(1, l.to_string());
    }
    for c in "xyz123".chars() {
        s.handle_key(Key::Char(c));
    }
    assert!(s.visible_rows(10, 80).is_empty());
}

#[test]
fn equal_scores_keep_arrival_order() {
    let mut store = store_with(&["a1", "a2", "a3"]);
    store.rescore_all("a");
    assert_eq!(texts(&store, 10), vec!["a1", "a2", "a3"]);
    let shown = store.snapshot_visible(10);
    assert_eq!(shown[0].score(), shown[1].score());
}

#[test]
fn empty_query_restores_arrival_order_and_is_stable() {
    let mut store = store_with(&["zeta", "alpha", "beta"]);
    assert_eq!(texts(&store, 10), vec!["zeta", "alpha", "beta"]);
    store.rescore_all("al");
    assert_eq!(texts(&store, 10)[0], "alpha");
    store.rescore_all("");
    assert_eq!(texts(&store, 10), vec!["zeta", "alpha", "beta"]);
    store.rescore_all("");
    assert_eq!(texts(&store, 10), vec!["zeta", "alpha", "beta"]);
}

#[test]
fn snapshot_is_capped_by_rows() {
    let store = store_with(&["a", "b", "c"]);
    assert_eq!(texts(&store, 2), vec!["a", "b"]);
    assert!(texts(&store, 0).is_empty());
}

#[test]
fn clear_empties_the_store() {
    let mut store = store_with(&["a", "b"]);
    store.clear();
    assert_eq!(store.len(), 0);
}

#[test]
fn keys_map_to_commands() {
    assert_eq!(command_of(Key::Ctrl('c')), Command::Interrupt);
    assert_eq!(command_of(Key::Ctrl('d')), Command::Ignore);
    assert_eq!(command_of(Key::Backspace), Command::Erase);
    assert_eq!(command_of(Key::Char('\n')), Command::Confirm);
    assert_eq!(command_of(Key::Char('\t')), Command::Confirm);
    assert_eq!(command_of(Key::Char('x')), Command::Insert('x'));
    assert_eq!(command_of(Key::Other), Command::Ignore);
}

#[test]
fn typing_and_erasing_edit_the_query() {
    let mut s = Session::new(path(&["home"]));
    assert!(matches!(s.handle_key(Key::Char('a')), Action::Redraw));
    assert!(matches!(s.handle_key(Key::Char('b')), Action::Redraw));
    assert_eq!(s.store().query(), "ab");
    assert!(matches!(s.handle_key(Key::Backspace), Action::Redraw));
    assert_eq!(s.store().query(), "a");
    assert_eq!(s.generation(), 1);
}

#[test]
fn confirm_asks_to_resolve_the_query() {
    let mut s = Session::new(path(&["home"]));
    assert!(matches!(s.handle_key(Key::Char('\n')), Action::Nothing));
    s.handle_key(Key::Char('u'));
    match s.handle_key(Key::Char('\n')) {
        Action::Resolve { base, subpath } => {
            assert_eq!(base.parts(), &vec!["home".to_string()]);
            assert_eq!(subpath, "u");
        }
        _ => panic!("expected a resolve action"),
    }
    assert_eq!(s.store().query(), "u");
    assert_eq!(s.generation(), 1);
}

#[test]
fn interrupt_quits() {
    let mut s = Session::new(path(&["home"]));
    assert!(matches!(s.handle_key(Key::Ctrl('c')), Action::Quit));
}

#[test]
fn scenario_ascend_at_root_is_a_no_op() {
    let mut s = Session::new(DirPath::root());
    s.accept_line(1, "etc".to_string());
    assert!(matches!(s.handle_key(Key::Backspace), Action::Nothing));
    assert_eq!(s.generation(), 1);
    assert!(s.dir().is_root());
    assert_eq!(s.store().len(), 1);
}

#[test]
fn ascend_moves_to_parent_and_restarts_feed() {
    let mut s = Session::new(path(&["home", "u"]));
    s.accept_line(1, "notes".to_string());
    match s.handle_key(Key::Backspace) {
        Action::StartFeed { dir, generation } => {
            assert_eq!(dir.parts(), &vec!["home".to_string()]);
            assert_eq!(generation, 2);
        }
        _ => panic!("expected a new feed"),
    }
    assert_eq!(s.store().len(), 0);
    assert_eq!(s.generation(), 2);
}

#[test]
fn scenario_stale_line_is_dropped_after_descend() {
    let mut s = Session::new(path(&["home"]));
    for i in 0..5 {
        assert!(s.accept_line(1, format!("file{}", i)));
    }
    assert_eq!(s.store().len(), 5);
    s.handle_key(Key::Char('u'));
    let action = s.enter(path(&["home", "u"]));
    assert!(matches!(action, Action::StartFeed { generation: 2, .. }));
    assert_eq!(s.generation(), 2);
    assert_eq!(s.store().len(), 0);
    assert_eq!(s.store().query(), "");
    assert!(!s.accept_line(1, "file5".to_string()));
    assert_eq!(s.store().len(), 0);
    assert!(s.accept_line(2, "fresh".to_string()));
    assert_eq!(s.store().len(), 1);
}

#[test]
fn descend_then_ascend_returns_home() {
    let start = path(&["home"]);
    let mut s = Session::new(start.duplicate());
    s.enter(start.join("u".to_string()));
    s.handle_key(Key::Backspace);
    assert_eq!(s.dir().parts(), start.parts());
    assert_eq!(s.generation(), 3);
}

#[test]
fn prompt_shows_directory_and_query() {
    let mut s = Session::new(path(&["home", "u"]));
    s.handle_key(Key::Char('a'));
    assert_eq!(s.prompt_line(), "> /home/u a");
    let r = Session::new(DirPath::root());
    assert_eq!(r.prompt_line(), "> / ");
}

#[test]
fn visible_rows_render_matches() {
    let mut s = Session::new(DirPath::root());
    s.accept_line(1, "ab".to_string());
    s.accept_line(1, "cd".to_string());
    s.handle_key(Key::Char('a'));
    assert_eq!(s.visible_rows(10, 80), vec!["\x1b[38;5;1ma\x1b[39mb\n".to_string()]);
}

#[test]
fn path_parent_and_text() {
    let p = path(&["a", "b"]);
    assert_eq!(p.to_text(), "/a/b");
    let q = p.parent().unwrap();
    assert_eq!(q.to_text(), "/a");
    assert!(DirPath::root().parent().is_none());
    assert_eq!(DirPath::root().to_text(), "/");
}
