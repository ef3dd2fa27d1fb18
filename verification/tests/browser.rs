use kora::app::{App, Key, Mode};
use kora::host::{entry_macthes_query, Entry, Folder, Host};

fn host(name: &str, target: &str, description: &str) -> Entry {
    Entry::Host(Host {
        name: name.to_string(),
        target: target.to_string(),
        config: vec![format!("Host {}", name)],
        description: description.to_string(),
    })
}

fn folder(name: &str, children: Vec<Entry>) -> Entry {
    Entry::Folder(Folder { name: name.to_string(), children })
}

fn name_of(entry: &Entry) -> &str {
    match entry {
        Entry::Host(h) => &h.name,
        Entry::Folder(f) => &f.name,
    }
}

fn sample() -> Vec<Entry> {
    vec![
        host("alpha", "localhost", "first box"),
        folder(
            "work",
            vec![host("build", "ci.internal", ""), host("deploy", "localhost", "prod gate")],
        ),
        host("beta", "localhost", ""),
    ]
}

fn shown(app: &App) -> Vec<(usize, String)> {
    app.visible_entries().iter().map(|v| (v.depth, name_of(v.entry).to_string())).collect()
}

#[test]
fn empty_query_shows_every_entry_in_order() {
    let app = App::new(sample());
    assert_eq!(
        shown(&app),
        vec![
            (0, "alpha".to_string()),
            (0, "work".to_string()),
            (1, "build".to_string()),
            (1, "deploy".to_string()),
            (0, "beta".to_string()),
        ]
    );
}

#[test]
fn query_keeps_matching_entries_and_folder_content() {
    let mut app = App::new(sample());
    app.query = "dpl".to_string();
    assert_eq!(shown(&app), vec![(1, "deploy".to_string())]);
    app.query = "CI".to_string();
    assert_eq!(shown(&app), vec![(1, "build".to_string())]);
    app.query = "gate".to_string();
    assert_eq!(shown(&app), vec![(1, "deploy".to_string())]);
    app.query = "zzz".to_string();
    assert!(shown(&app).is_empty());
}

#[test]
fn shown_entries_all_match_the_query() {
    let mut app = App::new(sample());
    app.query = "a".to_string();
    for v in app.visible_entries() {
        assert!(entry_macthes_query(v.entry, "a"));
    }
    assert_eq!(shown(&app).len(), 4);
}

#[test]
fn entry_matching_uses_name_target_and_description() {
    let h = host("web", "example.org", "front end");
    assert!(entry_macthes_query(&h, "web"));
    assert!(entry_macthes_query(&h, "exorg"));
    assert!(entry_macthes_query(&h, "FRONT"));
    assert!(!entry_macthes_query(&h, "backend"));
    let f = folder("Servers", vec![h]);
    assert!(entry_macthes_query(&f, "srv"));
    assert!(!entry_macthes_query(&f, "web"));
}

#[test]
fn selected_entry_follows_the_list() {
    let mut app = App::new(sample());
    assert_eq!(name_of(app.selected_entry().unwrap()), "alpha");
    app.selected = 2;
    assert_eq!(name_of(app.selected_entry().unwrap()), "build");
    app.selected = 5;
    assert!(app.selected_entry().is_none());
}

#[test]
fn next_and_previous_wrap_around() {
    let mut app = App::new(sample());
    app.previous_entry();
    assert_eq!(app.selected, 4);
    app.next_entry();
    assert_eq!(app.selected, 0);
    app.next_entry();
    app.next_entry();
    assert_eq!(app.selected, 2);
    app.previous_entry();
    assert_eq!(app.selected, 1);
}

#[test]
fn next_then_previous_comes_back() {
    let mut app = App::new(sample());
    for start in 0..5 {
        app.selected = start;
        app.next_entry();
        app.previous_entry();
        assert_eq!(app.selected, start);
        app.previous_entry();
        app.next_entry();
        assert_eq!(app.selected, start);
    }
}

#[test]
fn moving_in_an_empty_list_does_nothing() {
    let mut app = App::new(Vec::new());
    app.selected = 3;
    app.next_entry();
    assert_eq!(app.selected, 3);
    app.previous_entry();
    assert_eq!(app.selected, 3);
}

#[test]
fn out_of_range_selection_moves_by_the_same_rules() {
    let mut app = App::new(sample());
    app.query = "beta".to_string();
    app.selected = 3;
    app.next_entry();
    assert_eq!(app.selected, 0);
    app.selected = 3;
    app.previous_entry();
    assert_eq!(app.selected, 2);
}

#[test]
fn connect_selected_takes_a_host_only() {
    let mut app = App::new(sample());
    app.selected = 1;
    app.connect_selected();
    assert!(!app.exit);
    assert!(app.connect_target.is_none());
    app.selected = 3;
    app.connect_selected();
    assert!(app.exit);
    assert_eq!(app.connect_target.as_deref(), Some("deploy"));
}

#[test]
fn connect_with_nothing_selected_does_nothing() {
    let mut app = App::new(Vec::new());
    app.connect_selected();
    assert!(!app.exit);
    assert!(app.connect_target.is_none());
}

#[test]
fn normal_mode_keys() {
    let mut app = App::new(sample());
    app.handle_key_event(Key::Down);
    assert_eq!(app.selected, 1);
    app.handle_key_event(Key::Char('j'));
    assert_eq!(app.selected, 2);
    app.handle_key_event(Key::Char('k'));
    app.handle_key_event(Key::Up);
    assert_eq!(app.selected, 0);
    app.handle_key_event(Key::Char(' '));
    app.handle_key_event(Key::Other);
    assert_eq!(app.mode, Mode::Normal);
    assert_eq!(app.query, "");
    app.handle_key_event(Key::Enter);
    assert_eq!(app.mode, Mode::Details);
    app.mode = Mode::Normal;
    app.handle_key_event(Key::Char('f'));
    assert_eq!(app.mode, Mode::Finder);
    assert_eq!(app.query, "");
    app.mode = Mode::Normal;
    app.handle_key_event(Key::Char('b'));
    assert_eq!(app.mode, Mode::Finder);
    assert_eq!(app.query, "b");
    assert!(!app.exit);
    app.mode = Mode::Normal;
    app.handle_key_event(Key::Char('q'));
    assert!(app.exit);
}

#[test]
fn finder_mode_keys() {
    let mut app = App::new(sample());
    app.mode = Mode::Finder;
    app.handle_key_event(Key::Char('q'));
    app.handle_key_event(Key::Char('j'));
    app.handle_key_event(Key::Char(' '));
    assert_eq!(app.query, "qj");
    assert!(!app.exit);
    assert_eq!(app.selected, 0);
    app.handle_key_event(Key::Backspace);
    assert_eq!(app.query, "q");
    app.handle_key_event(Key::Enter);
    assert_eq!(app.mode, Mode::Normal);
    assert_eq!(app.query, "q");
    app.mode = Mode::Finder;
    app.handle_key_event(Key::Esc);
    assert_eq!(app.mode, Mode::Normal);
    assert_eq!(app.query, "");
    app.mode = Mode::Finder;
    app.handle_key_event(Key::Backspace);
    assert_eq!(app.query, "");
    assert_eq!(app.mode, Mode::Finder);
}

#[test]
fn backspace_takes_back_typing() {
    let mut app = App::new(sample());
    app.mode = Mode::Finder;
    app.query = "de".to_string();
    app.handle_key_event(Key::Char('x'));
    assert_eq!(app.query, "dex");
    app.handle_key_event(Key::Backspace);
    assert_eq!(app.query, "de");
    assert_eq!(app.mode, Mode::Finder);
}

#[test]
fn details_mode_keys() {
    let mut app = App::new(sample());
    app.mode = Mode::Details;
    app.query = "be".to_string();
    app.handle_key_event(Key::Esc);
    assert_eq!(app.mode, Mode::Normal);
    assert_eq!(app.query, "");
    app.mode = Mode::Details;
    app.handle_key_event(Key::Char('f'));
    assert_eq!(app.mode, Mode::Finder);
    app.mode = Mode::Details;
    app.handle_key_event(Key::Char('z'));
    assert_eq!(app.mode, Mode::Finder);
    assert_eq!(app.query, "z");
    app.query = String::new();
    app.mode = Mode::Details;
    app.selected = 4;
    app.handle_key_event(Key::Enter);
    assert!(app.exit);
    assert_eq!(app.connect_target.as_deref(), Some("beta"));
}

#[test]
fn details_q_leaves_without_target() {
    let mut app = App::new(sample());
    app.mode = Mode::Details;
    app.handle_key_event(Key::Char('q'));
    assert!(app.exit);
    assert!(app.connect_target.is_none());
}

#[test]
fn highlight_marks_the_greedy_match() {
    let mut app = App::new(Vec::new());
    app.query = "Ac".to_string();
    assert_eq!(
        app.highlight_matches("abcac"),
        vec![('a', true), ('b', false), ('c', true), ('a', false), ('c', false)]
    );
    app.query = String::new();
    assert_eq!(app.highlight_matches("ab"), vec![('a', false), ('b', false)]);
    app.query = "zz".to_string();
    assert_eq!(app.highlight_matches("z"), vec![('z', true)]);
}

#[test]
fn labels_indent_two_spaces_per_level() {
    let entries = sample();
    let app = App::new(entries);
    let labels: Vec<String> = app.visible_entries().iter().map(|v| v.label()).collect();
    assert_eq!(labels, vec![" alpha", " work", "   build", "   deploy", " beta"]);
}

#[test]
fn well_formed_for_ordinary_states() {
    let mut app = App::new(sample());
    assert!(app.well_formed());
    app.selected = usize::MAX;
    assert!(!app.well_formed());
}

#[test]
fn a_query_filters_the_full_list() {
    let mut app = App::new(sample());
    let full: Vec<(usize, String)> = shown(&app);
    app.query = "e".to_string();
    let expected: Vec<(usize, String)> = app
        .visible_entries()
        .iter()
        .map(|v| (v.depth, name_of(v.entry).to_string()))
        .collect();
    let mut filtered = Vec::new();
    app.query = String::new();
    for v in app.visible_entries() {
        if entry_macthes_query(v.entry, "e") {
            filtered.push((v.depth, name_of(v.entry).to_string()));
        }
    }
    assert_eq!(expected, filtered);
    assert!(expected.len() < full.len());
}

#[test]
fn keys_keep_the_state_well_formed() {
    let mut app = App::new(sample());
    let keys = [
        Key::Down,
        Key::Char('x'),
        Key::Backspace,
        Key::Esc,
        Key::Up,
        Key::Up,
        Key::Enter,
        Key::Char('f'),
        Key::Char('d'),
        Key::Enter,
        Key::Down,
        Key::Other,
    ];
    for key in keys {
        app.handle_key_event(key);
        assert!(app.well_formed());
        assert_eq!(app.entries.len(), 3);
    }
}

#[test]
fn query_case_does_not_change_the_list() {
    let mut app = App::new(sample());
    app.query = "DePl".to_string();
    let upper = shown(&app);
    app.query = "depl".to_string();
    assert_eq!(upper, shown(&app));
    assert_eq!(upper.len(), 1);
}

#[test]
fn a_longer_query_narrows_the_list() {
    let mut app = App::new(sample());
    app.query = "e".to_string();
    let wide = shown(&app);
    app.query = "et".to_string();
    let narrow = shown(&app);
    let kept: Vec<(usize, String)> = wide
        .iter()
        .filter(|(_, name)| narrow.contains(&(0, name.clone())) || narrow.contains(&(1, name.clone())))
        .cloned()
        .collect();
    assert_eq!(kept, narrow);
    assert!(narrow.len() < wide.len());
}

#[test]
fn keys_accepted_at_the_largest_selection() {
    let mut app = App::new(sample());
    app.selected = usize::MAX;
    assert!(app.depth_fits());
    assert!(!app.accepts_key(Key::Down));
    assert!(!app.accepts_key(Key::Char('j')));
    assert!(app.accepts_key(Key::Up));
    assert!(app.accepts_key(Key::Char('q')));
    app.handle_key_event(Key::Up);
    assert_eq!(app.selected, usize::MAX - 1);
    app.mode = Mode::Finder;
    app.selected = usize::MAX;
    assert!(app.accepts_key(Key::Char('j')));
    app.handle_key_event(Key::Char('j'));
    assert_eq!(app.query, "j");
}

#[test]
fn cloned_entries_are_equal_copies() {
    let entries = sample();
    let copies: Vec<Entry> = entries.iter().map(|e| e.clone()).collect();
    let original = App::new(entries);
    let copy = App::new(copies);
    assert_eq!(shown(&original), shown(&copy));
    match &copy.entries[1] {
        Entry::Folder(f) => match &f.children[1] {
            Entry::Host(h) => {
                assert_eq!(h.target, "localhost");
                assert_eq!(h.description, "prod gate");
                assert_eq!(h.config, vec!["Host deploy".to_string()]);
            }
            _ => panic!("expected a host"),
        },
        _ => panic!("expected a folder"),
    }
}
