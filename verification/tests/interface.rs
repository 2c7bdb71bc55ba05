use taskui::document::Task;
use taskui::output::{classify_output_line, LineClass};
use taskui::select::{update, App, InputMode, Key, StatefulList, visible_tasks};
use taskui::text::{join_path, parent_dir, str_has_substring, str_le};

fn s(x: &str) -> String {
    x.to_string()
}

fn t(name: &str, internal: bool) -> Task {
    Task { name: s(name), body: s("body"), internal }
}

fn item_names(l: &StatefulList) -> Vec<String> {
    l.items.iter().map(|x| x.name.clone()).collect()
}

#[test]
fn output_lines_are_classified() {
    assert_eq!(classify_output_line("task \"build\" is up to date"), LineClass::UpToDate);
    assert_eq!(classify_output_line("task: Failed to run task \"x\""), LineClass::FailedTask);
    assert_eq!(classify_output_line("task: [build] cc main.c"), LineClass::RunnerNote);
    assert_eq!(classify_output_line("compiling..."), LineClass::Plain);
    assert_eq!(classify_output_line(""), LineClass::Plain);
}

#[test]
fn visibility_hides_internal_tasks_by_default() {
    let all = vec![t("a", false), t("b", true), t("c", false)];
    let shown = visible_tasks(&all, false);
    let names: Vec<String> = shown.iter().map(|x| x.name.clone()).collect();
    assert_eq!(names, vec![s("a"), s("c")]);
    let everything = visible_tasks(&all, true);
    assert_eq!(everything.len(), 3);
}

#[test]
fn selection_steps_down_and_wraps() {
    let mut l = StatefulList::with_items(vec![t("a", false), t("b", false), t("c", false)]);
    assert!(l.get_selected().is_none());
    l.next();
    assert_eq!(l.selected, Some(0));
    l.next();
    l.next();
    assert_eq!(l.selected, Some(2));
    l.next();
    assert_eq!(l.selected, Some(0));
    assert_eq!(l.get_selected().unwrap().name, s("a"));
}

#[test]
fn selection_steps_up_and_wraps() {
    let mut l = StatefulList::with_items(vec![t("a", false), t("b", false)]);
    l.previous();
    assert_eq!(l.selected, Some(0));
    l.previous();
    assert_eq!(l.selected, Some(1));
    l.previous();
    assert_eq!(l.selected, Some(0));
}

#[test]
fn stepping_an_empty_list_clears_the_selection() {
    let mut l = StatefulList::with_items(vec![]);
    l.next();
    assert!(l.selected.is_none());
    l.previous();
    assert!(l.selected.is_none());
}

#[test]
fn filtering_narrows_by_substring_and_selects_the_first_hit() {
    let mut l = StatefulList::with_items(vec![
        t("build", false),
        t("test:unit", false),
        t("test:e2e", false),
    ]);
    l.filter("test");
    assert_eq!(item_names(&l), vec![s("test:unit"), s("test:e2e")]);
    assert_eq!(l.selected, Some(0));
    l.filter("nothing-matches");
    assert!(l.items.is_empty());
    assert!(l.selected.is_none());
    l.filter("");
    assert_eq!(item_names(&l), vec![s("build"), s("test:unit"), s("test:e2e")]);
}

#[test]
fn quit_key_leaves_the_loop() {
    let mut app = App::new(false, vec![t("a", false)]);
    update(&mut app, Key::Char('q'));
    assert!(app.should_quit);
    assert!(app.task_to_exec.is_none());
}

#[test]
fn enter_picks_the_selected_task() {
    let mut app = App::new(false, vec![t("a", false), t("b", false)]);
    update(&mut app, Key::Enter);
    assert!(!app.should_quit);
    update(&mut app, Key::Down);
    update(&mut app, Key::Down);
    update(&mut app, Key::Enter);
    assert!(app.should_quit);
    assert_eq!(app.task_to_exec.unwrap().name, s("b"));
}

#[test]
fn search_mode_filters_as_typed() {
    let mut app = App::new(false, vec![t("build", false), t("bench", false), t("test", false)]);
    update(&mut app, Key::Char('/'));
    assert!(matches!(app.input_mode, InputMode::Search));
    update(&mut app, Key::Char('b'));
    update(&mut app, Key::Char('e'));
    assert_eq!(app.search, s("be"));
    assert_eq!(item_names(&app.tasks), vec![s("bench")]);
    update(&mut app, Key::Backspace);
    assert_eq!(app.search, s("b"));
    assert_eq!(item_names(&app.tasks), vec![s("build"), s("bench")]);
    update(&mut app, Key::Esc);
    assert_eq!(app.search, s(""));
    assert!(matches!(app.input_mode, InputMode::Select));
    assert_eq!(item_names(&app.tasks).len(), 3);
}

#[test]
fn preview_opens_on_a_selection_and_closes_again() {
    let mut app = App::new(false, vec![t("a", false)]);
    update(&mut app, Key::Char('p'));
    assert!(matches!(app.input_mode, InputMode::Select));
    update(&mut app, Key::Down);
    update(&mut app, Key::Char('p'));
    assert!(matches!(app.input_mode, InputMode::Preview));
    update(&mut app, Key::Char('q'));
    assert!(matches!(app.input_mode, InputMode::Select));
    assert!(!app.should_quit);
}

#[test]
fn internal_tasks_stay_out_of_the_new_application() {
    let app = App::new(false, vec![t("a", false), t("hidden", true)]);
    assert_eq!(item_names(&app.tasks), vec![s("a")]);
}

#[test]
fn paths_join_and_split_as_strings() {
    assert_eq!(join_path("/r", "sub/Taskfile.yml"), s("/r/sub/Taskfile.yml"));
    assert_eq!(join_path("/r", "/abs/Taskfile.yml"), s("/abs/Taskfile.yml"));
    assert_eq!(parent_dir("/r/sub/Taskfile.yml"), s("/r/sub"));
    assert_eq!(parent_dir("Taskfile.yml"), s(""));
}

#[test]
fn string_order_and_search_behave_lexicographically() {
    assert!(str_le("abc", "abd"));
    assert!(str_le("ab", "abc"));
    assert!(!str_le("b", "a"));
    assert!(str_le("a", "a"));
    assert!(str_has_substring("hello world", "lo w"));
    assert!(!str_has_substring("hello", "world"));
    assert!(str_has_substring("any", ""));
}
