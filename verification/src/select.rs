//! The pure state of the interactive task list: selection stepping with
//! wrap-around, live substring filtering, and the key-driven mode machine.
//! The surrounding application mirrors this state into its widgets.

use vstd::prelude::*;
use crate::document::{task_views, Task, TaskV};
use crate::text::{has_substring, str_has_substring};

verus! {

/// A scrollable task list with one optional selection.
pub struct StatefulList {
    pub items: Vec<Task>,
    pub orig_items: Vec<Task>,
    pub selected: Option<usize>,
    pub last_selected: Option<usize>,
}

/// The tasks of `s` whose name holds `q` as a substring, in order.
pub open spec fn search_filter_v(s: Seq<TaskV>, q: Seq<char>) -> Seq<TaskV>
    decreases s.len(),
{
    if s.len() == 0 {
        Seq::empty()
    } else {
        let rest = search_filter_v(s.drop_last(), q);
        if has_substring(s.last().name, q) {
            rest.push(s.last())
        } else {
            rest
        }
    }
}

/// The tasks of `s` that a visibility setting lets through: internal tasks
/// only when `list_internal` is set.
pub open spec fn visible_v(s: Seq<TaskV>, list_internal: bool) -> Seq<TaskV>
    decreases s.len(),
{
    if s.len() == 0 {
        Seq::empty()
    } else {
        let rest = visible_v(s.drop_last(), list_internal);
        if !s.last().internal || list_internal {
            rest.push(s.last())
        } else {
            rest
        }
    }
}

/// Copies a task list, value for value.
pub(crate) fn clone_tasks(ts: &Vec<Task>) -> (r: Vec<Task>)
    ensures
        task_views(r@) == task_views(ts@),
{
    let mut out: Vec<Task> = Vec::new();
    let mut i: usize = 0;
    while i < ts.len()
        invariant
            i <= ts@.len(),
            out@.len() == i,
            forall|k: int| 0 <= k < i ==> #[trigger] out@[k]@ == ts@[k]@,
        decreases ts@.len() - i,
    {
        let t = &ts[i];
        out.push(Task { name: t.name.clone(), body: t.body.clone(), internal: t.internal });
        proof {
            assert(out@[i as int]@ == ts@[i as int]@);
        }
        i = i + 1;
    }
    proof {
        assert(task_views(out@) =~= task_views(ts@));
    }
    out
}

impl StatefulList {
    /// Both selection marks stay inside the list.
    pub open spec fn wf(self) -> bool {
        &&& match self.selected {
            Some(i) => i < self.items@.len(),
            None => true,
        }
        &&& match self.last_selected {
            Some(i) => i < self.items@.len(),
            None => true,
        }
    }

    /// The list where `next` moved the selection: down by one, wrapping to
    /// the top, or to the remembered place when nothing was selected; an
    /// empty list clears both marks.
    pub open spec fn spec_next(self) -> StatefulList {
        if self.items@.len() == 0 {
            StatefulList {
                items: self.items,
                orig_items: self.orig_items,
                selected: None,
                last_selected: None,
            }
        } else {
            let i = match self.selected {
                Some(i) => if i as int >= self.items@.len() - 1 {
                    0usize
                } else {
                    (i + 1) as usize
                },
                None => match self.last_selected {
                    Some(k) => k,
                    None => 0usize,
                },
            };
            StatefulList {
                items: self.items,
                orig_items: self.orig_items,
                selected: Some(i),
                last_selected: self.last_selected,
            }
        }
    }

    /// The list where `previous` moved the selection: up by one, wrapping
    /// to the bottom, or to the remembered place when nothing was
    /// selected; an empty list clears both marks.
    pub open spec fn spec_previous(self) -> StatefulList {
        if self.items@.len() == 0 {
            StatefulList {
                items: self.items,
                orig_items: self.orig_items,
                selected: None,
                last_selected: None,
            }
        } else {
            let i = match self.selected {
                Some(i) => if i == 0 {
                    (self.items@.len() - 1) as usize
                } else {
                    (i - 1) as usize
                },
                None => match self.last_selected {
                    Some(k) => k,
                    None => 0usize,
                },
            };
            StatefulList {
                items: self.items,
                orig_items: self.orig_items,
                selected: Some(i),
                last_selected: self.last_selected,
            }
        }
    }

    /// Builds the list over `items`, with nothing selected.
    pub fn with_items(items: Vec<Task>) -> (r: StatefulList)
        ensures
            r.wf(),
            task_views(r.items@) == task_views(items@),
            task_views(r.orig_items@) == task_views(items@),
            r.selected is None,
            r.last_selected is None,
    {
        let orig_items = clone_tasks(&items);
        StatefulList { items, orig_items, selected: None, last_selected: None }
    }

    /// Moves the selection down by one, wrapping around.
    pub fn next(&mut self)
        requires
            old(self).wf(),
        ensures
            *final(self) == old(self).spec_next(),
            final(self).wf(),
    {
        if self.items.len() == 0 {
            self.selected = None;
            self.last_selected = None;
            return ;
        }
        let i: usize = match self.selected {
            Some(i) => if i >= self.items.len() - 1 {
                0
            } else {
                i + 1
            },
            None => match self.last_selected {
                Some(k) => k,
                None => 0,
            },
        };
        self.selected = Some(i);
    }

    /// Moves the selection up by one, wrapping around.
    pub fn previous(&mut self)
        requires
            old(self).wf(),
        ensures
            *final(self) == old(self).spec_previous(),
            final(self).wf(),
    {
        if self.items.len() == 0 {
            self.selected = None;
            self.last_selected = None;
            return ;
        }
        let i: usize = match self.selected {
            Some(i) => if i == 0 {
                self.items.len() - 1
            } else {
                i - 1
            },
            None => match self.last_selected {
                Some(k) => k,
                None => 0,
            },
        };
        self.selected = Some(i);
    }

    /// The selected task, copied out, if anything is selected.
    pub fn get_selected(&mut self) -> (r: Option<Task>)
        requires
            old(self).wf(),
        ensures
            *final(self) == *old(self),
            match r {
                Some(t) => old(self).selected is Some && t@ == old(self).items@[
                    old(self).selected->Some_0 as int
                ]@,
                None => old(self).selected is None,
            },
    {
        match self.selected {
            Some(idx) => {
                let t = &self.items[idx];
                Some(Task { name: t.name.clone(), body: t.body.clone(), internal: t.internal })
            },
            None => None,
        }
    }

    /// Narrows the visible items to those whose name holds `search`, and
    /// selects the first one, or nothing when none is left.
    pub fn filter(&mut self, search: &str)
        ensures
            final(self).wf(),
            task_views(final(self).items@) == search_filter_v(
                task_views(old(self).orig_items@),
                search@,
            ),
            final(self).orig_items == old(self).orig_items,
            final(self).last_selected is None,
            final(self).selected == (if task_views(final(self).items@).len() > 0 {
                Some(0usize)
            } else {
                None::<usize>
            }),
    {
        let ghost all = task_views(self.orig_items@);
        let mut kept: Vec<Task> = Vec::new();
        proof {
            assert(all.take(0) =~= Seq::<TaskV>::empty());
        }
        let mut i: usize = 0;
        while i < self.orig_items.len()
            invariant
                i <= self.orig_items@.len(),
                all == task_views(self.orig_items@),
                task_views(kept@) == search_filter_v(all.take(i as int), search@),
            decreases self.orig_items@.len() - i,
        {
            let t = &self.orig_items[i];
            let ghost kept_before = task_views(kept@);
            if str_has_substring(t.name.as_str(), search) {
                kept.push(Task { name: t.name.clone(), body: t.body.clone(), internal: t.internal });
                proof {
                    assert(task_views(kept@) =~= kept_before.push(all[i as int]));
                }
            }
            proof {
                assert(all.take(i + 1).drop_last() =~= all.take(i as int));
                assert(all.take(i + 1).last() == all[i as int]);
            }
            i = i + 1;
        }
        proof {
            assert(all.take(all.len() as int) =~= all);
        }
        let has_any = kept.len() > 0;
        self.items = kept;
        self.last_selected = None;
        self.selected = if has_any {
            Some(0)
        } else {
            None
        };
    }
}

/// The tasks that the visibility setting lets the list show.
pub fn visible_tasks(tasks: &Vec<Task>, list_internal: bool) -> (r: Vec<Task>)
    ensures
        task_views(r@) == visible_v(task_views(tasks@), list_internal),
{
    let ghost all = task_views(tasks@);
    let mut out: Vec<Task> = Vec::new();
    proof {
        assert(all.take(0) =~= Seq::<TaskV>::empty());
    }
    let mut i: usize = 0;
    while i < tasks.len()
        invariant
            i <= tasks@.len(),
            all == task_views(tasks@),
            task_views(out@) == visible_v(all.take(i as int), list_internal),
        decreases tasks@.len() - i,
    {
        let t = &tasks[i];
        let ghost out_before = task_views(out@);
        if !t.internal || list_internal {
            out.push(Task { name: t.name.clone(), body: t.body.clone(), internal: t.internal });
            proof {
                assert(task_views(out@) =~= out_before.push(all[i as int]));
            }
        }
        proof {
            assert(all.take(i + 1).drop_last() =~= all.take(i as int));
            assert(all.take(i + 1).last() == all[i as int]);
        }
        i = i + 1;
    }
    proof {
        assert(all.take(all.len() as int) =~= all);
    }
    out
}

/// The interaction modes of the application.
#[derive(Clone, Copy, Debug, PartialEq, Eq, Structural)]
pub enum InputMode {
    Select,
    Search,
    Preview,
}

/// The keys the application reacts to, as plain values.
#[derive(Clone, Copy, Debug, PartialEq, Eq, Structural)]
pub enum Key {
    Char(char),
    Enter,
    Backspace,
    Esc,
    Down,
    Up,
    Other,
}

/// The whole interactive state of the application.
pub struct App {
    pub tasks: StatefulList,
    pub search: String,
    pub input_mode: InputMode,
    pub should_quit: bool,
    pub task_to_exec: Option<Task>,
}

/// The list `n` is the list `o` filtered down to the names holding `q`,
/// with the first remaining task selected.
pub open spec fn tasks_filtered(o: StatefulList, n: StatefulList, q: Seq<char>) -> bool {
    &&& task_views(n.items@) == search_filter_v(task_views(o.orig_items@), q)
    &&& n.orig_items == o.orig_items
    &&& n.last_selected is None
    &&& n.selected == (if task_views(n.items@).len() > 0 {
        Some(0usize)
    } else {
        None::<usize>
    })
}

/// The application `n` is `o` after a search edit: only the search text
/// and the filtered list moved.
pub open spec fn filtered_from(o: App, n: App) -> bool {
    &&& n.input_mode == o.input_mode
    &&& n.should_quit == o.should_quit
    &&& n.task_to_exec == o.task_to_exec
    &&& tasks_filtered(o.tasks, n.tasks, n.search@)
}

impl App {
    /// The selection marks stay inside the list.
    pub open spec fn wf(self) -> bool {
        self.tasks.wf()
    }

    /// Builds the application state over the resolved tasks, showing
    /// internal tasks only when the visibility setting asks for them.
    pub fn new(list_internal: bool, tasks: Vec<Task>) -> (r: App)
        ensures
            r.wf(),
            task_views(r.tasks.items@) == visible_v(task_views(tasks@), list_internal),
            task_views(r.tasks.orig_items@) == visible_v(task_views(tasks@), list_internal),
            r.search@ == Seq::<char>::empty(),
            r.input_mode is Select,
            !r.should_quit,
            r.task_to_exec is None,
            r.tasks.selected is None,
            r.tasks.last_selected is None,
    {
        let kept = visible_tasks(&tasks, list_internal);
        App {
            tasks: StatefulList::with_items(kept),
            search: String::new(),
            input_mode: InputMode::Select,
            should_quit: false,
            task_to_exec: None,
        }
    }

    /// Asks the application to leave its main loop.
    pub fn quit(&mut self)
        ensures
            *final(self) == (App { should_quit: true, ..*old(self) }),
    {
        self.should_quit = true;
    }
}

/// Drives the application state by one key: selection keys move or pick a
/// task, `/` enters search, search keys edit the query and re-filter, and
/// the preview closes back to selection.
pub fn update(app: &mut App, key: Key)
    requires
        old(app).wf(),
    ensures
        final(app).wf(),
        ({
            let o = *old(app);
            let n = *final(app);
            match o.input_mode {
                InputMode::Select => match key {
                    Key::Char(c) => if c == 'q' {
                        n == (App { should_quit: true, ..o })
                    } else if c == 'p' {
                        n == if o.tasks.selected is Some {
                            (App { input_mode: InputMode::Preview, ..o })
                        } else {
                            o
                        }
                    } else if c == '/' {
                        n == (App { input_mode: InputMode::Search, ..o })
                    } else if c == 'j' {
                        n == (App { tasks: o.tasks.spec_next(), ..o })
                    } else if c == 'k' {
                        n == (App { tasks: o.tasks.spec_previous(), ..o })
                    } else {
                        n == o
                    },
                    Key::Enter => if o.tasks.selected is Some {
                        &&& n.tasks == o.tasks
                        &&& n.search == o.search
                        &&& n.input_mode == o.input_mode
                        &&& n.should_quit
                        &&& n.task_to_exec is Some
                        &&& n.task_to_exec->Some_0@ == o.tasks.items@[
                            o.tasks.selected->Some_0 as int
                        ]@
                    } else {
                        n == o
                    },
                    Key::Down => n == (App { tasks: o.tasks.spec_next(), ..o }),
                    Key::Up => n == (App { tasks: o.tasks.spec_previous(), ..o }),
                    _ => n == o,
                },
                InputMode::Search => match key {
                    Key::Char(c) => {
                        &&& n.search@ == o.search@.push(c)
                        &&& filtered_from(o, n)
                    },
                    Key::Backspace => {
                        &&& n.search@ == (if o.search@.len() > 0 {
                            o.search@.drop_last()
                        } else {
                            o.search@
                        })
                        &&& filtered_from(o, n)
                    },
                    Key::Esc => {
                        &&& n.search@ == Seq::<char>::empty()
                        &&& n.input_mode is Select
                        &&& n.should_quit == o.should_quit
                        &&& n.task_to_exec == o.task_to_exec
                        &&& tasks_filtered(o.tasks, n.tasks, n.search@)
                    },
                    Key::Enter => n == (App { input_mode: InputMode::Select, ..o }),
                    _ => n == o,
                },
                InputMode::Preview => match key {
                    Key::Char(c) => if c == 'q' || c == 'p' {
                        n == (App { input_mode: InputMode::Select, ..o })
                    } else {
                        n == o
                    },
                    _ => n == o,
                },
            }
        }),
{
    match app.input_mode {
        InputMode::Select => match key {
            Key::Char(c) => {
                if c == 'q' {
                    app.quit();
                } else if c == 'p' {
                    if app.tasks.get_selected().is_some() {
                        app.input_mode = InputMode::Preview;
                    }
                } else if c == '/' {
                    app.input_mode = InputMode::Search;
                } else if c == 'j' {
                    app.tasks.next();
                } else if c == 'k' {
                    app.tasks.previous();
                }
            },
            Key::Enter => {
                if app.tasks.get_selected().is_some() {
                    app.task_to_exec = app.tasks.get_selected();
                    app.quit();
                }
            },
            Key::Down => app.tasks.next(),
            Key::Up => app.tasks.previous(),
            _ => {},
        },
        InputMode::Search => match key {
            Key::Char(c) => {
                app.search.push(c);
                let q = app.search.clone();
                app.tasks.filter(q.as_str());
            },
            Key::Backspace => {
                let _popped = app.search.pop();
                let q = app.search.clone();
                app.tasks.filter(q.as_str());
            },
            Key::Esc => {
                app.search = String::new();
                let q = app.search.clone();
                app.tasks.filter(q.as_str());
                app.input_mode = InputMode::Select;
            },
            Key::Enter => {
                app.input_mode = InputMode::Select;
            },
            _ => {},
        },
        InputMode::Preview => match key {
            Key::Char(c) => {
                if c == 'q' || c == 'p' {
                    app.input_mode = InputMode::Select;
                }
            },
            _ => {},
        },
    }
}

} // verus!
