use todo_txt::modify::{
    add, append, archive, do_task, prepend, prioritise, remove, schedule, schedule_each_today,
    undo, unschedule_each,
};
use todo_txt::priority::{downgrade, parse_index, upgrade};
use todo_txt::utility::{parse_lines, render};
use todo_txt::view::{done, list, list_priority, no_date};
use todo_txt::{
    join_non_empty, parse_date_string_relative, sort_by_priority, todo_filter, Day, Todo,
    TodoError, TodoPriority,
};

fn todo(task: &str, pri: TodoPriority) -> Todo {
    Todo {
        idx: 0,
        task: task.to_string(),
        pri,
        projects: vec![],
        tags: vec![],
        done_date: None,
        due_date: None,
    }
}

fn monday() -> Day {
    Day::from_ymd(2021, 9, 13).unwrap()
}

#[test]
fn can_prioritise_tasks() {
    let mut tasks = vec![Todo {
        idx: 0,
        task: "this is a test".to_string(),
        pri: TodoPriority::Unset,
        projects: vec!["+p1".to_string(), "+p2".to_string()],
        tags: vec!["@c1".to_string()],
        done_date: None,
        due_date: None,
    }];
    prioritise(0, &mut tasks, Some("A".to_string())).unwrap();
    assert_eq!(tasks[0].pri, TodoPriority::A)
}

#[test]
fn can_filter() {
    let input = vec![Todo {
        idx: 0,
        task: String::from("This is the task"),
        pri: TodoPriority::Unset,
        projects: vec![String::from("good"), String::from("bad")],
        tags: vec![],
        done_date: None,
        due_date: None,
    }];
    let expected: Vec<Todo> = vec![];
    let filtered: Vec<Todo> = todo_filter(&input, &vec![String::from("-bad")]);
    assert_eq!(filtered, expected);
}

#[test]
fn iter_date_till_sat() {
    let now = monday();
    let want = Day::from_ymd(2021, 9, 18).unwrap();
    assert_eq!(todo_txt::date::next_weekday_after(now, 6), want.days());
}

#[test]
fn date_from_string() {
    let now = monday();
    assert_eq!(parse_date_string_relative(now, "thursday"), "2021-09-16");
    assert_eq!(parse_date_string_relative(now, "tomorrow"), "2021-09-14");
    assert_eq!(parse_date_string_relative(now, "weekend"), "2021-09-18");
}

#[test]
fn relative_dates_are_strictly_future() {
    let now = monday();
    assert_eq!(parse_date_string_relative(now, "monday"), "2021-09-20");
    assert_eq!(parse_date_string_relative(now, "today"), "2021-09-13");
    assert_eq!(parse_date_string_relative(now, "SUN"), "2021-09-19");
    assert_eq!(parse_date_string_relative(now, "tue"), "2021-09-14");
    assert_eq!(parse_date_string_relative(now, "next week"), "next week");
    let eve = Day::from_ymd(2020, 12, 31).unwrap();
    assert_eq!(parse_date_string_relative(eve, "tomorrow"), "2021-01-01");
    assert!(Day::from_ymd(2021, 2, 29).is_none());
}

#[test]
fn sort_keeps_order_within_a_priority() {
    let input = vec![
        todo("b", TodoPriority::B),
        todo("a1", TodoPriority::A),
        todo("none", TodoPriority::Unset),
        todo("a2", TodoPriority::A),
    ];
    let got: Vec<String> = sort_by_priority(&input).into_iter().map(|t| t.task).collect();
    assert_eq!(got, vec!["a1", "a2", "b", "none"]);
}

#[test]
fn archive_moves_both_ways_and_second_pass_is_a_no_op() {
    let mut open = vec![todo("o1", TodoPriority::Unset), todo("d1", TodoPriority::Unset)];
    open[1].done_date = Some("2021-01-01".to_string());
    let mut dones = vec![todo("d2", TodoPriority::Unset), todo("o2", TodoPriority::Unset)];
    dones[0].done_date = Some("2021-01-02".to_string());
    assert_eq!(archive(&mut open, &mut dones), (1, 1));
    let names = |v: &Vec<Todo>| v.iter().map(|t| (t.task.clone(), t.idx)).collect::<Vec<_>>();
    assert_eq!(names(&open), vec![("o1".to_string(), 0), ("o2".to_string(), 1)]);
    assert_eq!(names(&dones), vec![("d2".to_string(), 0), ("d1".to_string(), 1)]);
    let (o, d) = (open.clone(), dones.clone());
    assert_eq!(archive(&mut open, &mut dones), (0, 0));
    assert_eq!(open, o);
    assert_eq!(dones, d);
}

#[test]
fn add_numbers_the_new_task() {
    let mut v = vec![todo("first", TodoPriority::Unset)];
    add("(C) second +p", &mut v).unwrap();
    assert_eq!(v.len(), 2);
    assert_eq!(v[1].idx, 1);
    assert_eq!(v[1].pri, TodoPriority::C);
    assert_eq!(add("x", &mut v), Err(TodoError::MissingCompletionDate));
    assert_eq!(v.len(), 2);
}

#[test]
fn edits_check_the_index() {
    let mut v = vec![todo("task", TodoPriority::Unset)];
    let err = Err(TodoError::IndexOutOfRange { index: 1, len: 1 });
    assert_eq!(append(1, &mut v, "x"), err);
    assert_eq!(prepend(1, &mut v, "x"), err);
    assert_eq!(prioritise(1, &mut v, None), err);
    assert_eq!(schedule(1, &mut v, "today", monday()), err);
    append(0, &mut v, "end").unwrap();
    prepend(0, &mut v, "start").unwrap();
    assert_eq!(v[0].task, "start task end");
    schedule(0, &mut v, "fri", monday()).unwrap();
    assert_eq!(v[0].due_date, Some("2021-09-17".to_string()));
    prioritise(0, &mut v, Some("b".to_string())).unwrap();
    assert_eq!(v[0].pri, TodoPriority::B);
    prioritise(0, &mut v, None).unwrap();
    assert_eq!(v[0].pri, TodoPriority::Unset);
}

#[test]
fn remove_drops_listed_positions_and_renumbers() {
    let mut v = vec![
        todo("a", TodoPriority::Unset),
        todo("b", TodoPriority::Unset),
        todo("c", TodoPriority::Unset),
    ];
    assert_eq!(
        remove(&[0, 5], &mut v),
        Err(TodoError::IndexOutOfRange { index: 5, len: 3 })
    );
    assert_eq!(v.len(), 3);
    remove(&[2, 0], &mut v).unwrap();
    assert_eq!(v.len(), 1);
    assert_eq!(v[0].task, "b");
    assert_eq!(v[0].idx, 0);
}

#[test]
fn do_task_and_undo() {
    let mut v = vec![todo("a", TodoPriority::A), todo("b", TodoPriority::B)];
    let mut d: Vec<Todo> = vec![];
    do_task(&[1], &mut v, monday()).unwrap();
    assert_eq!(v[1].done_date, Some("2021-09-13".to_string()));
    assert_eq!(v[1].pri, TodoPriority::Unset);
    assert_eq!(v[0].done_date, None);
    assert_eq!(do_task(&[2], &mut v, monday()), Err(TodoError::IndexOutOfRange { index: 2, len: 2 }));
    archive(&mut v, &mut d);
    assert_eq!(d.len(), 1);
    assert_eq!(undo(&[1], &mut v, &mut d), Err(TodoError::IndexOutOfRange { index: 1, len: 1 }));
    undo(&[0], &mut v, &mut d).unwrap();
    assert!(d.is_empty());
    assert_eq!(v.len(), 2);
    assert_eq!(v[1].task, "b");
    assert_eq!(v[1].done_date, None);
    assert_eq!(v[1].idx, 1);
}

#[test]
fn schedule_and_unschedule_each() {
    let mut v = vec![todo("a", TodoPriority::Unset), todo("b", TodoPriority::Unset)];
    schedule_each_today(&[0, 1], &mut v, monday()).unwrap();
    assert_eq!(v[0].due_date, Some("2021-09-13".to_string()));
    unschedule_each(&[1], &mut v).unwrap();
    assert_eq!(v[1].due_date, None);
    assert_eq!(v[0].due_date, Some("2021-09-13".to_string()));
    assert_eq!(unschedule_each(&[9], &mut v), Err(TodoError::IndexOutOfRange { index: 9, len: 2 }));
}

#[test]
fn upgrade_and_downgrade() {
    let mut v = vec![todo("a", TodoPriority::Unset)];
    assert_eq!(upgrade(&[], &mut v), Err(TodoError::MissingArgument));
    assert_eq!(upgrade(&["one".to_string()], &mut v), Err(TodoError::InvalidIndex));
    assert_eq!(
        upgrade(&["3".to_string()], &mut v),
        Err(TodoError::IndexOutOfRange { index: 3, len: 1 })
    );
    upgrade(&["0".to_string()], &mut v).unwrap();
    assert_eq!(v[0].pri, TodoPriority::A);
    downgrade(&["0".to_string()], &mut v).unwrap();
    assert_eq!(v[0].pri, TodoPriority::Unset);
    assert_eq!(parse_index("42"), Some(42));
    assert_eq!(parse_index("99999999999999999999999"), None);
    assert_eq!(parse_index(""), None);
}

#[test]
fn listing_views() {
    let mut v = vec![
        todo("plain", TodoPriority::Unset),
        todo("urgent thing", TodoPriority::A),
        todo("other thing", TodoPriority::C),
    ];
    v[1].due_date = Some("2021-09-14".to_string());
    let names = |r: Vec<Todo>| r.into_iter().map(|t| t.task).collect::<Vec<_>>();
    assert_eq!(names(list(&v, &[])), vec!["urgent thing", "other thing", "plain"]);
    assert_eq!(names(list(&v, &["thing".to_string(), "-urgent".to_string()])), vec!["other thing"]);
    assert_eq!(names(list_priority(&v, &[])), vec!["urgent thing", "other thing"]);
    assert_eq!(names(no_date(&v, &[])), vec!["other thing", "plain"]);
    assert_eq!(names(done(&v, &["PLAIN".to_string()])), vec!["plain"]);
}

#[test]
fn load_and_save_lines() {
    let lines = vec!["(A) one".to_string(), "".to_string(), "x 2021-01-01 two".to_string()];
    let v = parse_lines(&lines).unwrap();
    assert_eq!(v.len(), 3);
    assert_eq!(v[2].idx, 2);
    assert_eq!(render(&v), "(A) one\n\nx 2021-01-01 two");
    let bad = vec!["fine".to_string(), "x".to_string()];
    assert_eq!(parse_lines(&bad), Err(TodoError::MissingCompletionDate));
}

#[test]
fn join_non_empty_skips_empty_pieces() {
    let parts = vec!["".to_string(), "a".to_string(), "".to_string(), "b c".to_string()];
    assert_eq!(join_non_empty(&parts), "a b c");
    assert_eq!(join_non_empty(&[]), "");
}

fn dated(task: &str, due: Option<&str>, done: Option<&str>) -> Todo {
    let mut t = todo(task, TodoPriority::Unset);
    t.due_date = due.map(|d| d.to_string());
    t.done_date = done.map(|d| d.to_string());
    t
}

#[test]
fn due_agenda_groups_by_day() {
    let v = vec![
        dated("soon", Some("2021-09-15"), None),
        dated("late", Some("2021-09-10"), None),
        dated("now", Some("2021-09-13"), None),
        dated("far", Some("2021-12-01"), None),
        dated("undated", None, None),
        dated("also late", Some("2021-09-10"), None),
    ];
    let lines = todo_txt::view::due(&v, 7, &[], monday()).unwrap();
    let overdue = "Overdue 3 days";
    let head = |h: &str| format!("..... {} {}", h, ".".repeat(73 - h.len()));
    assert_eq!(
        lines,
        vec![
            head(overdue),
            "".to_string(),
            "  0. late due:2021-09-10".to_string(),
            "  0. also late due:2021-09-10".to_string(),
            "".to_string(),
            head("Today"),
            "".to_string(),
            "  0. now due:2021-09-13".to_string(),
            "".to_string(),
            head("In 2 days"),
            "".to_string(),
            "  0. soon due:2021-09-15".to_string(),
        ]
    );
    let bad = vec![dated("odd", Some("someday"), None)];
    assert_eq!(todo_txt::view::due(&bad, 7, &[], monday()), Err(TodoError::MalformedDate(0)));
}

#[test]
fn done_summary_lists_recent_days() {
    let v = vec![
        dated("a", None, Some("2021-09-12")),
        dated("b +p", None, Some("2021-09-13")),
        dated("c", None, Some("2021-09-12")),
        dated("old", None, Some("2021-08-01")),
    ];
    let lines = todo_txt::view::done_summary(&v, &[], 7, monday()).unwrap();
    assert_eq!(
        lines,
        vec![
            "... 2021-09-12 ..........",
            "    a",
            "    c",
            "",
            "... 2021-09-13 ..........",
            "    b +p",
            "",
        ]
    );
    let bad = vec![dated("not done", None, None)];
    assert_eq!(
        todo_txt::view::done_summary(&bad, &[], 7, monday()),
        Err(TodoError::MalformedDate(0))
    );
}

#[test]
fn project_and_tag_counts() {
    let v = vec![
        Todo::parse("a +x +y @home").unwrap(),
        Todo::parse("b +y +y").unwrap(),
        Todo::parse("c").unwrap(),
    ];
    let (ps, none) = todo_txt::view::projects(&v);
    assert_eq!(ps, vec![("+x".to_string(), 1), ("+y".to_string(), 3)]);
    assert_eq!(none, 1);
    let (cs, none) = todo_txt::view::contexts(&v);
    assert_eq!(cs, vec![("@home".to_string(), 1)]);
    assert_eq!(none, 2);
}

#[test]
fn grouped_listings() {
    let mut v = vec![
        Todo::parse("a +x").unwrap(),
        Todo::parse("(A) b +y +x").unwrap(),
        Todo::parse("c @t").unwrap(),
    ];
    for (i, t) in v.iter_mut().enumerate() {
        t.idx = i;
    }
    let lines = todo_txt::view::grouped_by_project(&v, &[]);
    assert_eq!(
        lines,
        vec![
            "+y", "  1. (A) b +y +x", "", "+x", "  1. (A) b +y +x", "  0. a +x", "",
            "NO PROJECT", "  2. c @t", "",
        ]
    );
    let lines = todo_txt::view::grouped_by_context(&v, &["-a".to_string()]);
    assert_eq!(lines, vec!["@t", "  2. c @t", "", "NO CONTEXT", "  1. (A) b +y +x", ""]);
}

#[test]
fn undo_restores_from_the_last_listed_position() {
    let mut v: Vec<Todo> = vec![todo("open", TodoPriority::Unset)];
    let mut d = vec![dated("a", None, Some("2021-01-01")), dated("b", None, Some("2021-01-02"))];
    d[1].idx = 1;
    undo(&[0, 1], &mut v, &mut d).unwrap();
    assert!(d.is_empty());
    let names: Vec<(String, usize)> = v.iter().map(|t| (t.task.clone(), t.idx)).collect();
    assert_eq!(
        names,
        vec![("open".to_string(), 0), ("b".to_string(), 1), ("a".to_string(), 2)]
    );
    assert!(v.iter().all(|t| t.done_date.is_none()));
}

#[test]
fn schedule_words_follow_unicode_lower_case() {
    assert_eq!(parse_date_string_relative(monday(), "wee\u{212A}end"), "2021-09-18");
    assert_eq!(parse_date_string_relative(monday(), "Wée"), "Wée");
}

#[test]
fn day_counts_accept_any_date_chrono_reads() {
    let t = dated("ancient", Some("0000-06-15"), None);
    assert_eq!(t.days_overdue(monday()), Ok(738245));
}

#[test]
fn positions_may_carry_a_plus_sign() {
    assert_eq!(parse_index("+5"), Some(5));
    assert_eq!(parse_index("+"), None);
    assert_eq!(parse_index("++5"), None);
    let mut v = vec![todo("a", TodoPriority::Unset)];
    assert_eq!(
        upgrade(&["+3".to_string()], &mut v),
        Err(TodoError::IndexOutOfRange { index: 3, len: 1 })
    );
    upgrade(&["+0".to_string()], &mut v).unwrap();
    assert_eq!(v[0].pri, TodoPriority::A);
}
