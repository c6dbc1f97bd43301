use todo_txt::{date_today, Todo, TodoError, TodoPriority};

fn sample(pri: TodoPriority, done: Option<&str>, due: Option<&str>) -> Todo {
    Todo {
        idx: 0,
        task: "this is a test".to_string(),
        pri,
        projects: vec!["+p1".to_string(), "+p2".to_string()],
        tags: vec!["@c1".to_string()],
        done_date: done.map(|d| d.to_string()),
        due_date: due.map(|d| d.to_string()),
    }
}

fn today_iso() -> String {
    date_today().unwrap().format_iso()
}

#[test]
fn can_display_task() {
    let input = "this is a test +p1 +p2 @c1";
    let t = sample(TodoPriority::Unset, None, None);
    assert_eq!(format!("  0. {}", input), t.format_for_display(t.idx));
}

#[test]
fn can_parse_task() {
    let input = "this is a test +p1 +p2 @c1";
    let t = sample(TodoPriority::Unset, None, None);
    let got: Todo = input.parse().unwrap();
    assert_eq!(t, got);
}

#[test]
fn can_parse_done_task() {
    let input = "x 2021-01-01 this is a test +p1 +p2 @c1";
    let t = sample(TodoPriority::Unset, Some("2021-01-01"), None);
    let got: Todo = input.parse().unwrap();
    assert_eq!(t, got);
}

#[test]
fn can_append_text_to_tast() {
    let mut t = sample(TodoPriority::Unset, None, None);
    t.append_text("EXTRA");
    let mut expected = sample(TodoPriority::Unset, None, None);
    expected.task = "this is a test EXTRA".to_string();
    assert_eq!(t, expected);
}

#[test]
fn can_prepend_text_to_task() {
    let mut t = sample(TodoPriority::Unset, None, None);
    t.prepend_text("EXTRA");
    let mut expected = sample(TodoPriority::Unset, None, None);
    expected.task = "EXTRA this is a test".to_string();
    assert_eq!(t, expected);
}

#[test]
fn can_schedule_a_task() {
    let mut t = sample(TodoPriority::Unset, None, None);
    t.schedule("today");
    let expected = sample(TodoPriority::Unset, None, Some(&today_iso()));
    assert_eq!(t, expected);
}

#[test]
fn can_unschedule_a_task() {
    let mut t = sample(TodoPriority::Unset, None, Some("2021-01-01"));
    t.unschedule();
    let expected = sample(TodoPriority::Unset, None, None);
    assert_eq!(t, expected);
}

#[test]
fn can_match_a_task() {
    let t = sample(TodoPriority::Unset, None, Some("2021-01-01"));
    assert!(t.matches(&["test"], &["blah"]));
    assert!(!t.matches(&["test"], &["+p1"]));
    assert!(t.matches(&["test"], &["+badproj"]));
}

#[test]
fn can_mark_task_as_done() {
    let today = today_iso();
    let mut input = sample(TodoPriority::Unset, None, Some(&today));
    input.mark_done();
    let want = sample(TodoPriority::Unset, Some(&today), Some(&today));
    assert_eq!(input, want);

    let mut input = sample(TodoPriority::A, None, Some(&today));
    input.mark_done();
    let want = sample(TodoPriority::Unset, Some(&today), Some(&today));
    assert_eq!(input, want);
}

#[test]
fn can_undo_marking_task_as_done() {
    let today = today_iso();
    let mut input = sample(TodoPriority::Unset, Some(&today), Some(&today));
    input.mark_undone();
    let want = sample(TodoPriority::Unset, None, Some(&today));
    assert_eq!(input, want);
}

#[test]
fn can_prioritise_a_task() {
    let mut input = sample(TodoPriority::Unset, None, None);
    input.prioritise(TodoPriority::A);
    let want = sample(TodoPriority::A, None, None);
    assert_eq!(input, want);
}

#[test]
fn can_remove_task_priority() {
    let mut input = sample(TodoPriority::A, None, Some("2021-01-01"));
    input.prioritise(TodoPriority::Unset);
    let want = sample(TodoPriority::Unset, None, Some("2021-01-01"));
    assert_eq!(input, want);
}

#[test]
fn can_format_for_saving() {
    let input = sample(TodoPriority::A, None, Some("2021-01-01"));
    assert_eq!(
        input.format_for_save(),
        "(A) this is a test due:2021-01-01 +p1 +p2 @c1"
    );

    let input = sample(TodoPriority::Unset, Some("2021-01-01"), Some("2021-01-01"));
    assert_eq!(
        input.format_for_save(),
        "x 2021-01-01 this is a test due:2021-01-01 +p1 +p2 @c1"
    );

    let mut input = sample(TodoPriority::Unset, Some("2021-01-01"), Some("2021-01-01"));
    input.projects = vec![];
    assert_eq!(
        input.format_for_save(),
        "x 2021-01-01 this is a test due:2021-01-01 @c1"
    );
}

#[test]
fn can_format_todo_output() {
    let input = sample(TodoPriority::Unset, Some("2021-01-01"), Some("2021-01-01"));
    assert_eq!(
        "  0. x 2021-01-01 this is a test due:2021-01-01 +p1 +p2 @c1",
        input.format_for_display(input.idx),
    );
}

#[test]
fn parse_reads_priority_due_and_normalises_spaces() {
    let t = Todo::parse("  (b)   call   mum due:2021-02-03 @phone +family ").unwrap();
    assert_eq!(t.pri, TodoPriority::B);
    assert_eq!(t.task, "call mum");
    assert_eq!(t.due_date, Some("2021-02-03".to_string()));
    assert_eq!(t.tags, vec!["@phone".to_string()]);
    assert_eq!(t.projects, vec!["+family".to_string()]);
    assert_eq!(t.done_date, None);
}

#[test]
fn parse_of_non_letter_priority_gives_none() {
    let t = Todo::parse("(1) thing").unwrap();
    assert_eq!(t.pri, TodoPriority::Unset);
    assert_eq!(t.task, "thing");
    let t = Todo::parse("(A) thing (7)").unwrap();
    assert_eq!(t.pri, TodoPriority::Unset);
}

#[test]
fn parse_of_blank_line_is_empty_record() {
    let t = Todo::parse("   ").unwrap();
    assert_eq!(t.task, "");
    assert_eq!(t.pri, TodoPriority::Unset);
    assert!(t.projects.is_empty() && t.tags.is_empty());
    assert_eq!(t.done_date, None);
    assert_eq!(t.due_date, None);
    assert_eq!(t.format_for_save(), "");
}

#[test]
fn parse_of_lone_completion_marker_fails() {
    assert_eq!(Todo::parse("x"), Err(TodoError::MissingCompletionDate));
    assert_eq!(Todo::parse("  x  "), Err(TodoError::MissingCompletionDate));
}

#[test]
fn x_only_marks_done_as_first_token() {
    let t = Todo::parse("(A) x marks the spot").unwrap();
    assert_eq!(t.done_date, None);
    assert_eq!(t.task, "x marks the spot");
}

#[test]
fn tags_repeat_when_written_twice() {
    let t = Todo::parse("a +p +p @c @c").unwrap();
    assert_eq!(t.projects, vec!["+p".to_string(), "+p".to_string()]);
    assert_eq!(t.tags, vec!["@c".to_string(), "@c".to_string()]);
}

#[test]
fn round_trip_keeps_every_field() {
    for line in [
        "(A) this is a test due:2021-01-01 +p1 +p2 @c1",
        "x 2021-01-01   this  is a test +p1 @c1 due:2021-01-02",
        "@c first then words +p (c)",
        "",
        "due: +x",
        "(1) dropped marker",
    ] {
        let first = Todo::parse(line).unwrap();
        let again = Todo::parse(&first.format_for_save()).unwrap();
        assert_eq!(first, again, "line {:?}", line);
    }
}

#[test]
fn matcher_ignores_case_and_needs_all_positive_terms() {
    let t = sample(TodoPriority::Unset, None, None);
    assert!(t.matches(&["TEST", "@C1"], &[]));
    assert!(!t.matches(&["test", "missing"], &[]));
    assert!(t.matches(&[], &[]));
    assert!(!t.matches(&[], &["@C1"]));
    assert!(t.matches(&["test+p1"], &[]));
}

#[test]
fn mark_done_on_clears_priority() {
    let today = todo_txt::Day::from_ymd(2021, 9, 13).unwrap();
    let mut t = sample(TodoPriority::A, None, None);
    t.mark_done_on(today);
    assert_eq!(t.pri, TodoPriority::Unset);
    assert_eq!(t.done_date, Some("2021-09-13".to_string()));
}

#[test]
fn schedule_on_resolves_words() {
    let today = todo_txt::Day::from_ymd(2021, 9, 13).unwrap();
    let mut t = sample(TodoPriority::Unset, None, None);
    t.schedule_on(today, "Friday");
    assert_eq!(t.due_date, Some("2021-09-17".to_string()));
    t.schedule_on(today, "2030-01-01");
    assert_eq!(t.due_date, Some("2030-01-01".to_string()));
}

#[test]
fn days_overdue_and_since_done() {
    let today = todo_txt::Day::from_ymd(2021, 9, 13).unwrap();
    let mut t = sample(TodoPriority::Unset, Some("2021-09-10"), Some("2021-09-20"));
    t.idx = 4;
    assert_eq!(t.days_overdue(today), Ok(-7));
    assert_eq!(t.days_since_done(today), Ok(3));
    t.due_date = Some("soon".to_string());
    assert_eq!(t.days_overdue(today), Err(TodoError::MalformedDate(4)));
    t.done_date = None;
    assert_eq!(t.days_since_done(today), Err(TodoError::MalformedDate(4)));
}

#[test]
fn donesummary_leaves_out_markers() {
    let t = sample(TodoPriority::A, Some("2021-01-01"), Some("2021-01-02"));
    assert_eq!(t.donesummary_format(), "this is a test +p1 +p2 @c1");
}

#[test]
fn display_pads_position() {
    let t = sample(TodoPriority::B, None, None);
    assert_eq!(t.format_for_display(12), " 12. (B) this is a test +p1 +p2 @c1");
    assert_eq!(t.format_for_display(1234), "1234. (B) this is a test +p1 +p2 @c1");
}

#[test]
fn links_finds_markdown_targets() {
    let mut t = sample(TodoPriority::Unset, None, None);
    t.task = "read [the docs](https://example.org/docs) today".to_string();
    assert_eq!(t.links(), vec!["https://example.org/docs".to_string()]);
    t.task = "no links".to_string();
    assert!(t.links().is_empty());
}

#[test]
fn priority_text_forms() {
    assert_eq!(TodoPriority::from_text("c"), TodoPriority::C);
    assert_eq!(TodoPriority::from_text("Z"), TodoPriority::Z);
    assert_eq!(TodoPriority::from_text("AB"), TodoPriority::Unset);
    assert_eq!(TodoPriority::from_text("1"), TodoPriority::Unset);
    assert_eq!(TodoPriority::Q.to_text(), "(Q)");
    assert_eq!(TodoPriority::Unset.to_text(), "");
}
