use mtxstuff::command::{command_strings, script_text, Command, CommandOutput, ExitStatus};
use mtxstuff::file::{replace_files, File, TrackType};
use mtxstuff::group::{groupby, groupkeys_table, GroupKey};
use mtxstuff::json::Json;
use mtxstuff::popup::{CommandPopup, CommandRunnerPopup, EditPopup, MessagePopup};
use mtxstuff::selection::Selection;
use mtxstuff::session::{all_groups_fit, probe_command, GroupTabData, Popup};
use mtxstuff::table::Table;
use mtxstuff::text::decimal_string;
use mtxstuff::widgets::{
    Action, ActiveWidget, Color, CommandType, FocusState, GroupListWidget, Key, MenuItem,
    TrackTableWidget,
};

fn s(x: &str) -> String {
    String::from(x)
}

fn obj(members: Vec<(&str, Json)>) -> Json {
    Json::Object(members.into_iter().map(|(k, v)| (s(k), v)).collect())
}

fn sub_track(id: i64, language: &str, name: Option<&str>) -> Json {
    let mut props = vec![
        ("language", Json::Str(s(language))),
        ("default_track", Json::Bool(id == 0)),
        ("forced_track", Json::Bool(false)),
        ("enabled_track", Json::Bool(true)),
    ];
    if let Some(n) = name {
        props.push(("track_name", Json::Str(s(n))));
    }
    obj(vec![("id", Json::Int(id)), ("type", Json::Str(s("subtitles"))), ("properties", obj(props))])
}

fn file(name: &str, tracks: Vec<Json>) -> File {
    File::from_json(obj(vec![("file_name", Json::Str(s(name))), ("tracks", Json::Array(tracks))])).unwrap()
}

#[test]
fn decimal_formatting() {
    assert_eq!(decimal_string(0), "0");
    assert_eq!(decimal_string(7), "7");
    assert_eq!(decimal_string(1234567890), "1234567890");
    assert_eq!(decimal_string(-42), "-42");
    assert_eq!(decimal_string(i128::MIN), i128::MIN.to_string());
}

#[test]
fn json_member_lookup_takes_first() {
    let j = obj(vec![("a", Json::Int(1)), ("b", Json::Null), ("a", Json::Int(2))]);
    assert!(matches!(j.get("a"), Some(Json::Int(1))));
    assert!(matches!(j.get("b"), Some(Json::Null)));
    assert!(j.get("c").is_none());
    assert!(Json::Array(vec![]).get("a").is_none());
}

#[test]
fn selection_moves_within_bounds() {
    let mut sel = Selection::none();
    assert_eq!(sel.navigate_down(3, true), None);
    assert!(sel.try_enter(3));
    assert_eq!(sel.navigate_down(3, true), Some(true));
    assert_eq!(sel.navigate_down(3, true), Some(true));
    assert_eq!(sel.navigate_down(3, true), Some(false));
    assert_eq!(sel.selected(), Some(2));
    assert_eq!(sel.navigate_up(false), None);
    assert_eq!(sel.navigate_up(true), Some(true));
    assert_eq!(sel.navigate_up(true), Some(true));
    assert_eq!(sel.navigate_up(true), Some(false));
    assert_eq!(sel.selected(), Some(0));
    let mut empty = Selection::none();
    assert!(!empty.try_enter(0));
    sel.leave();
    assert_eq!(sel.selected(), None);
}

#[test]
fn focus_colors() {
    assert_eq!(FocusState::determine(ActiveWidget::Groups, ActiveWidget::Groups, false), FocusState::Highlight);
    assert_eq!(FocusState::determine(ActiveWidget::Groups, ActiveWidget::Files, false), FocusState::Foreground);
    assert_eq!(FocusState::determine(ActiveWidget::Groups, ActiveWidget::Groups, true), FocusState::Background);
    assert_eq!(FocusState::Highlight.border_color(), Color::Cyan);
    assert_eq!(FocusState::Foreground.border_color(), Color::White);
    assert_eq!(FocusState::Background.sel_color(), Color::DarkGray);
    assert_eq!(FocusState::Foreground.text_color(), Color::White);
}

#[test]
fn group_list_keys() {
    let mut list = GroupListWidget::new(2);
    assert_eq!(list.selection.selected, Some(0));
    assert!(matches!(list.process_key(Key::Char('j')), Action::LoadGroup));
    assert_eq!(list.selection.selected, Some(1));
    assert!(matches!(list.process_key(Key::Down), Action::LoadGroup));
    assert_eq!(list.selection.selected, Some(1));
    assert!(matches!(list.process_key(Key::Right), Action::NavigateForward(ActiveWidget::Groups)));
    assert!(matches!(list.process_key(Key::Char('x')), Action::Pass));
    assert_eq!(GroupListWidget::new(0).selection.selected, None);
}

#[test]
fn track_table_edits_the_buffer() {
    let files = vec![file("a.mkv", vec![sub_track(0, "eng", None), sub_track(1, "und", Some("Signs"))])];
    let groups = groupby(&files, TrackType::Subtitles);
    let mut table = TrackTableWidget::from_group(groups.first());
    assert!(table.try_enter());
    assert!(matches!(table.process_key(Key::Enter), Action::Pass));
    assert_eq!(table.selected_col, Some(0));
    match table.process_key(Key::Enter) {
        Action::EditString(t) => assert_eq!(t, "eng"),
        _ => panic!("expected an edit request"),
    }
    table.process_key(Key::Right);
    table.process_key(Key::Right);
    assert!(matches!(table.process_key(Key::Enter), Action::Pass));
    assert!(!table.keys_copy[0].default);
    assert!(table.keys_orig[0].default);
    table.process_key(Key::Left);
    table.process_key(Key::Delete);
    assert_eq!(table.keys_copy[0].name, None);
    table.set_text(s("Full"));
    assert_eq!(table.keys_copy[0].name.as_deref(), Some("Full"));
    table.process_key(Key::Esc);
    assert_eq!(table.selected_col, None);
    assert!(matches!(table.process_key(Key::Down), Action::Pass));
    assert!(matches!(table.process_key(Key::Down), Action::NavigateForward(ActiveWidget::Details)));
    assert!(matches!(table.process_key(Key::Esc), Action::NavigateBackward(ActiveWidget::Details)));
}

#[test]
fn popups_handle_keys() {
    let mut edit = EditPopup { input: s("ab") };
    edit.process_key(Key::Char('c'));
    edit.process_key(Key::Backspace);
    edit.process_key(Key::Backspace);
    match edit.process_key(Key::Enter) {
        Action::EditStringResult(Some(t)) => assert_eq!(t, "a"),
        _ => panic!("expected the text"),
    }
    assert!(matches!(edit.process_key(Key::Esc), Action::EditStringResult(None)));
    let message = MessagePopup { message: s("hi") };
    assert!(matches!(message.process_key(Key::Enter), Action::ClosePopup));
    assert!(matches!(message.process_key(Key::Up), Action::Pass));

    let mut c = Command::new("mkvpropedit");
    c.arguments.push(s("a b.mkv"));
    let mut preview = CommandPopup::new(vec![c, Command::new("nothing")]);
    assert_eq!(preview.command_strings, vec!["mkvpropedit \"a b.mkv\""]);
    preview.process_key(Key::Up);
    assert_eq!(preview.scroll, 0);
    preview.process_key(Key::Down);
    assert_eq!(preview.scroll, 1);
    match preview.process_key(Key::Enter) {
        Action::SaveScript(t) => assert_eq!(t, "#!/bin/sh\nmkvpropedit \"a b.mkv\"\n"),
        _ => panic!("expected the script"),
    }
    match preview.process_key(Key::F(2)) {
        Action::RunCommands(CommandType::AlterFiles, cmds) => assert_eq!(cmds.len(), 2),
        _ => panic!("expected the commands"),
    }
}

fn ran(status: ExitStatus) -> Result<Command, String> {
    let mut c = Command::new("tool");
    c.arguments.push(s("x"));
    c.output = Some(CommandOutput { status, stdout: s("out"), stderr: s("") });
    Ok(c)
}

#[test]
fn runner_popup_closes_itself_only_without_failure() {
    let mut ok = CommandRunnerPopup::new(vec![Command::new("a")], CommandType::AlterFiles, s("t"));
    let pending = ok.take_pending().unwrap();
    assert_eq!(pending.len(), 1);
    assert!(ok.take_pending().is_none());
    ok.finish(vec![ran(ExitStatus::Exited(0))]);
    assert!(!ok.error);
    match ok.check_auto_close() {
        Action::CommandsDone(CommandType::AlterFiles, cmds) => assert_eq!(cmds.len(), 1),
        _ => panic!("expected the finished batch"),
    }
    assert!(matches!(ok.check_auto_close(), Action::Pass));

    let mut bad = CommandRunnerPopup::new(vec![], CommandType::ReloadFiles, s("t"));
    bad.finish(vec![ran(ExitStatus::Exited(0)), ran(ExitStatus::Exited(1)), Err(s("gone")), ran(ExitStatus::Exited(0))]);
    assert!(bad.error);
    assert!(matches!(bad.check_auto_close(), Action::Pass));
    assert_eq!(bad.results.as_ref().unwrap().len(), 2);
    assert!(bad.log.iter().any(|l| l.text == "Failed to execute process: gone"));
    assert!(matches!(bad.process_key(Key::Enter), Action::CommandsFailed(CommandType::ReloadFiles)));
    assert!(bad.results.is_none());
}

#[test]
fn starting_a_runner_keeps_its_flags() {
    let mut p = CommandRunnerPopup::new(vec![Command::new("a")], CommandType::AlterFiles, s("t"));
    p.take_pending();
    assert!(!p.error && !p.auto_close);
    assert_eq!(p.command_type, CommandType::AlterFiles);
    let mut handler = p.command_handler.take().unwrap();
    handler.receive(ran(ExitStatus::Exited(1)));
    p.finish(handler.into_results());
    assert!(p.error);
    assert!(!p.auto_close);
}

#[test]
fn failed_apply_batch_stops_the_pipeline() {
    let files = vec![file("a.mkv", vec![sub_track(0, "eng", None)])];
    let groups = groupby(&files, TrackType::Subtitles);
    let mut tab = GroupTabData::new(&groups, TrackType::Subtitles);
    tab.process_key(Key::F(2));
    assert_eq!(tab.popup_data.popup_stack.len(), 1);
    tab.process_key(Key::F(2));
    assert_eq!(tab.popup_data.popup_stack.len(), 2);
    if let Some(Popup::Runner(p)) = tab.popup_data.popup_stack.last_mut() {
        let cmds = p.take_pending().unwrap();
        assert_eq!(cmds.len(), 1);
        p.command_handler = None;
        p.finish(vec![Err(s("not found"))]);
    } else {
        panic!("expected the runner");
    }
    assert!(matches!(tab.popup_data.check_auto_close(), Action::Pass));
    assert!(matches!(tab.process_key(Key::Enter), Action::Pass));
    assert_eq!(tab.popup_data.popup_stack.len(), 1);
    assert!(matches!(tab.popup_data.popup_stack.last(), Some(Popup::Command(_))));
}

#[test]
fn successful_batches_run_the_pipeline() {
    let files = vec![file("a.mkv", vec![sub_track(0, "eng", None)])];
    let groups = groupby(&files, TrackType::Subtitles);
    let mut tab = GroupTabData::new(&groups, TrackType::Subtitles);
    tab.process_key(Key::F(2));
    tab.process_key(Key::F(2));
    if let Some(Popup::Runner(p)) = tab.popup_data.popup_stack.last_mut() {
        p.take_pending();
        p.finish(vec![ran(ExitStatus::Exited(0))]);
    }
    match tab.popup_data.check_auto_close() {
        Action::CommandsDone(CommandType::AlterFiles, cmds) => {
            assert!(matches!(tab.dispatch(Action::CommandsDone(CommandType::AlterFiles, cmds)), Action::Pass));
        }
        _ => panic!("expected the finished batch"),
    }
    assert_eq!(tab.popup_data.popup_stack.len(), 3);
    if let Some(Popup::Runner(p)) = tab.popup_data.popup_stack.last_mut() {
        assert_eq!(p.command_type, CommandType::ReloadFiles);
        p.take_pending();
        let mut probe = probe_command(&s("a.mkv"));
        probe.output = Some(CommandOutput { status: ExitStatus::Exited(0), stdout: s("{\"x\":1}"), stderr: s("") });
        p.finish(vec![Ok(probe)]);
    }
    p_ack(&mut tab);
}

fn p_ack(tab: &mut GroupTabData) {
    if let Some(Popup::Runner(p)) = tab.popup_data.popup_stack.last_mut() {
        p.auto_close = false;
    }
    match tab.process_key(Key::Enter) {
        Action::ReloadFiles(reports) => assert_eq!(reports, vec!["{\"x\":1}"]),
        _ => panic!("expected the reports"),
    }
    assert_eq!(tab.popup_data.popup_stack.len(), 1);
}

#[test]
fn track_table_without_selection() {
    let files = vec![file("a.mkv", vec![sub_track(0, "eng", None)])];
    let groups = groupby(&files, TrackType::Subtitles);
    let mut table = TrackTableWidget::from_group(groups.first());
    assert!(matches!(table.process_key(Key::Enter), Action::Pass));
    assert_eq!(table.selected_col, None);
    assert!(matches!(table.process_key(Key::Delete), Action::Pass));
    assert!(matches!(table.process_key(Key::Esc), Action::NavigateBackward(ActiveWidget::Details)));
    assert_eq!(table.keys_copy.len(), 1);
    assert_eq!(table.keys_copy[0].language.as_deref(), Some("eng"));
}

#[test]
fn tab_session_navigates_and_previews() {
    let files = vec![
        file("a.mkv", vec![sub_track(0, "eng", None)]),
        file("b.mkv", vec![sub_track(0, "eng", None)]),
        file("c.mkv", vec![sub_track(0, "ger", None)]),
    ];
    let groups = groupby(&files, TrackType::Subtitles);
    assert!(all_groups_fit(&groups, TrackType::Subtitles));
    let mut tab = GroupTabData::new(&groups, TrackType::Subtitles);
    assert_eq!(tab.group_files_list.file_names, vec!["a.mkv", "b.mkv"]);
    assert!(matches!(tab.process_key(Key::Down), Action::Pass));
    assert_eq!(tab.group_files_list.file_names, vec!["c.mkv"]);
    tab.process_key(Key::Up);
    tab.process_key(Key::Right);
    assert_eq!(tab.active_widget, ActiveWidget::Details);
    tab.process_key(Key::Enter);
    tab.process_key(Key::Right);
    tab.process_key(Key::Enter);
    assert!(matches!(tab.popup_data.popup_stack.last(), Some(Popup::Edit(_))));
    for c in "Commentary".chars() {
        tab.process_key(Key::Char(c));
    }
    assert!(matches!(tab.process_key(Key::Char('q')), Action::Pass));
    tab.process_key(Key::Backspace);
    tab.process_key(Key::Backspace);
    tab.process_key(Key::Enter);
    assert!(tab.popup_data.popup_stack.is_empty());
    assert_eq!(tab.track_table.keys_copy[0].name.as_deref(), Some("Commentar"));
    tab.process_key(Key::Esc);
    tab.process_key(Key::F(2));
    match tab.popup_data.popup_stack.last() {
        Some(Popup::Command(p)) => assert_eq!(
            p.command_strings,
            vec![
                "mkvpropedit --edit track:@1 --set name=\"Commentar\" a.mkv",
                "mkvpropedit --edit track:@1 --set name=\"Commentar\" b.mkv"
            ]
        ),
        _ => panic!("expected the preview"),
    }
    assert!(matches!(tab.process_key(Key::Esc), Action::Pass));
    assert!(tab.popup_data.popup_stack.is_empty());
    assert!(matches!(tab.process_key(Key::Char('a')), Action::SwitchTab(MenuItem::Audio)));
    assert!(matches!(tab.process_key(Key::Char('q')), Action::Quit));
}

#[test]
fn finished_edit_batch_starts_reprobe_then_hands_reports_back() {
    let files = vec![file("a.mkv", vec![sub_track(0, "eng", None)])];
    let groups = groupby(&files, TrackType::Subtitles);
    let mut tab = GroupTabData::new(&groups, TrackType::Subtitles);
    tab.dispatch(Action::RunCommands(CommandType::AlterFiles, vec![]));
    tab.dispatch(Action::CommandsDone(CommandType::AlterFiles, vec![]));
    match tab.popup_data.popup_stack.last_mut() {
        Some(Popup::Runner(p)) => {
            let cmds = p.take_pending().unwrap();
            assert_eq!(cmds.len(), 1);
            assert_eq!(cmds[0].arguments, vec!["--identification-format", "json", "--identify", "a.mkv"]);
        }
        _ => panic!("expected the reprobe runner"),
    }
    let mut probe = probe_command(&s("a.mkv"));
    probe.output = Some(CommandOutput { status: ExitStatus::Exited(0), stdout: s("{}"), stderr: s("") });
    let mut failed = probe_command(&s("b.mkv"));
    failed.output = Some(CommandOutput { status: ExitStatus::Exited(2), stdout: s("x"), stderr: s("") });
    match tab.dispatch(Action::CommandsDone(CommandType::ReloadFiles, vec![probe, failed])) {
        Action::ReloadFiles(reports) => assert_eq!(reports, vec!["{}"]),
        _ => panic!("expected the reports"),
    }
    assert!(tab.popup_data.popup_stack.is_empty());
}

#[test]
fn replacing_files_by_path_keeps_fingerprints() {
    let mut files = vec![
        file("a.mkv", vec![sub_track(0, "eng", None)]),
        file("b.mkv", vec![sub_track(0, "ger", None)]),
    ];
    let before = groupby(&files, TrackType::Subtitles);
    let before_keys: Vec<Option<String>> = before.iter().map(|g| g.key[0].language.clone()).collect();
    drop(before);
    replace_files(&mut files, vec![file("b.mkv", vec![sub_track(0, "ger", None)]), file("z.mkv", vec![])]);
    assert_eq!(files.len(), 2);
    assert_eq!(files[1].file_name, "b.mkv");
    let after = groupby(&files, TrackType::Subtitles);
    let after_keys: Vec<Option<String>> = after.iter().map(|g| g.key[0].language.clone()).collect();
    assert_eq!(before_keys, after_keys);
    assert_eq!(after[1].positions, vec![1]);
    replace_files(&mut files, vec![file("a.mkv", vec![sub_track(0, "fre", None)])]);
    assert_eq!(files[0].subtitle_tracks[0].language.as_deref(), Some("fre"));
}

#[test]
fn table_renders_right_aligned() {
    let mut t = Table::new(&[vec![s("a"), s("bbb")], vec![s("cc")]], &["x", "yy"]);
    t.insert_column(0, "#", &[s("0"), s("1")]);
    assert_eq!(t.headers, vec!["#", "x", "yy"]);
    assert_eq!(t.render(), "  #   x   yy\n------------\n  0   a  bbb\n  1  cc\n");
    let k = GroupKey { language: None, name: Some(s("n")), default: false, forced: true, enabled: true };
    let table = groupkeys_table(&[k]);
    assert_eq!(
        table.render(),
        "  #  lang  name  def  fcd   en\n------------------------------\n  0           n  [ ]  [x]  [x]\n"
    );
}

#[test]
fn script_lists_commands() {
    let mut c = Command::new("mkvpropedit");
    c.arguments.push(s("x.mkv"));
    let lines = command_strings(&[c]);
    assert_eq!(script_text(&lines), "#!/bin/sh\nmkvpropedit x.mkv\n");
    assert_eq!(script_text(&[]), "#!/bin/sh\n");
}
