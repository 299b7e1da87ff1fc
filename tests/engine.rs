use mtxstuff::command::{Command, CommandHandler, CommandHandlerStatus, CommandOutput, ExitStatus};
use mtxstuff::file::{File, Track, TrackType};
use mtxstuff::group::{fingerprint, groupby, groupkeys_table, GroupKey};
use mtxstuff::json::Json;
use mtxstuff::track_operations::{TrackOperation, TrackOperations, EDIT_TOOL};

fn s(x: &str) -> String {
    String::from(x)
}

fn obj(members: Vec<(&str, Json)>) -> Json {
    Json::Object(members.into_iter().map(|(k, v)| (s(k), v)).collect())
}

fn track_json(id: i64, kind: &str, language: &str, name: Option<&str>, default: bool, forced: bool, enabled: bool) -> Json {
    let mut props = vec![
        ("language", Json::Str(s(language))),
        ("default_track", Json::Bool(default)),
        ("forced_track", Json::Bool(forced)),
        ("enabled_track", Json::Bool(enabled)),
    ];
    if let Some(n) = name {
        props.push(("track_name", Json::Str(s(n))));
    }
    obj(vec![
        ("id", Json::Int(id)),
        ("type", Json::Str(s(kind))),
        ("properties", obj(props)),
    ])
}

fn report(file_name: &str, tracks: Vec<Json>) -> Json {
    obj(vec![
        ("file_name", Json::Str(s(file_name))),
        ("tracks", Json::Array(tracks)),
    ])
}

fn english_sub_file(name: &str) -> File {
    File::from_json(report(
        name,
        vec![
            track_json(0, "video", "und", None, true, false, true),
            track_json(1, "audio", "jpn", Some("Stereo"), true, false, true),
            track_json(2, "subtitles", "eng", None, true, false, true),
        ],
    ))
    .expect("report is complete")
}

fn args(c: &Command) -> Vec<&str> {
    c.arguments.iter().map(|a| a.as_str()).collect()
}

#[test]
fn decode_splits_tracks_by_type_and_normalizes_language() {
    let f = english_sub_file("a.mkv");
    assert_eq!(f.file_name, "a.mkv");
    assert_eq!(f.video_tracks.len(), 1);
    assert_eq!(f.audio_tracks.len(), 1);
    assert_eq!(f.subtitle_tracks.len(), 1);
    assert_eq!(f.video_tracks[0].language, None);
    assert_eq!(f.audio_tracks[0].language.as_deref(), Some("jpn"));
    assert_eq!(f.audio_tracks[0].name.as_deref(), Some("Stereo"));
    assert_eq!(f.subtitle_tracks[0].id, 2);
    assert!(f.subtitle_tracks[0].default);
    assert!(!f.subtitle_tracks[0].forced);
}

#[test]
fn decode_fails_without_language() {
    let mut bad = track_json(1, "subtitles", "eng", None, true, false, true);
    if let Json::Object(members) = &mut bad {
        for (k, v) in members.iter_mut() {
            if k == "properties" {
                if let Json::Object(props) = v {
                    props.retain(|(pk, _)| pk != "language");
                }
            }
        }
    }
    assert!(Track::from_json(&bad).is_none());
    let r = report("a.mkv", vec![track_json(0, "video", "und", None, true, false, true), bad]);
    assert!(File::from_json(r).is_none());
}

#[test]
fn decode_fails_on_unknown_type_or_missing_path() {
    let t = track_json(0, "buttons", "eng", None, true, false, true);
    assert!(Track::from_json(&t).is_none());
    let r = obj(vec![("tracks", Json::Array(vec![]))]);
    assert!(File::from_json(r).is_none());
    let r = obj(vec![("file_name", Json::Str(s("x.mkv")))]);
    assert!(File::from_json(r).is_none());
    let r = report("x.mkv", vec![]);
    assert!(File::from_json(r).is_some());
}

#[test]
fn fingerprint_lists_slot_tuples() {
    let f = english_sub_file("a.mkv");
    let k = fingerprint(&f, TrackType::Subtitles);
    assert_eq!(k.len(), 1);
    assert_eq!(k[0].language.as_deref(), Some("eng"));
    assert_eq!(k[0].name, None);
    assert!(k[0].default && !k[0].forced && k[0].enabled);
    let a = fingerprint(&f, TrackType::Audio);
    assert_eq!(a[0].name.as_deref(), Some("Stereo"));
}

#[test]
fn two_identical_files_group_and_rename_compiles() {
    let files = vec![english_sub_file("a.mkv"), english_sub_file("b.mkv")];
    let groups = groupby(&files, TrackType::Subtitles);
    assert_eq!(groups.len(), 1);
    assert_eq!(groups[0].files.len(), 2);
    assert_eq!(groups[0].positions, vec![0, 1]);
    let mut edited: Vec<GroupKey> = groups[0].key.iter().map(|k| k.copy()).collect();
    edited[0].name = Some(s("Commentary"));
    let cmds = groups[0].apply_changes(&edited, TrackType::Subtitles);
    assert_eq!(cmds.len(), 2);
    assert_eq!(cmds[0].executable, EDIT_TOOL);
    assert_eq!(args(&cmds[0]), vec!["--edit", "track:@3", "--set", "name=\"Commentary\"", "a.mkv"]);
    assert_eq!(args(&cmds[1]), vec!["--edit", "track:@3", "--set", "name=\"Commentary\"", "b.mkv"]);
}

#[test]
fn scenario_single_subtitle_track_rename() {
    let mk = |n: &str| {
        File::from_json(report(n, vec![track_json(0, "subtitles", "eng", None, true, false, true)])).unwrap()
    };
    let files = vec![mk("A.mkv"), mk("B.mkv")];
    let groups = groupby(&files, TrackType::Subtitles);
    assert_eq!(groups.len(), 1);
    assert_eq!(groups[0].files.len(), 2);
    let mut edited: Vec<GroupKey> = groups[0].key.iter().map(|k| k.copy()).collect();
    edited[0].name = Some(s("Commentary"));
    let cmds = groups[0].apply_changes(&edited, TrackType::Subtitles);
    assert_eq!(args(&cmds[0]), vec!["--edit", "track:@1", "--set", "name=\"Commentary\"", "A.mkv"]);
    assert_eq!(args(&cmds[1]), vec!["--edit", "track:@1", "--set", "name=\"Commentary\"", "B.mkv"]);
}

#[test]
fn unedited_group_compiles_to_path_only() {
    let files = vec![english_sub_file("a.mkv"), english_sub_file("b.mkv")];
    let groups = groupby(&files, TrackType::Audio);
    let same: Vec<GroupKey> = groups[0].key.iter().map(|k| k.copy()).collect();
    let cmds = groups[0].apply_changes(&same, TrackType::Audio);
    assert_eq!(args(&cmds[0]), vec!["a.mkv"]);
    assert_eq!(args(&cmds[1]), vec!["b.mkv"]);
}

#[test]
fn each_field_edit_compiles_to_one_setting() {
    let files = vec![english_sub_file("a.mkv")];
    let groups = groupby(&files, TrackType::Audio);
    let key = &groups[0].key;
    let cases: Vec<(Box<dyn Fn(&mut GroupKey)>, Vec<&str>)> = vec![
        (Box::new(|k: &mut GroupKey| k.language = Some(s("ger"))), vec!["--edit", "track:@2", "--set", "language=ger", "a.mkv"]),
        (Box::new(|k: &mut GroupKey| k.language = None), vec!["--edit", "track:@2", "--set", "language=und", "a.mkv"]),
        (Box::new(|k: &mut GroupKey| k.name = None), vec!["--edit", "track:@2", "--delete", "name", "a.mkv"]),
        (Box::new(|k: &mut GroupKey| k.default = false), vec!["--edit", "track:@2", "--set", "flag-default=0", "a.mkv"]),
        (Box::new(|k: &mut GroupKey| k.forced = true), vec!["--edit", "track:@2", "--set", "flag-forced=1", "a.mkv"]),
        (Box::new(|k: &mut GroupKey| k.enabled = false), vec!["--edit", "track:@2", "--set", "flag-enabled=0", "a.mkv"]),
    ];
    for (edit, expected) in cases {
        let mut edited: Vec<GroupKey> = key.iter().map(|k| k.copy()).collect();
        edit(&mut edited[0]);
        let cmds = groups[0].apply_changes(&edited, TrackType::Audio);
        assert_eq!(args(&cmds[0]), expected);
    }
}

#[test]
fn groups_are_sorted_and_partition_files() {
    let mk = |n: &str, lang: &str| {
        File::from_json(report(n, vec![track_json(0, "subtitles", lang, None, true, false, true)])).unwrap()
    };
    let none = File::from_json(report("d.mkv", vec![])).unwrap();
    let files = vec![mk("a.mkv", "spa"), mk("b.mkv", "eng"), mk("c.mkv", "spa"), none, mk("e.mkv", "eng")];
    let groups = groupby(&files, TrackType::Subtitles);
    let names: Vec<Vec<&str>> = groups
        .iter()
        .map(|g| g.files.iter().map(|f| f.file_name.as_str()).collect())
        .collect();
    assert_eq!(names, vec![vec!["d.mkv"], vec!["b.mkv", "e.mkv"], vec!["a.mkv", "c.mkv"]]);
    assert_eq!(groups[0].key.len(), 0);
    let mut all: Vec<usize> = groups.iter().flat_map(|g| g.positions.clone()).collect();
    all.sort();
    assert_eq!(all, vec![0, 1, 2, 3, 4]);
}

#[test]
fn exclusive_default_sets_every_track() {
    let f = File::from_json(report(
        "x.mkv",
        vec![
            track_json(0, "audio", "jpn", None, true, false, true),
            track_json(1, "audio", "eng", None, false, false, true),
        ],
    ))
    .unwrap();
    let mut ops = TrackOperations::new(TrackType::Audio);
    assert!(ops.empty());
    ops.add(1, TrackOperation::SetDefaultExclusive(true));
    assert!(!ops.empty());
    let c = ops.generate_command(&f);
    assert_eq!(
        args(&c),
        vec![
            "--edit", "track:@1", "--set", "flag-default=0", "--edit", "track:@2", "--set",
            "flag-default=1", "x.mkv"
        ]
    );
}

#[test]
fn set_name_and_flag_arguments() {
    let mut a: Vec<String> = Vec::new();
    TrackOperations::set_name(&mut a, 9, Some("Signs & Songs"));
    TrackOperations::set_name(&mut a, 0, None);
    TrackOperations::set_flag(&mut a, -1, mtxstuff::file::Flag::Enabled, true);
    assert_eq!(
        a,
        vec![
            "--edit", "track:@10", "--set", "name=\"Signs & Songs\"", "--edit", "track:@1",
            "--delete", "name", "--edit", "track:@0", "--set", "flag-enabled=1"
        ]
    );
}

#[test]
fn command_line_quotes_arguments_with_white_space() {
    let mut c = Command::new("mkvpropedit");
    assert_eq!(c.to_cmd_string(), None);
    c.arguments.push(s("--set"));
    c.arguments.push(s("name=\"Signs and Songs\""));
    c.arguments.push(s("my\tfile.mkv"));
    assert_eq!(
        c.to_cmd_string().unwrap(),
        "mkvpropedit --set \"name=\"Signs and Songs\"\" \"my\tfile.mkv\""
    );
}

#[test]
fn success_string_reports_status() {
    let mut c = Command::new("true");
    assert_eq!(c.success_string(), "Has not run.");
    c.output = Some(CommandOutput { status: ExitStatus::Exited(0), stdout: s(""), stderr: s("") });
    assert_eq!(c.success_string(), "Success");
    c.output = Some(CommandOutput { status: ExitStatus::Exited(2), stdout: s(""), stderr: s("") });
    assert_eq!(c.success_string(), "Error: exit status: 2");
    c.output = Some(CommandOutput { status: ExitStatus::Signaled(9), stdout: s(""), stderr: s("") });
    assert_eq!(c.success_string(), "Error: signal: 9");
}

#[test]
fn command_handler_progress_five_commands() {
    let mut handler = CommandHandler::new(5);
    let mut seen: Vec<CommandHandlerStatus> = vec![handler.check()];
    for i in 0..5 {
        let outcome = if i == 2 {
            Err(s("No such file or directory (os error 2)"))
        } else {
            let mut c = Command::new("sleep");
            c.arguments.push(s("0"));
            c.output = Some(CommandOutput { status: ExitStatus::Exited(0), stdout: s(""), stderr: s("") });
            Ok(c)
        };
        handler.receive(outcome);
        seen.push(handler.check());
    }
    assert_eq!(
        seen,
        vec![
            CommandHandlerStatus::Percent(0),
            CommandHandlerStatus::Percent(20),
            CommandHandlerStatus::Percent(40),
            CommandHandlerStatus::Percent(60),
            CommandHandlerStatus::Percent(80),
            CommandHandlerStatus::Done,
        ]
    );
    let results = handler.into_results();
    assert_eq!(results.len(), 5);
    assert_eq!(results.iter().filter(|r| r.is_err()).count(), 1);
    assert_eq!(results.iter().filter(|r| r.is_ok()).count(), 4);
}

#[test]
fn percent_rounds_half_up() {
    let mut handler = CommandHandler::new(8);
    handler.receive(Err(s("x")));
    assert_eq!(handler.check(), CommandHandlerStatus::Percent(13));
    let mut handler = CommandHandler::new(3);
    handler.receive(Err(s("x")));
    assert_eq!(handler.check(), CommandHandlerStatus::Percent(33));
    handler.receive(Err(s("x")));
    assert_eq!(handler.check(), CommandHandlerStatus::Percent(67));
    assert_eq!(CommandHandler::new(0).check(), CommandHandlerStatus::Done);
}

#[test]
fn group_key_row_and_table() {
    let k = GroupKey { language: Some(s("eng")), name: None, default: true, forced: false, enabled: true };
    assert_eq!(k.headers(), vec!["lang", "name", "def", "fcd", "en"]);
    assert_eq!(k.row(), vec!["eng", "", "[x]", "[ ]", "[x]"]);
    let t = groupkeys_table(&[k.copy(), k.copy()]);
    assert_eq!(t.headers, vec!["#", "lang", "name", "def", "fcd", "en"]);
    assert_eq!(t.lines[1], vec!["1", "eng", "", "[x]", "[ ]", "[x]"]);
}
