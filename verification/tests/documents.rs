use lyrc::alignment::{
    alignment_request, convert_py_cues_to_line_aligned_subtitle_document,
    convert_py_cues_to_word_aligned_subtitle_document, convert_py_cues_to_word_level_cues, generate_aligned_metadata,
    timedelta_to_duration, AlignedRecord, AlignmentError, AlignmentResult, CueText,
};
use lyrc::app::App;
use lyrc::args::{Args, Command, Frontend};
use lyrc::config::Config;
use lyrc::cues::{edit_text, Cue, Language, Line, SubtitleCues, SubtitleDocument, SubtitleMetadata, Word};
use lyrc::discovery::{choose_candidates, classify_subtitle_file, SubtitleExtension};
use lyrc::history::{CueTimeChange, Edit, EditHistory};
use lyrc::lyrics::{lyrics_from, parse_format, LyricsFormat, LyricsService, LyricsSource};
use lyrc::state::{SubtitleVariant, Track};
use lyrc::synchronizer::SynchronizerMode;
use lyrc::translation::{TranslationError, TranslationResult};

fn metadata(file_path: Option<&str>, languages: Vec<&str>) -> SubtitleMetadata {
    SubtitleMetadata {
        album: Some("Lux (Complete Works)".to_string()),
        title: Some("Porcelana".to_string()),
        artists: vec!["Rosalía".to_string()],
        languages: languages.into_iter().map(|c| Language { code: c.to_string() }).collect(),
        file_path: file_path.map(|p| p.to_string()),
    }
}

fn lines() -> SubtitleCues {
    SubtitleCues::Line(vec![Line { id: 10, content: "hola".to_string() }, Line { id: 11, content: "mundo".to_string() }])
}

fn variant_code(v: &SubtitleVariant) -> Option<String> {
    match v {
        SubtitleVariant::Original => None,
        SubtitleVariant::Translated(l) => Some(l.code.clone()),
    }
}

#[test]
fn timedelta_in_microseconds() {
    assert_eq!(timedelta_to_duration(1, 2, 3), Some(86_402_000_003));
    assert_eq!(timedelta_to_duration(-1, 86_399, 999_999), Some(-1));
    assert_eq!(timedelta_to_duration(0, 0, 0), Some(0));
    assert_eq!(timedelta_to_duration(200_000_000, 0, 0), None);
}

#[test]
fn word_level_cues_take_identities_in_order() {
    let doc = SubtitleDocument { metadata: metadata(None, vec!["es"]), cues: lines() };
    let records = vec![AlignedRecord {
        start: 100,
        end: 900,
        words: vec![Word { start: 100, end: 900, content: "hola".to_string() }],
    }];
    match convert_py_cues_to_word_level_cues(records, &doc) {
        Ok(SubtitleCues::Word(v)) => {
            assert_eq!(v.len(), 1);
            assert_eq!((v[0].id, v[0].start, v[0].end), (10, 100, 900));
            assert_eq!(v[0].words[0].content, "hola");
        },
        _ => panic!("expected word cues"),
    }
    let empty = SubtitleDocument { metadata: metadata(None, vec![]), cues: SubtitleCues::Empty };
    assert!(matches!(convert_py_cues_to_word_level_cues(vec![], &empty), Err(AlignmentError::NoSubtitles)));
}

#[test]
fn aligned_documents_keep_metadata() {
    let doc = SubtitleDocument { metadata: metadata(Some("/music/porcelana.lrc"), vec!["es"]), cues: lines() };
    let records = vec![
        CueText { start: 0, end: 1_000, content: "hola".to_string() },
        CueText { start: 1_000, end: 2_000, content: "mundo".to_string() },
    ];
    let d = convert_py_cues_to_line_aligned_subtitle_document(records, doc).unwrap().unwrap();
    assert_eq!(d.metadata.title, Some("Porcelana".to_string()));
    assert_eq!(d.metadata.artists, vec!["Rosalía".to_string()]);
    assert_eq!(d.metadata.file_path, Some("/music/porcelana.elrc".to_string()));
    match &d.cues {
        SubtitleCues::Cue(v) => {
            assert_eq!((v[1].id, v[1].start, v[1].end), (11, 1_000, 2_000));
            assert_eq!(v[1].content, "mundo");
        },
        _ => panic!("expected timed cues"),
    }
    let doc2 = SubtitleDocument { metadata: metadata(None, vec!["es"]), cues: lines() };
    let d2 = convert_py_cues_to_word_aligned_subtitle_document(vec![], doc2).unwrap().unwrap();
    assert!(matches!(&d2.cues, SubtitleCues::Word(v) if v.is_empty()));
    assert_eq!(d2.metadata.file_path, None);
}

#[test]
fn aligned_metadata_changes_only_the_extension() {
    let doc = SubtitleDocument { metadata: metadata(Some("/music/porcelana.txt"), vec!["es"]), cues: SubtitleCues::Empty };
    let m = generate_aligned_metadata(doc);
    assert_eq!(m.file_path, Some("/music/porcelana.elrc".to_string()));
    assert_eq!(m.album, Some("Lux (Complete Works)".to_string()));
    assert_eq!(m.languages[0].code, "es");
}

#[test]
fn alignment_request_needs_language_and_line_cues() {
    let doc = SubtitleDocument { metadata: metadata(None, vec!["es"]), cues: lines() };
    let (language, inputs) = alignment_request(&doc).unwrap();
    assert_eq!(language, "es");
    assert_eq!(inputs.len(), 2);
    assert_eq!((inputs[1].start, inputs[1].end), (0, 0));
    assert_eq!(inputs[1].content, "mundo");
    let no_language = SubtitleDocument { metadata: metadata(None, vec![]), cues: lines() };
    assert!(matches!(alignment_request(&no_language), Err(AlignmentError::NoLanguageCode)));
    let aligned = SubtitleDocument {
        metadata: metadata(None, vec!["es"]),
        cues: SubtitleCues::Word(vec![]),
    };
    assert!(matches!(alignment_request(&aligned), Err(AlignmentError::AlreadyAligned)));
}

fn track() -> Track {
    Track {
        album: None,
        disc_number: None,
        title: "Porcelana".to_string(),
        track_number: None,
        duration: 248_000_000,
        id: None,
        genres: vec![],
        artists: vec![],
        album_artists: vec![],
        file_path: Some("/music/porcelana.flac".to_string()),
    }
}

#[test]
fn alignment_round_trip_in_the_editor() {
    let mut app = App::new(&Config::default());
    assert!(matches!(app.start_alignment(), Err(AlignmentError::NoAudioFilePath)));
    app.state.track = Some(track());
    assert!(matches!(app.start_alignment(), Err(AlignmentError::NoSubtitles)));
    let doc = SubtitleDocument { metadata: metadata(None, vec!["es"]), cues: lines() };
    app.state.reload_subtitle_documents(vec![(SubtitleVariant::Original, doc)]);
    let task = app.start_alignment().unwrap().unwrap();
    assert_eq!(task.audio_file_path, "/music/porcelana.flac");
    assert!(app.state.alignment_running);
    assert!(matches!(app.start_alignment(), Ok(None)));
    let aligned = SubtitleDocument {
        metadata: metadata(None, vec!["es"]),
        cues: SubtitleCues::Cue(vec![Cue { id: 10, start: 0, end: 5, content: "hola".to_string() }]),
    };
    assert!(app.handle_alignment_event(AlignmentResult::Complete(Some(aligned))).is_ok());
    assert!(!app.state.alignment_running);
    assert_eq!(app.synchronizer.mode, SynchronizerMode::Word);
    assert!(matches!(&app.state.subtitle_documents.active().unwrap().document.cues, SubtitleCues::Cue(v) if v.len() == 1));
    app.state.alignment_running = true;
    assert!(matches!(
        app.handle_alignment_event(AlignmentResult::Failed(AlignmentError::InvalidAudioPath)),
        Err(AlignmentError::InvalidAudioPath)
    ));
    assert!(!app.state.alignment_running);
}

#[test]
fn translation_start_and_answer() {
    let mut app = App::new(&Config::default());
    assert!(matches!(app.start_translation(Language { code: "fr".to_string() }), Err(TranslationError::NoSubtitles)));
    let doc = SubtitleDocument { metadata: metadata(None, vec!["es"]), cues: lines() };
    app.state.reload_subtitle_documents(vec![(SubtitleVariant::Original, doc)]);
    let task = app.start_translation(Language { code: "fr".to_string() }).unwrap().unwrap();
    assert_eq!(task.language.code, "fr");
    assert!(app.state.alignment_running);
    app.state.translation_running = true;
    assert!(matches!(
        app.handle_translation_event(TranslationResult::Failed(TranslationError::ServiceError("down".to_string()))),
        Err(TranslationError::ServiceError(m)) if m == "down"
    ));
    assert!(!app.state.translation_running);
}

#[test]
fn subtitle_files_are_classified() {
    let r = classify_subtitle_file("porcelana.elrc", "porcelana").unwrap();
    assert!(matches!(r.0, SubtitleVariant::Original));
    assert_eq!(r.1, SubtitleExtension::ELRC);
    let r = classify_subtitle_file("porcelana.fr.txt", "porcelana").unwrap();
    assert_eq!(variant_code(&r.0), Some("fr".to_string()));
    assert_eq!(r.1, SubtitleExtension::TXT);
    assert!(classify_subtitle_file("porcelana.flac", "porcelana").is_none());
    assert!(classify_subtitle_file("other.lrc", "porcelana").is_none());
    assert!(classify_subtitle_file("porcelana.french.lrc", "porcelana").is_none());
    assert!(classify_subtitle_file("porcelana.fr.elrc", "porcelana").is_none());
}

#[test]
fn best_file_per_variant_is_chosen() {
    let files: Vec<String> = vec![
        "porcelana.txt",
        "porcelana.flac",
        "porcelana.lrc",
        "porcelana.es.txt",
        "porcelana.elrc",
        "porcelana.es.lrc",
        "cover.jpg",
    ]
    .into_iter()
    .map(|s| s.to_string())
    .collect();
    let chosen = choose_candidates(&files, "porcelana");
    assert_eq!(chosen.len(), 2);
    assert!(matches!(chosen[0].variant, SubtitleVariant::Original));
    assert_eq!((chosen[0].extension, chosen[0].index), (SubtitleExtension::ELRC, 4));
    assert_eq!(variant_code(&chosen[1].variant), Some("es".to_string()));
    assert_eq!((chosen[1].extension, chosen[1].index), (SubtitleExtension::LRC, 5));
    assert_eq!(SubtitleExtension::LRC.priority(), 2);
}

#[test]
fn lyrics_formats_and_sources() {
    let l = lyrics_from("[00:01.00] hola".to_string(), "lrc", "lrclib").ok().unwrap();
    assert_eq!(l.format, LyricsFormat::Lrc);
    assert_eq!(l.source, LyricsSource::Lrclib);
    assert_eq!(l.content, "[00:01.00] hola");
    assert_eq!(parse_format("text").ok(), Some(LyricsFormat::Text));
    assert!(parse_format("srt").is_err());
    assert!(lyrics_from("x".to_string(), "lrc", "musixmatch").is_err());
    let service = LyricsService { providers: vec!["lrclib".to_string()] };
    assert!(service.has_provider("lrclib"));
    assert!(!service.has_provider("musixmatch"));
}

#[test]
fn command_line_defaults_to_terminal_editor() {
    assert_eq!(Args { command: None }.resolved_command(), Command::App { frontend: Frontend::Tui });
    assert_eq!(Args { command: Some(Command::Daemon) }.resolved_command(), Command::Daemon);
    assert_eq!(
        Args { command: Some(Command::App { frontend: Frontend::Gui }) }.resolved_command(),
        Command::App { frontend: Frontend::Gui },
    );
}

#[test]
fn lyrics_error_message() {
    assert_eq!(lyrc::lyrics::LyricsError::PythonError("timeout".to_string()).describe(), "Python error: timeout");
}

#[test]
fn default_settings() {
    let c = Config::default();
    assert_eq!(c.targets_in_priority_order, vec!["mpv".to_string(), "cmus".to_string()]);
    assert_eq!((c.rewind_duration, c.fast_forward_duration), (-5_000_000, 5_000_000));
    assert_eq!((c.forwards_cue_increment_large, c.backwards_cue_increment_small), (500_000, 10_000));
}

#[test]
fn text_helpers() {
    let mut s = "hol".to_string();
    edit_text(&mut s, Some('a'));
    assert_eq!(s, "hola");
    edit_text(&mut s, None);
    assert_eq!(s, "hol");
    let mut e = String::new();
    edit_text(&mut e, None);
    assert_eq!(e, "");
}

#[test]
fn history_stacks() {
    let mut h = EditHistory::new();
    assert!(h.is_empty());
    let change = CueTimeChange { id: 1, new_index: 0, old_index: 1, old_start: 0, old_end: 1, new_start: 2, new_end: 3 };
    h.push(Edit::EditCueTimes { changes: vec![change] });
    assert!(!h.is_empty());
    let undone = h.pop_undo().unwrap();
    assert!(h.pop_undo().is_none());
    h.push_redo(undone);
    match h.pop_redo() {
        Some(Edit::EditCueTimes { changes }) => {
            let inv = changes[0].inverse();
            assert_eq!((inv.old_index, inv.new_index, inv.new_start, inv.new_end), (0, 1, 0, 1));
        },
        _ => panic!("expected the time edit back"),
    }
}

#[test]
fn aligned_paths_take_the_elrc_extension() {
    let path_of = |p: &str| {
        let doc = SubtitleDocument { metadata: metadata(Some(p), vec![]), cues: SubtitleCues::Empty };
        generate_aligned_metadata(doc).file_path.unwrap()
    };
    assert_eq!(path_of("/music/song.lrc"), "/music/song.elrc");
    assert_eq!(path_of("/music/song"), "/music/song.elrc");
    assert_eq!(path_of("/music/.hidden"), "/music/.hidden.elrc");
    assert_eq!(path_of("/music/live.2024.txt"), "/music/live.2024.elrc");
    assert_eq!(path_of("song.lrc"), "song.elrc");
}

#[test]
fn downloaded_lyrics_sit_beside_the_track() {
    assert_eq!(lyrc::lyrics::downloaded_lyrics_path(&Some("/music/porcelana.flac".to_string())), Some("/music/porcelana.lrc".to_string()));
    assert_eq!(lyrc::lyrics::downloaded_lyrics_path(&None), None);
}

#[test]
fn completed_alignment_without_document_shows_none() {
    let mut app = App::new(&Config::default());
    app.state.track = Some(track());
    let doc = SubtitleDocument { metadata: metadata(None, vec!["es"]), cues: lines() };
    app.state.reload_subtitle_documents(vec![(SubtitleVariant::Original, doc)]);
    assert!(app.handle_alignment_event(AlignmentResult::Complete(None)).is_ok());
    assert!(app.state.subtitle_documents.active().is_none());
    assert_eq!(app.state.subtitle_documents.documents.len(), 1);
}

#[test]
fn completed_alignment_with_nothing_shown_becomes_the_original() {
    let mut app = App::new(&Config::default());
    let aligned = SubtitleDocument {
        metadata: metadata(None, vec!["es"]),
        cues: SubtitleCues::Cue(vec![Cue { id: 10, start: 0, end: 5, content: "hola".to_string() }]),
    };
    assert!(app.handle_alignment_event(AlignmentResult::Complete(Some(aligned))).is_ok());
    assert!(matches!(app.state.subtitle_documents.active_variant(), Some(SubtitleVariant::Original)));
    assert!(matches!(&app.state.subtitle_documents.active().unwrap().document.cues, SubtitleCues::Cue(v) if v.len() == 1));
}
