use better_clipper::pipeline::{
    captions_outcome, failure_message, pipeline_step, title_from_output, video_file_name,
    whisper_outcome, Command, Event, Phase, TRANSCRIBE_RESOLUTION,
};

fn run(events: &[Event]) -> (Phase, Vec<(String, String, u8)>, Vec<Command>) {
    let mut phase = Phase::Start;
    let mut reports = Vec::new();
    let mut commands = Vec::new();
    for e in events {
        let step = pipeline_step(phase, *e);
        if let Some(r) = step.report {
            reports.push((r.stage, r.message, r.percent));
        }
        commands.push(step.command);
        phase = step.phase;
    }
    (phase, reports, commands)
}

#[test]
fn captions_path() {
    let (phase, reports, commands) = run(&[
        Event::Begin,
        Event::CaptionsFetched(true),
        Event::TitleFetched,
        Event::CaptionsCopied,
    ]);
    assert_eq!(phase, Phase::Finished);
    assert_eq!(
        commands,
        vec![Command::FetchCaptions, Command::FetchTitle, Command::CopyCaptions, Command::FinishWithCaptions]
    );
    assert_eq!(
        reports,
        vec![
            ("fetching_transcript".to_string(), "Checking for captions...".to_string(), 10),
            ("done".to_string(), "Transcript ready — select a segment to preview.".to_string(), 100),
        ]
    );
}

#[test]
fn whisper_path() {
    let (phase, reports, commands) = run(&[
        Event::Begin,
        Event::CaptionsFetched(false),
        Event::TitleFetched,
        Event::VideoFetched,
        Event::AudioExtracted,
        Event::ModelReady,
        Event::Transcribed,
    ]);
    assert_eq!(phase, Phase::Finished);
    assert_eq!(
        commands,
        vec![
            Command::FetchCaptions,
            Command::FetchTitle,
            Command::FetchVideo,
            Command::ExtractAudio,
            Command::EnsureModel,
            Command::Transcribe,
            Command::FinishWithWhisper,
        ]
    );
    let pcts: Vec<u8> = reports.iter().map(|r| r.2).collect();
    assert_eq!(pcts, vec![10, 15, 35, 50, 60, 100]);
    assert_eq!(reports[1].1, "No captions — downloading video for transcription...");
    assert_eq!(reports[5].1, "Transcription complete — select a segment to preview.");
    assert_eq!(TRANSCRIBE_RESOLUTION, "720p");
}

#[test]
fn unexpected_event_waits() {
    let step = pipeline_step(Phase::AwaitVideo, Event::ModelReady);
    assert_eq!(step.phase, Phase::AwaitVideo);
    assert!(step.report.is_none());
    assert_eq!(step.command, Command::Wait);
}

#[test]
fn progress_monotone_law() {
    let events = [
        Event::Begin,
        Event::Transcribed,
        Event::CaptionsFetched(false),
        Event::Begin,
        Event::TitleFetched,
        Event::VideoFetched,
        Event::VideoFetched,
        Event::AudioExtracted,
        Event::ModelReady,
        Event::Transcribed,
        Event::Begin,
    ];
    let (phase, reports, _) = run(&events);
    for w in reports.windows(2) {
        assert!(w[0].2 <= w[1].2);
    }
    assert_eq!(phase, Phase::Finished);
    assert_eq!(reports.last().unwrap().2, 100);
}

#[test]
fn failure_messages() {
    assert_eq!(failure_message(Command::FetchCaptions, "e"), "Transcript fetch failed: e");
    assert_eq!(failure_message(Command::FetchVideo, "e"), "Download failed: e");
    assert_eq!(failure_message(Command::ExtractAudio, "e"), "Audio extraction failed: e");
    assert_eq!(failure_message(Command::EnsureModel, "e"), "Model setup failed: e");
    assert_eq!(failure_message(Command::Transcribe, "e"), "Transcription failed: e");
    assert_eq!(failure_message(Command::CopyCaptions, "disk full"), "disk full");
}

#[test]
fn outcomes() {
    let c = captions_outcome("id".to_string(), "/t/id.vtt".to_string(), "T".to_string(), "u".to_string());
    assert_eq!(c.transcript_source, "youtube");
    assert!(c.preview_path.is_none());
    assert_eq!(c.transcript_path, "/t/id.vtt");
    let w = whisper_outcome(
        "id".to_string(),
        "/v/id.mp4".to_string(),
        "/t/id.vtt".to_string(),
        "T".to_string(),
        "u".to_string(),
    );
    assert_eq!(w.transcript_source, "whisper");
    assert_eq!(w.preview_path, Some("/v/id.mp4".to_string()));
    assert_eq!(w.title, "T");
    assert_eq!(w.url, "u");
    assert_eq!(w.video_id, "id");
}

#[test]
fn titles() {
    assert_eq!(title_from_output(true, "  My Title \n"), "My Title");
    assert_eq!(title_from_output(false, "My Title"), "");
    assert_eq!(video_file_name("abc", ".wav"), "abc.wav");
}
