//! The transcript pipeline of a pasted video, as a state machine: fetch the
//! captions; when there are none, download the video, extract its audio,
//! make sure the whisper model is there and transcribe. The app performs
//! each command and hands back the event it produced.
use vstd::prelude::*;
use vstd::string::StringExecFns;
use crate::downloader::owned;
use crate::text::{
    chars_of, string_of, trim, trim_chars,
};

verus! {

broadcast use vstd::string::group_string_axioms;

/// The resolution at which a video without captions is downloaded to be transcribed.
pub const TRANSCRIBE_RESOLUTION: &'static str = "720p";

/// Where the pipeline stands.
#[derive(Debug, Clone, Copy, PartialEq, Eq, Structural)]
pub enum Phase {
    /// Nothing has happened yet.
    Start,
    /// The captions are being fetched.
    AwaitCaptions,
    /// The title is being fetched; the flag says whether captions were found.
    AwaitTitle(bool),
    /// The captions are being copied to the transcripts folder.
    AwaitCopy,
    /// The video is being downloaded.
    AwaitVideo,
    /// Its audio is being extracted.
    AwaitAudio,
    /// The whisper model is being made available.
    AwaitModel,
    /// whisper-cli is transcribing.
    AwaitTranscript,
    /// The transcript is ready.
    Finished,
}

/// What the app reports back after performing a command.
#[derive(Debug, Clone, Copy, PartialEq, Eq, Structural)]
pub enum Event {
    /// The pipeline is started.
    Begin,
    /// The caption fetch ended; the flag says whether captions were found.
    CaptionsFetched(bool),
    /// The title fetch ended (it never fails).
    TitleFetched,
    /// The captions were copied.
    CaptionsCopied,
    /// The video was downloaded.
    VideoFetched,
    /// The audio was extracted.
    AudioExtracted,
    /// The whisper model is available.
    ModelReady,
    /// The transcript was written.
    Transcribed,
}

/// What the app does next.
#[derive(Debug, Clone, Copy, PartialEq, Eq, Structural)]
pub enum Command {
    /// Fetch the captions with yt-dlp.
    FetchCaptions,
    /// Fetch the video title for export file names.
    FetchTitle,
    /// Copy the fetched captions to the transcripts folder.
    CopyCaptions,
    /// Download the whole video at [`TRANSCRIBE_RESOLUTION`].
    FetchVideo,
    /// Extract 16 kHz mono audio with ffmpeg.
    ExtractAudio,
    /// Make the whisper model available.
    EnsureModel,
    /// Transcribe the audio with whisper-cli.
    Transcribe,
    /// Answer with the fetched captions as the transcript.
    FinishWithCaptions,
    /// Answer with the whisper transcript and the downloaded video.
    FinishWithWhisper,
    /// The event does not belong to the phase: nothing to do.
    Wait,
}

/// A progress report for the UI.
pub struct Report {
    pub stage: String,
    pub message: String,
    pub percent: u8,
}

/// The outcome of a step: the next phase, a report to emit first (if any),
/// and the command to perform.
pub struct Step {
    pub phase: Phase,
    pub report: Option<Report>,
    pub command: Command,
}

/// The progress reached once the pipeline is in phase `p`.
pub open spec fn phase_percent(p: Phase) -> nat {
    match p {
        Phase::Start => 0,
        Phase::AwaitCaptions => 10,
        Phase::AwaitTitle(_) => 10,
        Phase::AwaitCopy => 10,
        Phase::AwaitVideo => 15,
        Phase::AwaitAudio => 35,
        Phase::AwaitModel => 50,
        Phase::AwaitTranscript => 60,
        Phase::Finished => 100,
    }
}

/// The stage, message and percentage of a report.
pub type ReportModel = (Seq<char>, Seq<char>, nat);

/// One step of the pipeline: the next phase, the report emitted before the
/// command, and the command.
pub open spec fn pipeline_step_spec(p: Phase, e: Event) -> (Phase, Option<ReportModel>, Command) {
    match (p, e) {
        (Phase::Start, Event::Begin) => (
            Phase::AwaitCaptions,
            Some(("fetching_transcript"@, "Checking for captions..."@, 10)),
            Command::FetchCaptions,
        ),
        (Phase::AwaitCaptions, Event::CaptionsFetched(found)) => (
            Phase::AwaitTitle(found),
            None,
            Command::FetchTitle,
        ),
        (Phase::AwaitTitle(true), Event::TitleFetched) => (
            Phase::AwaitCopy,
            None,
            Command::CopyCaptions,
        ),
        (Phase::AwaitCopy, Event::CaptionsCopied) => (
            Phase::Finished,
            Some(("done"@, "Transcript ready — select a segment to preview."@, 100)),
            Command::FinishWithCaptions,
        ),
        (Phase::AwaitTitle(false), Event::TitleFetched) => (
            Phase::AwaitVideo,
            Some(("download"@, "No captions — downloading video for transcription..."@, 15)),
            Command::FetchVideo,
        ),
        (Phase::AwaitVideo, Event::VideoFetched) => (
            Phase::AwaitAudio,
            Some(("extract_audio"@, "Extracting audio..."@, 35)),
            Command::ExtractAudio,
        ),
        (Phase::AwaitAudio, Event::AudioExtracted) => (
            Phase::AwaitModel,
            Some(("ensure_model"@, "Checking whisper model..."@, 50)),
            Command::EnsureModel,
        ),
        (Phase::AwaitModel, Event::ModelReady) => (
            Phase::AwaitTranscript,
            Some(("transcribe"@, "Transcribing with whisper..."@, 60)),
            Command::Transcribe,
        ),
        (Phase::AwaitTranscript, Event::Transcribed) => (
            Phase::Finished,
            Some(("done"@, "Transcription complete — select a segment to preview."@, 100)),
            Command::FinishWithWhisper,
        ),
        _ => (p, None, Command::Wait),
    }
}

/// The value of a report.
pub open spec fn report_model(r: Report) -> ReportModel {
    (r.stage@, r.message@, r.percent as nat)
}

fn report(stage: &str, message: &str, percent: u8) -> (r: Report)
    ensures
        report_model(r) == (stage@, message@, percent as nat),
{
    Report { stage: owned(stage), message: owned(message), percent }
}

/// The next phase, report and command after event `e` in phase `p`.
pub fn pipeline_step(p: Phase, e: Event) -> (r: Step)
    ensures
        (r.phase, match r.report {
            Some(rep) => Some(report_model(rep)),
            None => None,
        }, r.command) == pipeline_step_spec(p, e),
{
    match (p, e) {
        (Phase::Start, Event::Begin) => Step {
            phase: Phase::AwaitCaptions,
            report: Some(report("fetching_transcript", "Checking for captions...", 10)),
            command: Command::FetchCaptions,
        },
        (Phase::AwaitCaptions, Event::CaptionsFetched(found)) => Step {
            phase: Phase::AwaitTitle(found),
            report: None,
            command: Command::FetchTitle,
        },
        (Phase::AwaitTitle(true), Event::TitleFetched) => Step {
            phase: Phase::AwaitCopy,
            report: None,
            command: Command::CopyCaptions,
        },
        (Phase::AwaitCopy, Event::CaptionsCopied) => Step {
            phase: Phase::Finished,
            report: Some(report("done", "Transcript ready — select a segment to preview.", 100)),
            command: Command::FinishWithCaptions,
        },
        (Phase::AwaitTitle(false), Event::TitleFetched) => Step {
            phase: Phase::AwaitVideo,
            report: Some(
                report("download", "No captions — downloading video for transcription...", 15),
            ),
            command: Command::FetchVideo,
        },
        (Phase::AwaitVideo, Event::VideoFetched) => Step {
            phase: Phase::AwaitAudio,
            report: Some(report("extract_audio", "Extracting audio...", 35)),
            command: Command::ExtractAudio,
        },
        (Phase::AwaitAudio, Event::AudioExtracted) => Step {
            phase: Phase::AwaitModel,
            report: Some(report("ensure_model", "Checking whisper model...", 50)),
            command: Command::EnsureModel,
        },
        (Phase::AwaitModel, Event::ModelReady) => Step {
            phase: Phase::AwaitTranscript,
            report: Some(report("transcribe", "Transcribing with whisper...", 60)),
            command: Command::Transcribe,
        },
        (Phase::AwaitTranscript, Event::Transcribed) => Step {
            phase: Phase::Finished,
            report: Some(
                report("done", "Transcription complete — select a segment to preview.", 100),
            ),
            command: Command::FinishWithWhisper,
        },
        _ => Step { phase: p, report: None, command: Command::Wait },
    }
}

/// The phase and the report percentages after the events `es`, from the start.
pub open spec fn pipeline_run(es: Seq<Event>) -> (Phase, Seq<nat>)
    decreases es.len(),
{
    if es.len() == 0 {
        (Phase::Start, seq![])
    } else {
        let (p, ps) = pipeline_run(es.drop_last());
        let (q, rep, _) = pipeline_step_spec(p, es.last());
        match rep {
            Some((_, _, pct)) => (q, ps.push(pct)),
            None => (q, ps),
        }
    }
}

/// The pipeline's own reports never go backwards: over any sequence of
/// events, the percentages that its steps report never decrease, none is
/// above the progress of the phase reached, and every report that moves the
/// pipeline to a phase carries that phase's progress; the pipeline is
/// finished exactly when it has reported 100. (The reports that a caption
/// fetch emits while it runs are not steps of the pipeline.)
pub proof fn lemma_progress_monotone(es: Seq<Event>)
    ensures
        ({
            let (p, ps) = pipeline_run(es);
            &&& forall|i: int, j: int| 0 <= i <= j < ps.len() ==> ps[i] <= ps[j]
            &&& forall|i: int| 0 <= i < ps.len() ==> ps[i] <= phase_percent(p)
            &&& ps.len() > 0 ==> ps.last() == phase_percent(p)
            &&& (p == Phase::Finished <==> (ps.len() > 0 && ps.last() == 100))
        }),
    decreases es.len(),
{
    if es.len() > 0 {
        lemma_progress_monotone(es.drop_last());
    }
}

/// The answer of the pipeline: the transcript and where it came from.
pub struct ProcessOutcome {
    pub video_id: String,
    /// The downloaded video, when the transcript came from whisper.
    pub preview_path: Option<String>,
    pub transcript_path: String,
    /// `"youtube"` for fetched captions, `"whisper"` for a local transcription.
    pub transcript_source: String,
    pub title: String,
    pub url: String,
}

/// The answer when the video's captions are the transcript.
pub fn captions_outcome(video_id: String, transcript_path: String, title: String, url: String) -> (r:
    ProcessOutcome)
    ensures
        r.video_id == video_id,
        r.preview_path is None,
        r.transcript_path == transcript_path,
        r.transcript_source@ == "youtube"@,
        r.title == title,
        r.url == url,
{
    ProcessOutcome {
        video_id,
        preview_path: None,
        transcript_path,
        transcript_source: owned("youtube"),
        title,
        url,
    }
}

/// The answer when whisper transcribed the downloaded video.
pub fn whisper_outcome(
    video_id: String,
    preview_path: String,
    transcript_path: String,
    title: String,
    url: String,
) -> (r: ProcessOutcome)
    ensures
        r.video_id == video_id,
        r.preview_path == Some(preview_path),
        r.transcript_path == transcript_path,
        r.transcript_source@ == "whisper"@,
        r.title == title,
        r.url == url,
{
    ProcessOutcome {
        video_id,
        preview_path: Some(preview_path),
        transcript_path,
        transcript_source: owned("whisper"),
        title,
        url,
    }
}

/// The message of a failed command: `"<what> failed: <error>"`, naming the
/// step that failed; a failed copy or title fetch passes the error on as it is.
pub open spec fn failure_message_spec(c: Command, e: Seq<char>) -> Seq<char> {
    match c {
        Command::FetchCaptions => "Transcript fetch failed: "@ + e,
        Command::FetchVideo => "Download failed: "@ + e,
        Command::ExtractAudio => "Audio extraction failed: "@ + e,
        Command::EnsureModel => "Model setup failed: "@ + e,
        Command::Transcribe => "Transcription failed: "@ + e,
        _ => e,
    }
}

/// The error the pipeline answers with when command `c` failed with `e`.
pub fn failure_message(c: Command, e: &str) -> (r: String)
    ensures
        r@ == failure_message_spec(c, e@),
{
    let mut r = match c {
        Command::FetchCaptions => owned("Transcript fetch failed: "),
        Command::FetchVideo => owned("Download failed: "),
        Command::ExtractAudio => owned("Audio extraction failed: "),
        Command::EnsureModel => owned("Model setup failed: "),
        Command::Transcribe => owned("Transcription failed: "),
        _ => String::new(),
    };
    r.append(e);
    r
}

/// The title printed by yt-dlp: its output trimmed when it succeeded, and
/// empty otherwise.
pub fn title_from_output(success: bool, stdout: &str) -> (r: String)
    ensures
        r@ == (if success {
            trim(stdout@)
        } else {
            Seq::<char>::empty()
        }),
{
    if success {
        string_of(&trim_chars(&chars_of(stdout)))
    } else {
        String::new()
    }
}

/// `id` followed by `ext`: the name of a per-video file.
pub fn video_file_name(video_id: &str, ext: &str) -> (r: String)
    ensures
        r@ == video_id@ + ext@,
{
    let mut r = owned(video_id);
    r.append(ext);
    r
}

} // verus!
