//! What the speech-to-text fallback runs: the whisper model's location, the
//! ffmpeg audio extraction and the whisper-cli command line.
use vstd::prelude::*;
use vstd::string::StringExecFns;
use crate::downloader::{
    owned, views,
};

verus! {

broadcast use vstd::string::group_string_axioms;

/// Where the whisper models are downloaded from.
pub const MODEL_URL_BASE: &'static str = "https://huggingface.co/ggerganov/whisper.cpp/resolve/main";

/// The whisper model the app uses (about 78 MB).
pub const MODEL_NAME: &'static str = "ggml-tiny.bin";

/// Local transcription with whisper.cpp.
pub struct Transcriber;

/// The ffmpeg arguments that extract 16 kHz mono 16-bit PCM audio from a video.
pub open spec fn audio_args(video: Seq<char>, wav: Seq<char>) -> Seq<Seq<char>> {
    seq![
        "-i"@,
        video,
        "-ar"@,
        "16000"@,
        "-ac"@,
        "1"@,
        "-c:a"@,
        "pcm_s16le"@,
        "-y"@,
        wav,
    ]
}

/// The whisper-cli arguments that transcribe a WAV file to `prefix.vtt`,
/// detecting the language.
pub open spec fn whisper_args(model: Seq<char>, wav: Seq<char>, prefix: Seq<char>) -> Seq<
    Seq<char>,
> {
    seq!["-m"@, model, "-f"@, wav, "-ovtt"@, "-of"@, prefix, "-l"@, "auto"@]
}

fn concat(a: &str, b: &str) -> (r: String)
    ensures
        r@ == a@ + b@,
{
    let mut r = owned(a);
    r.append(b);
    r
}

impl Transcriber {
    /// The download address of the model: the base, `'/'`, the model name.
    pub fn model_url() -> (r: String)
        ensures
            r@ == MODEL_URL_BASE@ + "/"@ + MODEL_NAME@,
    {
        let mut r = owned(MODEL_URL_BASE);
        r.append("/");
        r.append(MODEL_NAME);
        r
    }

    /// The ffmpeg arguments that extract the audio of `video_path` into `output_wav`.
    pub fn extract_audio_args(video_path: &str, output_wav: &str) -> (r: Vec<String>)
        ensures
            views(r@) == audio_args(video_path@, output_wav@),
    {
        let mut r: Vec<String> = Vec::new();
        r.push(owned("-i"));
        r.push(owned(video_path));
        r.push(owned("-ar"));
        r.push(owned("16000"));
        r.push(owned("-ac"));
        r.push(owned("1"));
        r.push(owned("-c:a"));
        r.push(owned("pcm_s16le"));
        r.push(owned("-y"));
        r.push(owned(output_wav));
        assert(views(r@) =~= audio_args(video_path@, output_wav@));
        r
    }

    /// The result of an audio extraction: success when ffmpeg succeeded,
    /// and otherwise an error that carries ffmpeg's error output.
    pub fn extract_audio_outcome(success: bool, stderr: &str) -> (r: Result<(), String>)
        ensures
            success ==> r is Ok,
            !success ==> (r matches Err(e) && e@ == "ffmpeg audio extraction failed: "@ + stderr@),
    {
        if success {
            Ok(())
        } else {
            Err(concat("ffmpeg audio extraction failed: ", stderr))
        }
    }

    /// The whisper-cli arguments that transcribe `wav_path` with `model_path`.
    pub fn transcribe_args(model_path: &str, wav_path: &str, output_prefix: &str) -> (r: Vec<
        String,
    >)
        ensures
            views(r@) == whisper_args(model_path@, wav_path@, output_prefix@),
    {
        let mut r: Vec<String> = Vec::new();
        r.push(owned("-m"));
        r.push(owned(model_path));
        r.push(owned("-f"));
        r.push(owned(wav_path));
        r.push(owned("-ovtt"));
        r.push(owned("-of"));
        r.push(owned(output_prefix));
        r.push(owned("-l"));
        r.push(owned("auto"));
        assert(views(r@) =~= whisper_args(model_path@, wav_path@, output_prefix@));
        r
    }

    /// Where whisper-cli writes the transcript: `prefix.vtt`.
    pub fn transcript_path(output_prefix: &str) -> (r: String)
        ensures
            r@ == output_prefix@ + ".vtt"@,
    {
        concat(output_prefix, ".vtt")
    }

    /// The result of a transcription: the transcript's path when
    /// whisper-cli succeeded, and otherwise an error that carries its error
    /// output.
    pub fn transcribe_outcome(success: bool, output_prefix: &str, stderr: &str) -> (r: Result<
        String,
        String,
    >)
        ensures
            success ==> (r matches Ok(p) && p@ == output_prefix@ + ".vtt"@),
            !success ==> (r matches Err(e) && e@ == "whisper-cli transcription failed: "@
                + stderr@),
    {
        if success {
            Ok(Self::transcript_path(output_prefix))
        } else {
            Err(concat("whisper-cli transcription failed: ", stderr))
        }
    }
}

} // verus!
