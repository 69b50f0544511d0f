use better_clipper::downloader::{ms_to_ytdlp_time, CaptionProgress, Downloader};
use better_clipper::export::{
    clock_fields, export_ffmpeg_args, export_outcome, export_target, ffmpeg_time_text,
    preview_cut_outcome, preview_ffmpeg_args,
    preview_path, ExportTarget,
};
use better_clipper::server::{full_reply_header, partial_reply, range_start, range_value, served_url};
use better_clipper::sidecar::{first_existing, sidecar_candidates, sidecar_fallback};
use better_clipper::transcriber::{Transcriber, MODEL_NAME, MODEL_URL_BASE};

fn strs(v: &[&str]) -> Vec<String> {
    v.iter().map(|s| s.to_string()).collect()
}

#[test]
fn ytdlp_time_fields() {
    assert_eq!(ms_to_ytdlp_time(3_723_004), "01:02:03");
    assert_eq!(ms_to_ytdlp_time(0), "00:00:00");
    assert_eq!(ms_to_ytdlp_time(999), "00:00:00");
    assert_eq!(ms_to_ytdlp_time(360_000_000), "100:00:00");
}

#[test]
fn section_time_reads_back_law() {
    for ms in [0u64, 59_999, 61_000, 3_723_004, 360_000_000, 123_456_789] {
        let t = ms_to_ytdlp_time(ms);
        let (h, m, s) = clock_fields(&t).unwrap();
        let (h, m, s): (u64, u64, u64) = (h.parse().unwrap(), m.parse().unwrap(), s.parse().unwrap());
        assert!(m < 60 && s < 60);
        assert_eq!(h * 3600 + m * 60 + s, ms / 1000);
    }
}

#[test]
fn download_percent_text_read() {
    assert_eq!(
        Downloader::download_percent_text("[download]  42.3% of ~50.00MiB at 1.00MiB/s"),
        Some("42.3".to_string())
    );
    assert_eq!(Downloader::download_percent_text("[youtube] abc: Downloading webpage"), None);
    assert_eq!(
        Downloader::download_percent_text("[download] Destination: x.mp4"),
        Some("Destination: x.mp4".to_string())
    );
    assert_eq!(Downloader::download_percent_text("  [download] 5%"), None);
}

#[test]
fn caption_progress_lines() {
    assert!(matches!(
        Downloader::caption_progress("[info] abc: Downloading subtitles: en"),
        CaptionProgress::DownloadingCaptions
    ));
    assert!(matches!(
        Downloader::caption_progress("[SubtitlesConvertor] Converting subtitles"),
        CaptionProgress::ConvertingCaptions
    ));
    match Downloader::caption_progress("[download]  10.0% of 12.00KiB") {
        CaptionProgress::Percent(p) => assert_eq!(p, "10.0"),
        _ => panic!("expected a percentage"),
    }
    assert!(matches!(Downloader::caption_progress("[youtube] other"), CaptionProgress::Nothing));
}

#[test]
fn caption_fetch_command() {
    assert_eq!(
        Downloader::caption_fetch_args("/tmp/v", "abc", "https://youtu.be/abc"),
        strs(&[
            "--skip-download",
            "--write-auto-subs",
            "--write-subs",
            "--sub-langs",
            "en",
            "--convert-subs",
            "vtt",
            "-o",
            "/tmp/v/abc.%(ext)s",
            "--newline",
            "--no-playlist",
            "https://youtu.be/abc",
        ])
    );
    assert_eq!(Downloader::caption_vtt_path("/tmp/v", "abc"), "/tmp/v/abc.en.vtt");
}

#[test]
fn caption_outcome_cases() {
    assert_eq!(Downloader::caption_outcome(true, true, "p".to_string()), Some("p".to_string()));
    assert_eq!(Downloader::caption_outcome(true, false, "p".to_string()), None);
    assert_eq!(Downloader::caption_outcome(false, true, "p".to_string()), None);
}

#[test]
fn section_heights() {
    assert_eq!(Downloader::section_max_height("best"), 2160);
    assert_eq!(Downloader::section_max_height("1080p"), 1080);
    assert_eq!(Downloader::section_max_height("720p"), 720);
    assert_eq!(Downloader::section_max_height("480p"), 480);
    assert_eq!(Downloader::section_max_height("anything"), 480);
}

#[test]
fn section_download_plan() {
    let plan = Downloader::section_plan("/tmp/v", "abc", "URL", 65_000, 70_000, 10, "720p");
    assert_eq!(
        plan.args,
        strs(&[
            "-f",
            "bestvideo[height<=720][vcodec^=avc1]+bestaudio[acodec^=mp4a]/bestvideo[height<=720]+bestaudio/best[height<=720]",
            "--download-sections",
            "*00:00:55-00:01:20",
            "-o",
            "/tmp/v/abc_section_65000_70000.%(ext)s",
            "--merge-output-format",
            "mp4",
            "--newline",
            "--no-playlist",
            "URL",
        ])
    );
    assert_eq!(plan.output_path, "/tmp/v/abc_section_65000_70000.mp4");
}

#[test]
fn section_start_clamped_at_zero() {
    let plan = Downloader::section_plan("d", "id", "u", 5_000, 6_000, 10, "best");
    assert_eq!(plan.args[3], "*00:00:00-00:00:16");
    assert!(plan.args[1].contains("height<=2160"));
}

#[test]
fn video_download_plan() {
    let plan = Downloader::video_plan("/d", "id", "1080p", "u");
    assert_eq!(
        plan.args,
        strs(&[
            "-f",
            "bestvideo[height<=1080][vcodec^=avc1]+bestaudio[acodec^=mp4a]/bestvideo[height<=1080]+bestaudio/best[height<=1080]",
            "-o",
            "/d/id.%(ext)s",
            "--merge-output-format",
            "mp4",
            "--newline",
            "--no-playlist",
            "u",
        ])
    );
    assert_eq!(plan.output_path, "/d/id.mp4");
    assert_eq!(
        Downloader::video_format_flag("720p"),
        "bestvideo[height<=720][vcodec^=avc1]+bestaudio[acodec^=mp4a]/best[height<=720]"
    );
    assert_eq!(
        Downloader::video_format_flag("4k"),
        "bestvideo[height<=2160][vcodec^=avc1]+bestaudio[acodec^=mp4a]/bestvideo[height<=2160]+bestaudio/best[height<=2160]"
    );
}

#[test]
fn model_location() {
    assert_eq!(
        Transcriber::model_url(),
        "https://huggingface.co/ggerganov/whisper.cpp/resolve/main/ggml-tiny.bin"
    );
    assert_eq!(MODEL_NAME, "ggml-tiny.bin");
    assert!(MODEL_URL_BASE.starts_with("https://"));
}

#[test]
fn audio_extraction_command() {
    assert_eq!(
        Transcriber::extract_audio_args("in.mp4", "out.wav"),
        strs(&["-i", "in.mp4", "-ar", "16000", "-ac", "1", "-c:a", "pcm_s16le", "-y", "out.wav"])
    );
    assert_eq!(Transcriber::extract_audio_outcome(true, "boom"), Ok(()));
    assert_eq!(
        Transcriber::extract_audio_outcome(false, "boom"),
        Err("ffmpeg audio extraction failed: boom".to_string())
    );
}

#[test]
fn whisper_command() {
    assert_eq!(
        Transcriber::transcribe_args("m.bin", "a.wav", "/t/id"),
        strs(&["-m", "m.bin", "-f", "a.wav", "-ovtt", "-of", "/t/id", "-l", "auto"])
    );
    assert_eq!(Transcriber::transcript_path("/t/id"), "/t/id.vtt");
    assert_eq!(Transcriber::transcribe_outcome(true, "/t/id", "bad"), Ok("/t/id.vtt".to_string()));
    assert_eq!(
        Transcriber::transcribe_outcome(false, "/t/id", "bad"),
        Err("whisper-cli transcription failed: bad".to_string())
    );
}

#[test]
fn export_command() {
    assert_eq!(
        export_ffmpeg_args("s.mp4", "1.000", "2.033", "out.mp4"),
        strs(&[
            "-i", "s.mp4", "-ss", "1.000", "-to", "2.033", "-c:v", "libx264", "-preset", "ultrafast",
            "-crf", "18", "-c:a", "aac", "-b:a", "192k", "-y", "out.mp4",
        ])
    );
}

#[test]
fn export_target_choice() {
    match export_target(String::new(), 1_700_000_000) {
        ExportTarget::Generated(n) => assert_eq!(n, "clip_1700000000.mp4"),
        ExportTarget::Chosen(_) => panic!("expected a generated name"),
    }
    match export_target("mine.mp4".to_string(), 5) {
        ExportTarget::Chosen(p) => assert_eq!(p, "mine.mp4"),
        ExportTarget::Generated(_) => panic!("expected the chosen path"),
    }
}

#[test]
fn preview_names() {
    assert_eq!(
        preview_path("/c/abc_section_1_2.mp4", "1.50", "3.25"),
        "/c/abc_section_1_2_preview_1.50_3.25.mp4"
    );
    assert_eq!(preview_path("/c/x.webm", "1.00", "2.00"), "/c/x.webm_preview_1.00_2.00.mp4");
    assert_eq!(preview_path(".mp4", "0.00", "1.00"), "_preview_0.00_1.00.mp4");
}

#[test]
fn preview_command() {
    assert_eq!(
        preview_ffmpeg_args("s.mp4", "1.000", "2.000", "p.mp4"),
        strs(&[
            "-i", "s.mp4", "-ss", "1.000", "-t", "2.000", "-c:v", "libx264", "-preset", "ultrafast",
            "-crf", "23", "-c:a", "aac", "-b:a", "128k", "-y", "p.mp4",
        ])
    );
}

#[test]
fn ffmpeg_progress_time() {
    assert_eq!(
        ffmpeg_time_text("frame=  123 fps= 30 q=28.0 size=  512kB time=00:00:05.12 bitrate= 819.2kbits/s"),
        Some("00:00:05.12".to_string())
    );
    assert_eq!(ffmpeg_time_text("time=   "), None);
    assert_eq!(ffmpeg_time_text("no progress here"), None);
    assert_eq!(ffmpeg_time_text("time=01:02:03.00"), Some("01:02:03.00".to_string()));
}

#[test]
fn clock_field_split() {
    assert_eq!(
        clock_fields("00:00:05.12"),
        Some(("00".to_string(), "00".to_string(), "05.12".to_string()))
    );
    assert_eq!(clock_fields("00:05"), None);
    assert_eq!(clock_fields("1:2:3:4"), None);
    assert_eq!(clock_fields("::"), Some((String::new(), String::new(), String::new())));
}

#[test]
fn range_header_read() {
    assert_eq!(range_start("GET / HTTP/1.1\r\nHost: x\r\nRange: bytes=1024-\r\n\r\n"), Some(1024));
    assert_eq!(range_start("GET / HTTP/1.1\r\nRANGE: bytes=7-9\r\n"), Some(7));
    assert_eq!(range_start("GET / HTTP/1.1\r\nrange: BYTES=5-\r\n"), None);
    assert_eq!(range_start("GET / HTTP/1.1\r\nHost: x\r\n\r\n"), None);
    assert_eq!(range_value("Range: bytes= 12 -"), Some(12));
    assert_eq!(range_value("Range: bytes=-500"), None);
}

#[test]
fn range_reply_headers() {
    let r = partial_reply(100, 1000);
    assert_eq!(
        r.header,
        "HTTP/1.1 206 Partial Content\r\nContent-Type: video/mp4\r\nContent-Range: bytes 100-999/1000\r\nContent-Length: 900\r\nAccept-Ranges: bytes\r\n\r\n"
    );
    assert_eq!(r.length, 900);
    assert_eq!(
        full_reply_header(1000),
        "HTTP/1.1 200 OK\r\nContent-Type: video/mp4\r\nContent-Length: 1000\r\nAccept-Ranges: bytes\r\n\r\n"
    );
    assert_eq!(served_url(8080), "http://127.0.0.1:8080");
}

#[test]
fn sidecar_locations() {
    let c = sidecar_candidates("ffmpeg", "x86_64-unknown-linux-gnu");
    assert_eq!(
        c,
        vec![
            strs(&["ffmpeg"]),
            strs(&["binaries", "ffmpeg"]),
            strs(&["binaries", "ffmpeg-x86_64-unknown-linux-gnu"]),
        ]
    );
    assert_eq!(sidecar_fallback("yt-dlp"), strs(&["binaries", "yt-dlp"]));
    assert_eq!(first_existing(&vec![false, true, true]), Some(1));
    assert_eq!(first_existing(&vec![false, false]), None);
}

#[test]
fn caption_stage_reports() {
    let r = Downloader::caption_stage_report(&CaptionProgress::DownloadingCaptions);
    assert_eq!(r, Some(("Downloading captions...".to_string(), 25)));
    let r = Downloader::caption_stage_report(&CaptionProgress::ConvertingCaptions);
    assert_eq!(r, Some(("Converting captions to VTT...".to_string(), 60)));
    assert_eq!(Downloader::caption_stage_report(&CaptionProgress::Percent("5".to_string())), None);
    assert_eq!(Downloader::caption_stage_report(&CaptionProgress::Nothing), None);
}

#[test]
fn section_files_keyed_law() {
    let a = Downloader::section_plan("d", "id", "u", 1, 23, 10, "720p").output_path;
    let b = Downloader::section_plan("d", "id", "u", 12, 3, 10, "720p").output_path;
    let c = Downloader::section_plan("d", "id", "u", 1, 23, 10, "480p").output_path;
    assert_ne!(a, b);
    assert_eq!(a, c);
    assert_eq!(a, "d/id_section_1_23.mp4");
}

#[test]
fn preview_files_keyed_law() {
    let a = preview_path("s.mp4", "1.50", "3.25");
    let b = preview_path("s.mp4", "1.5", "03.25");
    let c = preview_path("s.mp4", "1.50", "3.25");
    assert_ne!(a, b);
    assert_eq!(a, c);
}

#[test]
fn run_outcomes_follow_exit_status() {
    assert_eq!(Downloader::section_outcome(true, "/v/a.mp4".to_string()), Ok("/v/a.mp4".to_string()));
    assert_eq!(
        Downloader::section_outcome(false, "/v/a.mp4".to_string()),
        Err("yt-dlp section download failed".to_string())
    );
    assert_eq!(Downloader::video_outcome(true, "/v/b.mp4".to_string()), Ok("/v/b.mp4".to_string()));
    assert_eq!(
        Downloader::video_outcome(false, "/v/b.mp4".to_string()),
        Err("yt-dlp exited with error".to_string())
    );
    assert_eq!(export_outcome(true, "/e/c.mp4".to_string()), Ok("/e/c.mp4".to_string()));
    assert_eq!(export_outcome(false, "/e/c.mp4".to_string()), Err("ffmpeg export failed".to_string()));
    assert_eq!(preview_cut_outcome(true), Ok(()));
    assert_eq!(preview_cut_outcome(false), Err("ffmpeg preview cut failed".to_string()));
}

#[test]
fn preview_section_is_padded_ten_seconds_at_480p() {
    let p = Downloader::preview_section_plan("/v", "id", "u", 5_000, 15_000);
    let q = Downloader::section_plan("/v", "id", "u", 5_000, 15_000, 10, "480p");
    assert_eq!(p.args, q.args);
    assert_eq!(p.output_path, q.output_path);
    assert_eq!(p.args[3], "*00:00:00-00:00:25");
    assert!(p.args[1].contains("height<=480"));
    assert_eq!(p.output_path, "/v/id_section_5000_15000.mp4");
    assert_eq!(better_clipper::downloader::PREVIEW_RESOLUTION, "480p");
}
