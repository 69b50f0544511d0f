# better_clipper

The logic behind a desktop clipper for online videos: it reads a video's
captions (WebVTT), merges the overlapping fragments of automatic captions
into clean segments, builds a searchable transcript with byte offsets tied to
timestamps, and plans the yt-dlp, ffmpeg and whisper-cli runs that download
sections, cut previews and export clips. The library's functions are
verified with Verus against their contracts; two small wrappers of std
functions that vstd does not specify (`str::to_lowercase`, `String::push`)
are trusted, and their contracts say what is assumed.

Layout:

- `src/text.rs`: characters and strings (trimming, searching, decimal
  numbers, UTF-8 sizes) with their lemmas.
- `src/vtt.rs`: cue timestamps, tag stripping, entity decoding and the
  WebVTT reader.
- `src/merge.rs`: the caption-fragment merge, with its ordering laws.
- `src/transcript.rs`: the continuous transcript text and its timepoints.
- `src/downloader.rs`, `src/transcriber.rs`, `src/export.rs`,
  `src/sidecar.rs`: the command lines, output paths and progress lines of
  the helper programs.
- `src/server.rs`: the `Range` header and the replies of the local video server.
- `src/pipeline.rs`: the transcript pipeline as a state machine.
- `tests/`: tests on concrete values.
- `app/`: the desktop shell (tauri commands, processes, files, network,
  floating-point progress), which performs what the library decides.
