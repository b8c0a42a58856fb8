use iphone_bridge::dictate::{
    clean_transcript, decode_f32_le, deliver, encode_wav_16k_mono, ffmpeg_args, finish_and_deliver,
    join_path, recogniser_ready, scratch_name, transcribe_upload, transcribe_wav, whisper_args,
    whisper_dir, whisper_exe, whisper_model, DictationBuffer, Run, MAX_SAMPLES,
};
use iphone_bridge::voice::settings::VoiceSettings;
use iphone_bridge::voice::plan;

/// A deterministic stereo stream: left ramps, right is its negation.
fn fake_stream(frames: usize) -> Vec<u32> {
    (0..frames)
        .flat_map(|i| {
            let v = i as f32 * 0.001;
            [v.to_bits(), (-v * 0.5).to_bits()]
        })
        .collect()
}

fn run(success: bool, stdout: &str, stderr: &str) -> Run {
    Run {
        success,
        status: "exit code: 1".to_string(),
        stdout: stdout.to_string(),
        stderr: stderr.to_string(),
    }
}

#[test]
fn strips_blank_audio_marker() {
    assert_eq!(clean_transcript(" [BLANK_AUDIO]\n"), "");
    assert_eq!(clean_transcript("(silence)"), "");
}

#[test]
fn keeps_real_speech_and_trims() {
    assert_eq!(
        clean_transcript("  Hello there, this is a test.\n"),
        "Hello there, this is a test."
    );
}

#[test]
fn collapses_whitespace_across_segment_joins() {
    // whisper emits one line per segment; joined naively they carry
    // leading spaces and newlines into the middle of the text.
    assert_eq!(
        clean_transcript(" First segment.\n  Second segment.\n"),
        "First segment. Second segment."
    );
}

#[test]
fn strips_markers_but_keeps_surrounding_speech() {
    assert_eq!(
        clean_transcript("Hello [BLANK_AUDIO] world"),
        "Hello world"
    );
}


#[test]
fn decodes_f32_little_endian() {
    let mut bytes = Vec::new();
    for v in [0.0f32, 1.0, -0.5] {
        bytes.extend_from_slice(&v.to_le_bytes());
    }
    let samples: Vec<f32> = decode_f32_le(&bytes).into_iter().map(f32::from_bits).collect();
    assert_eq!(samples, vec![0.0, 1.0, -0.5]);
}


#[test]
fn decode_ignores_trailing_partial_sample() {
    let mut bytes = 1.0f32.to_le_bytes().to_vec();
    bytes.extend_from_slice(&[0xAA, 0xBB]); // half an f32
    let samples: Vec<f32> = decode_f32_le(&bytes).into_iter().map(f32::from_bits).collect();
    assert_eq!(samples, vec![1.0]);
}


#[test]
fn chunked_pushes_match_one_big_push() {
    // The stream is split at arbitrary points, and resample groups span 3 frames, so a
    // naive implementation silently loses or duplicates audio at every chunk boundary.
    let stream = fake_stream(600);

    let mut whole = DictationBuffer::default();
    whole.start();
    let expected = whole.push(&stream);
    let expected_len = whole.finish();

    let mut split = DictationBuffer::default();
    split.start();
    let mut actual = Vec::new();
    // Deliberately awkward sizes: none are multiples of 3 frames.
    let mut pos = 0;
    for chunk in [14usize, 2, 88, 7, 301, 4] {
        let take = chunk.min(stream.len() - pos);
        actual.extend(split.push(&stream[pos..pos + take]));
        pos += take;
        if pos >= stream.len() {
            break;
        }
    }
    actual.extend(split.push(&stream[pos..]));
    let actual_len = split.finish();

    assert_eq!(actual_len, expected_len, "chunking changed the length");
    assert_eq!(actual, expected);
}


#[test]
fn start_discards_the_previous_session() {
    let mut b = DictationBuffer::default();
    b.start();
    b.push(&fake_stream(300));
    b.start();
    assert_eq!(b.finish(), 0, "start must clear old audio");
}


#[test]
fn push_is_ignored_when_not_started() {
    let mut b = DictationBuffer::default();
    assert!(b.push(&fake_stream(300)).is_empty());
    assert_eq!(b.finish(), 0);
}


#[test]
fn finish_deactivates_and_empties() {
    let mut b = DictationBuffer::default();
    b.start();
    assert!(b.is_active());
    b.push(&fake_stream(300));
    assert_ne!(b.finish(), 0);
    assert!(!b.is_active(), "finish must end the session");
    assert_eq!(b.finish(), 0, "second finish yields nothing");
}


#[test]
fn caps_runaway_recordings() {
    let mut b = DictationBuffer::default();
    b.start();
    // 3 input frames per output sample, so overshoot the cap comfortably.
    let chunk = fake_stream(MAX_SAMPLES / 10);
    for _ in 0..40 {
        b.push(&chunk);
    }
    assert!(b.overflowed(), "should report dropping audio");
    assert!(b.finish() <= MAX_SAMPLES, "must not exceed the cap");
}


#[test]
fn drops_trailing_partial_frame() {
    // 7 frames = 2 whole groups of 3 with 1 left over.
    let mut b = DictationBuffer::default();
    b.start();
    assert_eq!(b.push(&[0u32; 14]).len(), 12);
    assert_eq!(b.finish(), 2);
}


#[test]
fn wav_header_is_well_formed() {
    // 0.0, 0.5 and -0.5 as 16-bit samples.
    let wav = encode_wav_16k_mono(&[0, 16_384, -16_384]);
    assert_eq!(&wav[0..4], b"RIFF");
    assert_eq!(&wav[8..12], b"WAVE");
    assert_eq!(&wav[12..16], b"fmt ");
    assert_eq!(u16::from_le_bytes([wav[22], wav[23]]), 1, "mono");
    assert_eq!(
        u32::from_le_bytes([wav[24], wav[25], wav[26], wav[27]]),
        16_000,
        "16kHz"
    );
    assert_eq!(u16::from_le_bytes([wav[34], wav[35]]), 16, "16-bit");
    assert_eq!(&wav[36..40], b"data");
    assert_eq!(wav.len(), 44 + 3 * 2, "44-byte header + i16 per sample");
    assert_eq!(i16::from_le_bytes([wav[46], wav[47]]), 16_384);
    assert_eq!(i16::from_le_bytes([wav[48], wav[49]]), -16_384);
}


#[test]
fn rejects_audio_it_cannot_decode() {
    let failed = run(false, "", " Invalid data found \n");
    let err = transcribe_upload(&failed, &run(true, "words", "")).unwrap_err();
    assert_eq!(err, "could not decode the uploaded audio: Invalid data found");
}


#[test]
fn a_transcript_is_cleaned_and_a_failure_told() {
    assert_eq!(transcribe_wav(&run(true, " Hello [BLANK_AUDIO] world\n", "")), Ok("Hello world".to_string()));
    assert_eq!(
        transcribe_wav(&run(false, "", " boom\n")),
        Err("whisper-cli exited with exit code: 1: boom".to_string())
    );
    assert_eq!(transcribe_upload(&run(true, "", ""), &run(true, "ok", "")), Ok("ok".to_string()));
}


#[test]
fn the_recogniser_lies_below_the_application_data() {
    assert_eq!(join_path(r"C:\x", "y"), r"C:\x\y");
    let dir = whisper_dir(Some(r"C:\L"), r"C:\T");
    assert!(dir.starts_with(r"C:\L"));
    assert!(whisper_dir(None, r"C:\T").starts_with(r"C:\T"));
    assert!(whisper_exe(Some(r"C:\L"), "").starts_with(&dir));
    assert!(whisper_model(Some(r"C:\L"), "").starts_with(&dir));
    assert_eq!(
        recogniser_ready("e", false, "m", true),
        Err("whisper-cli.exe not found at e".to_string())
    );
    assert_eq!(
        recogniser_ready("e", true, "m", false),
        Err("whisper model not found at m".to_string())
    );
    assert_eq!(recogniser_ready("e", true, "m", true), Ok(()));
}


#[test]
fn the_programs_are_told_what_to_do() {
    assert_eq!(
        whisper_args("m", "f.wav", Some(" Tailscale ")),
        vec!["-m", "m", "-f", "f.wav", "--no-timestamps", "--no-prints", "--prompt", "Tailscale"]
    );
    assert_eq!(whisper_args("m", "f", Some("  ")).len(), 6);
    assert_eq!(
        ffmpeg_args("in", "out.wav"),
        vec![
            "-y", "-loglevel", "error", "-i", "in", "-ac", "1", "-ar", "16000", "-c:a",
            "pcm_s16le", "-f", "wav", "out.wav"
        ]
    );
    assert_eq!(scratch_name("iphone-bridge-upload", 12, 3), "iphone-bridge-upload-12-3");
    assert_ne!(scratch_name("x", 1, 2), scratch_name("x", 1, 3));
}


#[test]
fn only_words_are_delivered() {
    assert!(deliver("").is_none());
    assert_eq!(deliver("ab").unwrap().len(), 4);
    let cfg = VoiceSettings::default();
    let p = plan(&cfg, None);
    let none = Err("unused".to_string());
    let silent = finish_and_deliver(0, &Err("x".to_string()), &cfg, &p, &none, &Ok(())).unwrap();
    assert_eq!(silent.text, "");
    let spoken = finish_and_deliver(9, &Ok(" hi ".to_string()), &cfg, &p, &none, &Ok(())).unwrap();
    assert_eq!(spoken.text, "hi");
    assert!(finish_and_deliver(9, &Err("x".to_string()), &cfg, &p, &none, &Ok(())).is_err());
    assert!(
        finish_and_deliver(9, &Ok("hi".to_string()), &cfg, &p, &none, &Err("y".to_string())).is_err()
    );
}


#[test]
fn a_parenthesis_that_is_not_closed_is_kept() {
    assert_eq!(clean_transcript("(silence"), "(silence");
    assert_eq!(clean_transcript("one (silence) two (silence"), "one two (silence");
    // A bracket is always a marker, and one that is not closed reaches to the end.
    assert_eq!(clean_transcript("so [BLANK_AUDIO it is"), "so");
}


#[test]
fn cleaning_twice_is_cleaning_once_and_leaves_single_spaces() {
    for raw in [
        "  Hello \t there \n",
        "a ( silence ) b",
        "((silence)) [x] (y z",
        "[[BLANK_AUDIO] inaudible]",
        "(silence)(inaudible)",
        "",
    ] {
        let once = clean_transcript(raw);
        assert_eq!(clean_transcript(&once), once);
        assert_eq!(once, once.split_whitespace().collect::<Vec<_>>().join(" "));
    }
}
