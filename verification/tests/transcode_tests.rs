use audiosync::paths::replace_extension;
use audiosync::transcode::{
    cover_publish_steps, encoder_args, encoder_program, plan_file, publish_steps,
    simulate_publish, PublishStep, Slot, SlotState, TranscodeFormat,
};

#[test]
fn target_extensions_per_format() {
    assert_eq!(TranscodeFormat::Aac.target_extension(), "m4a");
    assert_eq!(TranscodeFormat::Opus.target_extension(), "opus");
    assert_eq!(TranscodeFormat::Mp3.target_extension(), "mp3");
}

#[test]
fn only_aac_needs_the_tag_copy() {
    assert!(TranscodeFormat::Aac.needs_tag_copy());
    assert!(!TranscodeFormat::Opus.needs_tag_copy());
    assert!(!TranscodeFormat::Mp3.needs_tag_copy());
}

#[test]
fn opus_encoder_invocation_is_the_fixed_table_entry() {
    assert_eq!(encoder_program(TranscodeFormat::Opus), "ffmpeg");
    assert_eq!(
        encoder_args(TranscodeFormat::Opus, "in.flac", "out.tmp"),
        vec![
            "-y", "-loglevel", "quiet", "-i", "in.flac", "-c:a", "libopus", "-map", "a:0", "-b:a",
            "192k", "-f", "opus", "out.tmp",
        ]
    );
}

#[test]
fn aac_encoder_invocation_is_the_fixed_table_entry() {
    assert_eq!(encoder_program(TranscodeFormat::Aac), "afconvert");
    assert_eq!(
        encoder_args(TranscodeFormat::Aac, "in.flac", "out.tmp"),
        vec!["-d", "aac", "-f", "m4af", "-s", "3", "-ue", "vbrq", "64", "in.flac", "out.tmp"]
    );
}

#[test]
fn mp3_encoder_invocation_is_the_fixed_table_entry() {
    assert_eq!(encoder_program(TranscodeFormat::Mp3), "ffmpeg");
    assert_eq!(
        encoder_args(TranscodeFormat::Mp3, "in.flac", "out.tmp"),
        vec![
            "-y", "-loglevel", "quiet", "-i", "in.flac", "-map_metadata", "0", "-id3v2_version",
            "3", "-map", "0", "-map", "-0:1", "-q:a", "3", "-f", "mp3", "out.tmp",
        ]
    );
}

#[test]
fn fresh_artifacts_plan_no_work() {
    let actions = plan_file(1000, Some(2000), Some(1000));
    assert!(!actions.extract_cover);
    assert!(!actions.transcode);
}

#[test]
fn missing_artifacts_plan_both_jobs() {
    let actions = plan_file(1000, None, None);
    assert!(actions.extract_cover);
    assert!(actions.transcode);
}

#[test]
fn an_advanced_source_plans_a_regeneration() {
    let actions = plan_file(3000, Some(2000), Some(2000));
    assert!(actions.extract_cover);
    assert!(actions.transcode);
}

#[test]
fn scenario_advancing_one_source_regenerates_exactly_its_mirror() {
    // Both artifacts were published carrying their source's time.
    let t0: u64 = 1_000_000;
    let advanced = plan_file(t0 + 5000, Some(t0), Some(t0));
    let untouched = plan_file(t0, Some(t0), Some(t0));
    assert!(advanced.transcode);
    assert!(!untouched.transcode);
    // The regenerated artifact is the source's mirror under the target
    // extension, and, republished, it carries the new source time and is
    // fresh again.
    assert_eq!(
        replace_extension("A/song.flac", TranscodeFormat::Opus.target_extension()),
        "A/song.opus"
    );
    let after = plan_file(t0 + 5000, Some(t0 + 5000), Some(t0 + 5000));
    assert!(!after.transcode);
    assert!(!after.extract_cover);
}

#[test]
fn a_simulated_encoder_failure_never_leaves_a_partial_target() {
    let production_time: u64 = 9_999_999;
    let source_time: u64 = 700_000;
    for format in [TranscodeFormat::Aac, TranscodeFormat::Opus, TranscodeFormat::Mp3] {
        let steps = publish_steps(format);
        let prior = SlotState {
            target: Slot::Complete { content: 1, mtime: 500_000 },
            temp: Slot::Absent,
        };
        let failed = simulate_publish(&steps, prior, false, 2, production_time, source_time);
        // The stale artifact was removed up front; the half-written file
        // sits only at the temporary path.
        assert_eq!(failed.target, Slot::Absent);
        assert_eq!(failed.temp, Slot::Partial);
        let succeeded = simulate_publish(&steps, prior, true, 2, production_time, source_time);
        // The published artifact carries the source's time, not the
        // wall-clock production time.
        assert_eq!(succeeded.target, Slot::Complete { content: 2, mtime: source_time });
        assert_eq!(succeeded.temp, Slot::Absent);
    }
}

#[test]
fn covers_publish_through_the_same_protocol() {
    let steps = cover_publish_steps();
    assert_eq!(
        steps,
        vec![
            PublishStep::RemoveTarget,
            PublishStep::RunEncoder,
            PublishStep::RenameTempOverTarget,
            PublishStep::SetTargetMtime,
        ]
    );
    let prior = SlotState { target: Slot::Absent, temp: Slot::Absent };
    let done = simulate_publish(&steps, prior, true, 5, 999_999, 4242);
    // The published cover carries the source's time, so a rerun finds it
    // fresh and extracts nothing.
    assert_eq!(done.target, Slot::Complete { content: 5, mtime: 4242 });
    let failed = simulate_publish(&steps, prior, false, 5, 999_999, 4242);
    assert_eq!(failed.target, Slot::Absent);
}

#[test]
fn publish_runs_remove_encode_rename_then_touch() {
    assert_eq!(
        publish_steps(TranscodeFormat::Opus),
        vec![
            PublishStep::RemoveTarget,
            PublishStep::RunEncoder,
            PublishStep::RenameTempOverTarget,
            PublishStep::SetTargetMtime,
        ]
    );
    assert_eq!(
        publish_steps(TranscodeFormat::Aac),
        vec![
            PublishStep::RemoveTarget,
            PublishStep::RunEncoder,
            PublishStep::RenameTempOverTarget,
            PublishStep::CopyTags,
            PublishStep::SetTargetMtime,
        ]
    );
}
