use vstd::prelude::*;

use crate::stale::spec_artifact_stale;

verus! {

/// The target formats the pipeline can produce. Bit rate and quality
/// settings live in the one command table below, not at call sites.
#[derive(Clone, Copy, Debug, PartialEq, Eq, Structural)]
pub enum TranscodeFormat {
    Aac,
    Opus,
    Mp3,
}

/// The file extension a format's artifacts carry.
pub open spec fn spec_target_ext(f: TranscodeFormat) -> Seq<char> {
    match f {
        TranscodeFormat::Aac => "m4a"@,
        TranscodeFormat::Opus => "opus"@,
        TranscodeFormat::Mp3 => "mp3"@,
    }
}

/// A format whose encoder does not carry tags over, so the pipeline copies
/// them itself after the rename.
pub open spec fn spec_needs_tag_copy(f: TranscodeFormat) -> bool {
    f is Aac
}

impl TranscodeFormat {
    pub fn target_extension(&self) -> (r: &'static str)
        ensures
            r@ == spec_target_ext(*self),
    {
        match self {
            TranscodeFormat::Aac => "m4a",
            TranscodeFormat::Opus => "opus",
            TranscodeFormat::Mp3 => "mp3",
        }
    }

    pub fn needs_tag_copy(&self) -> (r: bool)
        ensures
            r == spec_needs_tag_copy(*self),
    {
        match self {
            TranscodeFormat::Aac => true,
            _ => false,
        }
    }
}

/// The encoder invocation for one format: program name and full argument
/// list, reading `source` and writing the temporary path `tmp`.
pub open spec fn spec_encoder_args(f: TranscodeFormat, source: Seq<char>, tmp: Seq<char>) -> Seq<
    Seq<char>,
> {
    match f {
        TranscodeFormat::Opus => seq![
            "-y"@,
            "-loglevel"@,
            "quiet"@,
            "-i"@,
            source,
            "-c:a"@,
            "libopus"@,
            "-map"@,
            "a:0"@,
            "-b:a"@,
            "192k"@,
            "-f"@,
            "opus"@,
            tmp,
        ],
        TranscodeFormat::Aac => seq![
            "-d"@,
            "aac"@,
            "-f"@,
            "m4af"@,
            "-s"@,
            "3"@,
            "-ue"@,
            "vbrq"@,
            "64"@,
            source,
            tmp,
        ],
        TranscodeFormat::Mp3 => seq![
            "-y"@,
            "-loglevel"@,
            "quiet"@,
            "-i"@,
            source,
            "-map_metadata"@,
            "0"@,
            "-id3v2_version"@,
            "3"@,
            "-map"@,
            "0"@,
            "-map"@,
            "-0:1"@,
            "-q:a"@,
            "3"@,
            "-f"@,
            "mp3"@,
            tmp,
        ],
    }
}

/// The program that runs the encoding for one format.
pub open spec fn spec_encoder_program(f: TranscodeFormat) -> Seq<char> {
    match f {
        TranscodeFormat::Aac => "afconvert"@,
        _ => "ffmpeg"@,
    }
}

pub fn encoder_program(format: TranscodeFormat) -> (r: &'static str)
    ensures
        r@ == spec_encoder_program(format),
{
    match format {
        TranscodeFormat::Aac => "afconvert",
        _ => "ffmpeg",
    }
}

pub fn encoder_args(format: TranscodeFormat, source: &str, tmp: &str) -> (r: Vec<String>)
    ensures
        r.deep_view() == spec_encoder_args(format, source@, tmp@),
{
    let mut args: Vec<String> = Vec::new();
    match format {
        TranscodeFormat::Opus => {
            args.push(String::from_str("-y"));
            args.push(String::from_str("-loglevel"));
            args.push(String::from_str("quiet"));
            args.push(String::from_str("-i"));
            args.push(source.to_owned());
            args.push(String::from_str("-c:a"));
            args.push(String::from_str("libopus"));
            args.push(String::from_str("-map"));
            args.push(String::from_str("a:0"));
            args.push(String::from_str("-b:a"));
            args.push(String::from_str("192k"));
            args.push(String::from_str("-f"));
            args.push(String::from_str("opus"));
            args.push(tmp.to_owned());
        },
        TranscodeFormat::Aac => {
            args.push(String::from_str("-d"));
            args.push(String::from_str("aac"));
            args.push(String::from_str("-f"));
            args.push(String::from_str("m4af"));
            args.push(String::from_str("-s"));
            args.push(String::from_str("3"));
            args.push(String::from_str("-ue"));
            args.push(String::from_str("vbrq"));
            args.push(String::from_str("64"));
            args.push(source.to_owned());
            args.push(tmp.to_owned());
        },
        TranscodeFormat::Mp3 => {
            args.push(String::from_str("-y"));
            args.push(String::from_str("-loglevel"));
            args.push(String::from_str("quiet"));
            args.push(String::from_str("-i"));
            args.push(source.to_owned());
            args.push(String::from_str("-map_metadata"));
            args.push(String::from_str("0"));
            args.push(String::from_str("-id3v2_version"));
            args.push(String::from_str("3"));
            args.push(String::from_str("-map"));
            args.push(String::from_str("0"));
            args.push(String::from_str("-map"));
            args.push(String::from_str("-0:1"));
            args.push(String::from_str("-q:a"));
            args.push(String::from_str("3"));
            args.push(String::from_str("-f"));
            args.push(String::from_str("mp3"));
            args.push(tmp.to_owned());
        },
    }
    proof {
        assert(args.deep_view() =~= spec_encoder_args(format, source@, tmp@));
    }
    args
}

/// The cover-extraction invocation: drop the audio, keep the embedded
/// picture, writing it to `dest`.
pub open spec fn spec_cover_args(source: Seq<char>, dest: Seq<char>) -> Seq<Seq<char>> {
    seq!["-y"@, "-loglevel"@, "quiet"@, "-i"@, source, "-an"@, dest]
}

/// The program that extracts covers.
pub open spec fn spec_cover_program() -> Seq<char> {
    "ffmpeg"@
}

pub fn cover_program() -> (r: &'static str)
    ensures
        r@ == spec_cover_program(),
{
    "ffmpeg"
}

pub fn cover_args(source: &str, dest: &str) -> (r: Vec<String>)
    ensures
        r.deep_view() == spec_cover_args(source@, dest@),
{
    let mut args: Vec<String> = Vec::new();
    args.push(String::from_str("-y"));
    args.push(String::from_str("-loglevel"));
    args.push(String::from_str("quiet"));
    args.push(String::from_str("-i"));
    args.push(source.to_owned());
    args.push(String::from_str("-an"));
    args.push(dest.to_owned());
    proof {
        assert(args.deep_view() =~= spec_cover_args(source@, dest@));
    }
    args
}

/// What one source file needs this run: the two derived-artifact staleness
/// checks, applied to the sibling cover and to the audio target.
pub struct FileActions {
    pub extract_cover: bool,
    pub transcode: bool,
}

/// Decide one file's work from its modification times alone, so two files
/// never influence each other's jobs. Times are in whole milliseconds.
pub fn plan_file(source_ms: u64, cover_ms: Option<u64>, target_ms: Option<u64>) -> (r: FileActions)
    ensures
        r.extract_cover == spec_artifact_stale(source_ms, cover_ms),
        r.transcode == spec_artifact_stale(source_ms, target_ms),
{
    FileActions {
        extract_cover: crate::stale::artifact_stale(source_ms, cover_ms),
        transcode: crate::stale::artifact_stale(source_ms, target_ms),
    }
}

/// What a path in the destination tree holds, as the publish model sees
/// it: nothing, a half-written file, or one complete artifact identified
/// by a content label and carrying a modification time in whole
/// milliseconds.
#[derive(Clone, Copy, Debug, PartialEq, Eq, Structural)]
pub enum Slot {
    Absent,
    Partial,
    Complete { content: u64, mtime: u64 },
}

/// The modification time a slot shows to the staleness check: none where
/// no complete file is there.
pub open spec fn spec_slot_mtime(s: Slot) -> Option<u64> {
    match s {
        Slot::Complete { content, mtime } => Some(mtime),
        _ => None,
    }
}

/// The destination slots one publish touches: the final target path and
/// its temporary sibling.
#[derive(Clone, Copy, Debug, PartialEq, Eq, Structural)]
pub struct SlotState {
    pub target: Slot,
    pub temp: Slot,
}

/// The steps that publish one transcoded artifact, in order. The caller
/// performs them one by one and stops at the first failure.
#[derive(Clone, Copy, Debug, PartialEq, Eq, Structural)]
pub enum PublishStep {
    /// Delete the stale artifact at the target path.
    RemoveTarget,
    /// Run the encoder, writing to the temporary path in the target's
    /// directory.
    RunEncoder,
    /// Atomically rename the temporary file over the target path.
    RenameTempOverTarget,
    /// Copy the source's tags onto the target.
    CopyTags,
    /// Set the target's modification time to the source's.
    SetTargetMtime,
}

/// The publish protocol for one format.
pub open spec fn spec_publish_steps(f: TranscodeFormat) -> Seq<PublishStep> {
    if spec_needs_tag_copy(f) {
        seq![
            PublishStep::RemoveTarget,
            PublishStep::RunEncoder,
            PublishStep::RenameTempOverTarget,
            PublishStep::CopyTags,
            PublishStep::SetTargetMtime,
        ]
    } else {
        seq![
            PublishStep::RemoveTarget,
            PublishStep::RunEncoder,
            PublishStep::RenameTempOverTarget,
            PublishStep::SetTargetMtime,
        ]
    }
}

pub fn publish_steps(format: TranscodeFormat) -> (r: Vec<PublishStep>)
    ensures
        r@ == spec_publish_steps(format),
{
    let mut steps: Vec<PublishStep> = Vec::new();
    steps.push(PublishStep::RemoveTarget);
    steps.push(PublishStep::RunEncoder);
    steps.push(PublishStep::RenameTempOverTarget);
    if format.needs_tag_copy() {
        steps.push(PublishStep::CopyTags);
    }
    steps.push(PublishStep::SetTargetMtime);
    proof {
        assert(steps@ =~= spec_publish_steps(format));
    }
    steps
}

/// What one step does to the two slots, and whether the run goes on. A
/// failing encoder may leave anything at the temporary path — the model
/// takes the worst case, a half-written file — and ends the run. Only the
/// rename moves content to the target path, and it moves a complete file
/// or nothing. The encoder's output first carries the wall-clock
/// production time `production_ms`; the final step replaces it with the
/// source's time `source_ms`.
pub open spec fn step_effect(
    st: SlotState,
    step: PublishStep,
    encoder_ok: bool,
    fresh: u64,
    production_ms: u64,
    source_ms: u64,
) -> (SlotState, bool) {
    match step {
        PublishStep::RemoveTarget => (SlotState { target: Slot::Absent, temp: st.temp }, true),
        PublishStep::RunEncoder => if encoder_ok {
            (
                SlotState {
                    target: st.target,
                    temp: Slot::Complete { content: fresh, mtime: production_ms },
                },
                true,
            )
        } else {
            (SlotState { target: st.target, temp: Slot::Partial }, false)
        },
        PublishStep::RenameTempOverTarget => (
            SlotState { target: st.temp, temp: Slot::Absent },
            true,
        ),
        PublishStep::CopyTags => (st, true),
        PublishStep::SetTargetMtime => (
            SlotState {
                target: match st.target {
                    Slot::Complete { content, mtime } => Slot::Complete {
                        content,
                        mtime: source_ms,
                    },
                    other => other,
                },
                temp: st.temp,
            },
            true,
        ),
    }
}

/// Run the protocol step by step, stopping at the first failure.
pub open spec fn run_publish(
    steps: Seq<PublishStep>,
    st: SlotState,
    encoder_ok: bool,
    fresh: u64,
    production_ms: u64,
    source_ms: u64,
) -> SlotState
    decreases steps.len(),
{
    if steps.len() == 0 {
        st
    } else {
        let (next, go_on) = step_effect(st, steps[0], encoder_ok, fresh, production_ms, source_ms);
        if go_on {
            run_publish(steps.drop_first(), next, encoder_ok, fresh, production_ms, source_ms)
        } else {
            next
        }
    }
}

/// One step of the protocol, executably.
fn apply_step(
    st: SlotState,
    step: PublishStep,
    encoder_ok: bool,
    fresh: u64,
    production_ms: u64,
    source_ms: u64,
) -> (r: (SlotState, bool))
    ensures
        r == step_effect(st, step, encoder_ok, fresh, production_ms, source_ms),
{
    match step {
        PublishStep::RemoveTarget => (SlotState { target: Slot::Absent, temp: st.temp }, true),
        PublishStep::RunEncoder => if encoder_ok {
            (
                SlotState {
                    target: st.target,
                    temp: Slot::Complete { content: fresh, mtime: production_ms },
                },
                true,
            )
        } else {
            (SlotState { target: st.target, temp: Slot::Partial }, false)
        },
        PublishStep::RenameTempOverTarget => (
            SlotState { target: st.temp, temp: Slot::Absent },
            true,
        ),
        PublishStep::CopyTags => (st, true),
        PublishStep::SetTargetMtime => (
            SlotState {
                target: match st.target {
                    Slot::Complete { content, mtime: _ } => Slot::Complete {
                        content,
                        mtime: source_ms,
                    },
                    other => other,
                },
                temp: st.temp,
            },
            true,
        ),
    }
}

/// Simulate one publish: run the protocol over the slot model, stopping at
/// the first failed step, exactly as the spec-level run does.
pub fn simulate_publish(
    steps: &Vec<PublishStep>,
    start: SlotState,
    encoder_ok: bool,
    fresh: u64,
    production_ms: u64,
    source_ms: u64,
) -> (r: SlotState)
    ensures
        r == run_publish(steps@, start, encoder_ok, fresh, production_ms, source_ms),
{
    let mut st = start;
    let n = steps.len();
    let mut i: usize = 0;
    proof {
        assert(steps@.skip(0) =~= steps@);
    }
    while i < n
        invariant
            i <= n,
            n == steps@.len(),
            run_publish(steps@, start, encoder_ok, fresh, production_ms, source_ms)
                == run_publish(
                steps@.skip(i as int),
                st,
                encoder_ok,
                fresh,
                production_ms,
                source_ms,
            ),
        decreases n - i,
    {
        proof {
            assert(steps@.skip(i as int)[0] == steps@[i as int]);
            assert(steps@.skip(i as int).drop_first() =~= steps@.skip(i as int + 1));
        }
        let (next, go_on) = apply_step(st, steps[i], encoder_ok, fresh, production_ms, source_ms);
        if !go_on {
            return next;
        }
        st = next;
        i = i + 1;
    }
    proof {
        assert(steps@.skip(n as int).len() == 0);
    }
    st
}

/// The cover protocol: a cover image is a derived artifact like any
/// other, so it is published the same way — stale copy removed, extractor
/// writing to the temporary path, atomic rename, and the source's
/// modification time set on the result.
pub open spec fn spec_cover_publish_steps() -> Seq<PublishStep> {
    seq![
        PublishStep::RemoveTarget,
        PublishStep::RunEncoder,
        PublishStep::RenameTempOverTarget,
        PublishStep::SetTargetMtime,
    ]
}

pub fn cover_publish_steps() -> (r: Vec<PublishStep>)
    ensures
        r@ == spec_cover_publish_steps(),
{
    let mut steps: Vec<PublishStep> = Vec::new();
    steps.push(PublishStep::RemoveTarget);
    steps.push(PublishStep::RunEncoder);
    steps.push(PublishStep::RenameTempOverTarget);
    steps.push(PublishStep::SetTargetMtime);
    proof {
        assert(steps@ =~= spec_cover_publish_steps());
    }
    steps
}

/// The cover slot after one file's cover job: a fresh cover is left
/// alone; a stale one goes through the cover protocol.
pub open spec fn spec_cover_job_outcome(
    prior: Slot,
    stale: bool,
    extractor_ok: bool,
    fresh: u64,
    production_ms: u64,
    source_ms: u64,
) -> Slot {
    if !stale {
        prior
    } else {
        run_publish(
            spec_cover_publish_steps(),
            SlotState { target: prior, temp: Slot::Absent },
            extractor_ok,
            fresh,
            production_ms,
            source_ms,
        ).target
    }
}

/// Atomic cover publish: the cover path never holds a partial image; a
/// fresh cover keeps its pre-run content; a published cover carries the
/// source's modification time, never the production time, and is then not
/// stale against its source — a rerun over unchanged sources extracts no
/// cover again.
pub proof fn lemma_atomic_cover_publish(
    prior: Slot,
    stale: bool,
    extractor_ok: bool,
    fresh: u64,
    production_ms: u64,
    source_ms: u64,
)
    requires
        prior is Absent || prior is Complete,
    ensures
        !(spec_cover_job_outcome(prior, stale, extractor_ok, fresh, production_ms, source_ms)
            is Partial),
        !stale ==> spec_cover_job_outcome(prior, stale, extractor_ok, fresh, production_ms,
            source_ms,
        ) == prior,
        stale && extractor_ok ==> spec_cover_job_outcome(
            prior,
            stale,
            extractor_ok,
            fresh,
            production_ms,
            source_ms,
        ) == (Slot::Complete { content: fresh, mtime: source_ms }),
        stale && extractor_ok ==> !crate::stale::spec_artifact_stale(
            source_ms,
            spec_slot_mtime(
                spec_cover_job_outcome(prior, stale, extractor_ok, fresh, production_ms, source_ms),
            ),
        ),
        stale && !extractor_ok ==> spec_cover_job_outcome(
            prior,
            stale,
            extractor_ok,
            fresh,
            production_ms,
            source_ms,
        ) is Absent,
{
    if stale {
        reveal_with_fuel(run_publish, 6);
    }
}

/// The target slot after one file's whole transcode job: a fresh target is
/// left alone; a stale one goes through the publish protocol.
pub open spec fn spec_job_outcome(
    format: TranscodeFormat,
    prior: Slot,
    stale: bool,
    encoder_ok: bool,
    fresh: u64,
    production_ms: u64,
    source_ms: u64,
) -> Slot {
    if !stale {
        prior
    } else {
        run_publish(
            spec_publish_steps(format),
            SlotState { target: prior, temp: Slot::Absent },
            encoder_ok,
            fresh,
            production_ms,
            source_ms,
        ).target
    }
}

/// Atomic publish, and the derived artifact's time invariant. Whatever the
/// encoder outcome, the target path never holds a partial file: a fresh
/// target keeps its pre-run content; a stale one ends complete with the
/// new artifact on success, or absent on failure — the stale copy is
/// removed up front, and a half-written file can exist only at the
/// temporary path, which no rename of a failed run ever moves over the
/// target. A published artifact carries the source's modification time,
/// never the wall-clock production time, so right after a successful
/// publish the artifact is not stale against its source: the next run
/// schedules no work for it.
pub proof fn lemma_atomic_publish(
    format: TranscodeFormat,
    prior: Slot,
    stale: bool,
    encoder_ok: bool,
    fresh: u64,
    production_ms: u64,
    source_ms: u64,
)
    requires
        prior is Absent || prior is Complete,
    ensures
        !(spec_job_outcome(format, prior, stale, encoder_ok, fresh, production_ms, source_ms)
            is Partial),
        !stale ==> spec_job_outcome(format, prior, stale, encoder_ok, fresh, production_ms,
            source_ms,
        ) == prior,
        stale && encoder_ok ==> spec_job_outcome(
            format,
            prior,
            stale,
            encoder_ok,
            fresh,
            production_ms,
            source_ms,
        ) == (Slot::Complete { content: fresh, mtime: source_ms }),
        stale && encoder_ok ==> !crate::stale::spec_artifact_stale(
            source_ms,
            spec_slot_mtime(
                spec_job_outcome(format, prior, stale, encoder_ok, fresh, production_ms, source_ms),
            ),
        ),
        stale && !encoder_ok ==> spec_job_outcome(
            format,
            prior,
            stale,
            encoder_ok,
            fresh,
            production_ms,
            source_ms,
        ) is Absent,
{
    if stale {
        reveal_with_fuel(run_publish, 7);
    }
}

} // verus!
