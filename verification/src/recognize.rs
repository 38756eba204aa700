//! The recognition of a frame: whether to run a backend, what its output gives and what is kept.

use crate::cut;
use crate::error;
use crate::error::OcrError;
use crate::frame;
use crate::frame::{FrameModel, OcrFrameResult};
use crate::json;
use crate::number;
use crate::observation;
use crate::observation::{ObservationModel, OcrObservation};
use crate::payload;
use crate::payload::{PointModel, PADDLEOCR_JSON_PREFIX, RAPIDOCR_JSON_PREFIX};
use crate::policy;
use crate::policy::{
    OcrBackend, OcrMode, OcrPolicy, PolicyModel, PADDLEOCR_BACKEND_NAME, RAPIDOCR_BACKEND_NAME,
    TESSERACT_BACKEND_NAME,
};
use crate::process;
use crate::process::ProcessOutput;
use crate::readiness;
use crate::readiness::{
    CheckModel, OcrReadiness, PaddleOcrVersionsModel, RapidOcrVersionsModel, ReadinessModel,
    RunOutcome,
};
use crate::selection;
use crate::selection::{ProbedModel, StepModel};
use crate::text;
use crate::tsv;
use crate::tsv::WordModel;
use serde_json::Value;
use vstd::prelude::*;
use vstd::string::*;

verus! {

/// What to do about a frame.
pub enum RecognitionStep {
    /// Nothing: this is the result.
    Done(OcrFrameResult),
    /// Run this backend.
    Run(OcrBackend),
    /// Nothing can be run.
    Fail(OcrError),
}

/// A `RecognitionStep`, its contents taken by their views and errors by their messages.
pub enum RecognitionModel {
    Done(FrameModel),
    Run(OcrBackend),
    Fail(Seq<char>),
}

impl View for RecognitionStep {
    type V = RecognitionModel;

    open spec fn view(&self) -> RecognitionModel {
        match *self {
            RecognitionStep::Done(frame) => RecognitionModel::Done(frame@),
            RecognitionStep::Run(backend) => RecognitionModel::Run(backend),
            RecognitionStep::Fail(error) => RecognitionModel::Fail(error::error_text(error)),
        }
    }
}

/// The backend of a name.
pub open spec fn backend_of_name(name: Seq<char>) -> Option<OcrBackend> {
    if name == RAPIDOCR_BACKEND_NAME@ {
        Some(OcrBackend::RapidOcr)
    } else if name == PADDLEOCR_BACKEND_NAME@ {
        Some(OcrBackend::PaddleOcr)
    } else if name == TESSERACT_BACKEND_NAME@ {
        Some(OcrBackend::Tesseract)
    } else {
        None
    }
}

/// What to do about a frame, given the readiness.
pub open spec fn recognition_step(
    policy: PolicyModel,
    readiness: ReadinessModel,
) -> RecognitionModel {
    if policy.mode == OcrMode::Disabled {
        RecognitionModel::Done(frame::skipped_frame(readiness))
    } else if !readiness.available {
        if policy.mode == OcrMode::Required {
            RecognitionModel::Done(frame::required_unavailable_frame(readiness))
        } else {
            RecognitionModel::Done(frame::skipped_frame(readiness))
        }
    } else {
        match backend_of_name(readiness.backend) {
            Some(backend) => RecognitionModel::Run(backend),
            None => RecognitionModel::Fail(
                "OCR backend `"@ + readiness.backend + "` is not runnable"@,
            ),
        }
    }
}

/// The backend to run, by the name that the readiness gives.
pub fn recognize_frame_inner(readiness: &OcrReadiness) -> (r: Result<OcrBackend, OcrError>)
    ensures
        match backend_of_name(readiness@.backend) {
            Some(backend) => r == Ok::<OcrBackend, OcrError>(backend),
            None => r matches Err(OcrError::NotRunnable(name)) && name@ == readiness@.backend,
        },
{
    let name = readiness.backend.as_str();
    if text::same_text(name, RAPIDOCR_BACKEND_NAME) {
        Ok(OcrBackend::RapidOcr)
    } else if text::same_text(name, PADDLEOCR_BACKEND_NAME) {
        Ok(OcrBackend::PaddleOcr)
    } else if text::same_text(name, TESSERACT_BACKEND_NAME) {
        Ok(OcrBackend::Tesseract)
    } else {
        Err(OcrError::NotRunnable(readiness.backend.clone()))
    }
}

/// What to do about a frame, given the readiness.
pub fn recognize_frame_with_readiness(policy: &OcrPolicy, readiness: &OcrReadiness) -> (step:
    RecognitionStep)
    ensures
        step@ == recognition_step(policy@, readiness@),
{
    if policy.mode == OcrMode::Disabled {
        return RecognitionStep::Done(OcrFrameResult::skipped(readiness));
    }
    if !readiness.available {
        return if policy.mode == OcrMode::Required {
            RecognitionStep::Done(OcrFrameResult::required_unavailable(readiness))
        } else {
            RecognitionStep::Done(OcrFrameResult::skipped(readiness))
        };
    }
    match recognize_frame_inner(readiness) {
        Ok(backend) => RecognitionStep::Run(backend),
        Err(error) => RecognitionStep::Fail(error),
    }
}

/// The language that a backend reads.
pub open spec fn language_of(policy: PolicyModel, backend: OcrBackend) -> Seq<char> {
    match backend {
        OcrBackend::RapidOcr => policy.rapidocr_language,
        OcrBackend::PaddleOcr => policy.paddleocr_language,
        OcrBackend::Tesseract => policy.language,
    }
}

/// A frame in which a backend saw these texts.
pub open spec fn completed_frame(
    policy: PolicyModel,
    backend: OcrBackend,
    seen: Seq<ObservationModel>,
    duration_ms: int,
) -> FrameModel {
    FrameModel {
        runs_ocr: true,
        status: "completed"@,
        backend: policy::name_of_backend(backend),
        language: language_of(policy, backend),
        backend_version: None,
        normalized_text: observation::joined_text(seen),
        dependency_hint: None,
        error: None,
        duration_ms,
        truncated: false,
        suppressed_text_observation_count: 0,
        observations: seen,
    }
}

/// A frame in which a backend saw these texts.
pub fn complete_frame(
    policy: &OcrPolicy,
    backend: OcrBackend,
    observations: Vec<OcrObservation>,
    duration_ms: u128,
) -> (frame: OcrFrameResult)
    ensures
        frame@ == completed_frame(
            policy@,
            backend,
            observation::observations_view(observations@),
            duration_ms as int,
        ),
{
    let normalized_text = observation::join_observations(&observations);
    OcrFrameResult {
        runs_ocr: true,
        status: "completed".to_owned(),
        backend: backend.name().to_owned(),
        language: match backend {
            OcrBackend::RapidOcr => policy.rapidocr_language.clone(),
            OcrBackend::PaddleOcr => policy.paddleocr_language.clone(),
            OcrBackend::Tesseract => policy.language.clone(),
        },
        backend_version: None,
        normalized_text,
        dependency_hint: None,
        error: None,
        duration_ms,
        truncated: false,
        suppressed_text_observation_count: 0,
        observations,
    }
}

/// A result of a frame, that taken by its view.
pub open spec fn frame_view(r: Result<OcrFrameResult, OcrError>) -> Result<FrameModel, OcrError> {
    match r {
        Ok(frame) => Ok(frame@),
        Err(error) => Err(error),
    }
}

/// The frame with the texts that were seen in it, if they could be read.
pub open spec fn frame_of_seen(
    policy: PolicyModel,
    backend: OcrBackend,
    seen: Result<Seq<ObservationModel>, OcrError>,
    duration_ms: int,
) -> Result<FrameModel, OcrError> {
    match seen {
        Ok(seen) => Ok(completed_frame(policy, backend, seen, duration_ms)),
        Err(error) => Err(error),
    }
}

/// What the output of a Python backend gives: an error, where the program failed, wrote no payload
/// or wrote one that is no document or lacks the boxes or the texts; else the frame with the texts
/// in the payload.
pub open spec fn python_frame(
    policy: PolicyModel,
    backend: OcrBackend,
    prefix: Seq<char>,
    output: ProcessOutput,
    duration_ms: int,
    image_width: u32,
    image_height: u32,
) -> Result<FrameModel, OcrError> {
    if !output.success {
        Err(OcrError::Exited(backend, output.status))
    } else {
        match payload::payload_in(process::utf8_lossy(output.stdout@), prefix) {
            None => Err(OcrError::PayloadNotFound(backend)),
            Some(line) => match json::parsed_json(line) {
                None => Err(OcrError::PayloadUnreadable(backend)),
                Some(document) => frame_of_seen(
                    policy,
                    backend,
                    payload::observations_in(
                        payload::payload_of(document),
                        image_width,
                        image_height,
                    ),
                    duration_ms,
                ),
            },
        }
    }
}

fn frame_of_document(
    policy: &OcrPolicy,
    backend: OcrBackend,
    document: &Value,
    duration_ms: u128,
    image_width: u32,
    image_height: u32,
) -> (r: Result<OcrFrameResult, OcrError>)
    ensures
        frame_view(r) == frame_of_seen(
            policy@,
            backend,
            payload::observations_in(
                payload::payload_of(json::json_model(*document)),
                image_width,
                image_height,
            ),
            duration_ms as int,
        ),
{
    match payload::observations_from_rapidocr_json(document, image_width, image_height) {
        Ok(observations) => Ok(complete_frame(policy, backend, observations, duration_ms)),
        Err(error) => Err(error),
    }
}

/// What the output of RapidOCR gives.
pub fn recognize_frame_rapidocr(
    policy: &OcrPolicy,
    output: &ProcessOutput,
    duration_ms: u128,
    image_width: u32,
    image_height: u32,
) -> (r: Result<OcrFrameResult, OcrError>)
    ensures
        frame_view(r) == python_frame(
            policy@,
            OcrBackend::RapidOcr,
            RAPIDOCR_JSON_PREFIX@,
            *output,
            duration_ms as int,
            image_width,
            image_height,
        ),
{
    if !output.success {
        return Err(OcrError::Exited(OcrBackend::RapidOcr, output.status.clone()));
    }
    match payload::parse_rapidocr_json_line(output) {
        Ok(document) => frame_of_document(
            policy,
            OcrBackend::RapidOcr,
            &document,
            duration_ms,
            image_width,
            image_height,
        ),
        Err(error) => Err(error),
    }
}

/// What the output of PaddleOCR gives.
pub fn recognize_frame_paddleocr(
    policy: &OcrPolicy,
    output: &ProcessOutput,
    duration_ms: u128,
    image_width: u32,
    image_height: u32,
) -> (r: Result<OcrFrameResult, OcrError>)
    ensures
        frame_view(r) == python_frame(
            policy@,
            OcrBackend::PaddleOcr,
            PADDLEOCR_JSON_PREFIX@,
            *output,
            duration_ms as int,
            image_width,
            image_height,
        ),
{
    if !output.success {
        return Err(OcrError::Exited(OcrBackend::PaddleOcr, output.status.clone()));
    }
    match payload::parse_paddleocr_json_line(output) {
        Ok(document) => frame_of_document(
            policy,
            OcrBackend::PaddleOcr,
            &document,
            duration_ms,
            image_width,
            image_height,
        ),
        Err(error) => Err(error),
    }
}

/// The error of a run of Tesseract that ended with a failure status.
pub open spec fn tesseract_failure(success: bool, status: String) -> Option<OcrError> {
    if success {
        None
    } else {
        Some(OcrError::Exited(OcrBackend::Tesseract, status))
    }
}

/// The error of a run of Tesseract that ended with a failure status.
pub fn tesseract_exit(success: bool, status: &String) -> (r: Result<(), OcrError>)
    ensures
        r is Ok <==> tesseract_failure(success, *status) is None,
        r matches Err(error) ==> tesseract_failure(success, *status) == Some(error),
        r == if success {
            Ok::<(), OcrError>(())
        } else {
            Err::<(), OcrError>(OcrError::Exited(OcrBackend::Tesseract, *status))
        },
{
    if success {
        Ok(())
    } else {
        Err(OcrError::Exited(OcrBackend::Tesseract, status.clone()))
    }
}

/// What the table that Tesseract wrote gives: an error, where it lacks a column; else the frame with
/// the texts in it.
pub fn recognize_frame_tesseract(
    policy: &OcrPolicy,
    tsv: &str,
    duration_ms: u128,
    image_width: u32,
    image_height: u32,
) -> (r: Result<OcrFrameResult, OcrError>)
    requires
        tsv::missing_column(tsv@) is None ==> tsv::has_complete_rows(tsv@),
    ensures
        match r {
            Ok(frame) => tsv::missing_column(tsv@) is None && frame@ == completed_frame(
                policy@,
                OcrBackend::Tesseract,
                tsv::observations_of_words(tsv::words_of(tsv@), image_width, image_height),
                duration_ms as int,
            ),
            Err(error) => error matches OcrError::MissingColumn(name) && tsv::missing_column(tsv@)
                == Some(name@),
        },
{
    match tsv::observations_from_tsv(tsv, image_width, image_height) {
        Ok(observations) => Ok(
            complete_frame(policy, OcrBackend::Tesseract, observations, duration_ms),
        ),
        Err(error) => Err(error),
    }
}

/// The error of a run that was stopped at the time limit.
pub open spec fn timeout_failure(backend: OcrBackend, timeout_ms: u64) -> OcrError {
    if backend == OcrBackend::Tesseract {
        OcrError::TesseractTimedOut(timeout_ms)
    } else {
        OcrError::TimedOut(timeout_ms)
    }
}

/// The error of a run that was stopped at the time limit.
pub fn timeout_error(backend: OcrBackend, timeout_ms: u64) -> (error: OcrError)
    ensures
        error == timeout_failure(backend, timeout_ms),
        error == match backend {
            OcrBackend::Tesseract => OcrError::TesseractTimedOut(timeout_ms),
            _ => OcrError::TimedOut(timeout_ms),
        },
{
    match backend {
        OcrBackend::Tesseract => OcrError::TesseractTimedOut(timeout_ms),
        _ => OcrError::TimedOut(timeout_ms),
    }
}

/// What is kept of a run: the frame without excluded texts and within the limits, or the failure.
pub open spec fn finished_frame(
    policy: PolicyModel,
    readiness: ReadinessModel,
    result: Result<FrameModel, OcrError>,
    elapsed_nanos: int,
    duration_ms: int,
    values: Seq<Seq<char>>,
) -> FrameModel {
    match result {
        Ok(frame) => frame::limited(
            frame::excluded(FrameModel { backend_version: readiness.version, ..frame }, values),
        ),
        Err(error) => frame::failed_frame(
            readiness,
            if elapsed_nanos >= policy.timeout_ms * 1_000_000 {
                "timeout"@
            } else {
                "error"@
            },
            duration_ms,
            error::error_text(error),
        ),
    }
}

/// What is kept of a run that took `elapsed_nanos` and, at the end of it, `duration_ms`.
pub fn finish_frame(
    policy: &OcrPolicy,
    readiness: &OcrReadiness,
    result: Result<OcrFrameResult, OcrError>,
    elapsed_nanos: u128,
    duration_ms: u128,
    exclusion_values: &[String],
) -> (frame: OcrFrameResult)
    ensures
        frame@ == finished_frame(
            policy@,
            readiness@,
            frame_view(result),
            elapsed_nanos as int,
            duration_ms as int,
            text::views(exclusion_values@),
        ),
{
    match result {
        Ok(frame) => {
            let mut frame = frame;
            frame.backend_version = text::copy_option(&readiness.version);
            frame.apply_text_exclusions(exclusion_values);
            frame.apply_persistence_limits();
            frame
        },
        Err(error) => OcrFrameResult::failure(
            readiness,
            if process::is_timed_out(elapsed_nanos, policy.timeout_ms) {
                "timeout"
            } else {
                "error"
            },
            duration_ms,
            error.message(),
        ),
    }
}

/// While recognition is switched off, and while no backend is ready, no backend runs and no text is
/// kept.
pub proof fn law_no_run_without_ready_backend(policy: PolicyModel, readiness: ReadinessModel)
    requires
        policy.mode == OcrMode::Disabled || !readiness.available,
    ensures
        recognition_step(policy, readiness) matches RecognitionModel::Done(frame)
            && !frame.runs_ocr && frame.normalized_text.len() == 0 && frame.observations.len() == 0,
{
}

/// Where recognition is required and no backend is ready, the frame says so, with the reason and the
/// remedy.
pub proof fn law_required_backend_is_reported(policy: PolicyModel, readiness: ReadinessModel)
    requires
        policy.mode == OcrMode::Required,
        !readiness.available,
    ensures
        recognition_step(policy, readiness) matches RecognitionModel::Done(frame) && frame.status
            == "required_backend_unavailable"@ && frame.error is Some && frame.dependency_hint
            == readiness.dependency_hint && (readiness.error is Some ==> frame.error
            == readiness.error),
{
}

proof fn lemma_backend_names_differ(backend: OcrBackend)
    ensures
        backend_of_name(policy::name_of_backend(backend)) == Some(backend),
{
    reveal_strlit("rapidocr-python");
    reveal_strlit("paddleocr-python");
    reveal_strlit("tesseract-cli");
    assert("rapidocr-python"@.len() == 15);
    assert("paddleocr-python"@.len() == 16);
    assert("tesseract-cli"@.len() == 13);
}

/// A backend that was found ready runs.
pub proof fn law_ready_backend_runs(
    policy: PolicyModel,
    readiness: ReadinessModel,
    backend: OcrBackend,
)
    requires
        policy.mode != OcrMode::Disabled,
        readiness.available,
        readiness.backend == policy::name_of_backend(backend),
    ensures
        recognition_step(policy, readiness) == RecognitionModel::Run(backend),
{
    lemma_backend_names_differ(backend);
}

/// Whatever the checks of the backends report, the answer on the readiness is one on which a frame
/// is settled or a backend runs: none is taken for ready that could not be run.
pub proof fn law_readiness_can_be_acted_on(
    policy: PolicyModel,
    rapidocr: CheckModel<RapidOcrVersionsModel>,
    paddleocr: CheckModel<PaddleOcrVersionsModel>,
    tesseract: RunOutcome,
)
    ensures
        ({
            let probed = ProbedModel {
                rapidocr: Some(readiness::rapidocr_readiness_of(policy, rapidocr)),
                paddleocr: Some(readiness::paddleocr_readiness_of(policy, paddleocr)),
                tesseract: Some(readiness::tesseract_readiness_of(policy, tesseract)),
            };
            selection::readiness_step(policy, probed) matches StepModel::Done(answer) && !(
            recognition_step(policy, answer) is Fail)
        }),
{
    lemma_backend_names_differ(OcrBackend::RapidOcr);
    lemma_backend_names_differ(OcrBackend::PaddleOcr);
    lemma_backend_names_differ(OcrBackend::Tesseract);
}

/// Whether the candidates of every observation have its text.
pub open spec fn all_candidates_agree(seen: Seq<ObservationModel>) -> bool {
    forall|i: int| 0 <= i < seen.len() ==> frame::candidates_agree(#[trigger] seen[i])
}

proof fn lemma_payload_candidates_agree(
    boxes: Seq<Option<Seq<PointModel>>>,
    txts: Seq<Option<Seq<char>>>,
    scores: Option<Seq<Option<u64>>>,
    image_width: u32,
    image_height: u32,
    count: int,
)
    ensures
        all_candidates_agree(
            payload::observations_up_to(boxes, txts, scores, image_width, image_height, count),
        ),
    decreases count,
{
    if count > 0 {
        lemma_payload_candidates_agree(boxes, txts, scores, image_width, image_height, count - 1);
    }
}

proof fn lemma_payload_boxes_are_proper(
    boxes: Seq<Option<Seq<PointModel>>>,
    txts: Seq<Option<Seq<char>>>,
    scores: Option<Seq<Option<u64>>>,
    image_width: u32,
    image_height: u32,
    count: int,
)
    ensures
        observation::have_proper_boxes(
            payload::observations_up_to(boxes, txts, scores, image_width, image_height, count),
        ),
    decreases count,
{
    if count > 0 {
        let index = count - 1;
        lemma_payload_boxes_are_proper(boxes, txts, scores, image_width, image_height, index);
        if let Some(rect) = payload::bounds_of(boxes[index]) {
            observation::law_rect_is_share_of_frame(
                rect,
                image_width,
                image_height,
                text::trimmed(txts[index]->Some_0),
                payload::score_of(scores, index),
            );
        }
    }
}

/// Every place in a frame that a Python backend recognised has values.
pub proof fn law_python_frame_has_measures(
    policy: PolicyModel,
    backend: OcrBackend,
    prefix: Seq<char>,
    output: ProcessOutput,
    duration_ms: int,
    image_width: u32,
    image_height: u32,
)
    ensures
        python_frame(
            policy,
            backend,
            prefix,
            output,
            duration_ms,
            image_width,
            image_height,
        ) matches Ok(frame) ==> observation::have_proper_boxes(frame.observations),
{
    if let Some(line) = payload::payload_in(process::utf8_lossy(output.stdout@), prefix) {
        if let Some(document) = json::parsed_json(line) {
            let payload = payload::payload_of(document);
            if payload.boxes is Some && payload.txts is Some {
                lemma_payload_boxes_are_proper(
                    payload.boxes->Some_0,
                    payload.txts->Some_0,
                    payload.scores,
                    image_width,
                    image_height,
                    payload.txts->Some_0.len() as int,
                );
            }
        }
    }
}

/// Every place in a frame that Tesseract recognised has values.
pub proof fn law_tesseract_frame_has_measures(
    words: Seq<WordModel>,
    image_width: u32,
    image_height: u32,
)
    ensures
        observation::have_proper_boxes(
            tsv::observations_of_words(words, image_width, image_height),
        ),
{
    let runs = tsv::runs_of(words);
    let seen = tsv::observations_of_words(words, image_width, image_height);
    assert forall|i: int| 0 <= i < seen.len() implies observation::is_proper_box(
        (#[trigger] seen[i]).bounding_box,
    ) by {
        tsv::law_line_has_measures(runs[i], image_width, image_height);
    }
}

/// What is kept of a frame whose places have values has places with values.
pub proof fn law_finished_frame_has_measures(
    policy: PolicyModel,
    readiness: ReadinessModel,
    result: Result<FrameModel, OcrError>,
    elapsed_nanos: int,
    duration_ms: int,
    values: Seq<Seq<char>>,
)
    requires
        result matches Ok(frame) ==> observation::have_proper_boxes(frame.observations),
    ensures
        observation::have_proper_boxes(
            finished_frame(
                policy,
                readiness,
                result,
                elapsed_nanos,
                duration_ms,
                values,
            ).observations,
        ),
{
    let kept = finished_frame(policy, readiness, result, elapsed_nanos, duration_ms, values);
    if let Ok(frame) = result {
        assert forall|i: int| 0 <= i < kept.observations.len() implies observation::is_proper_box(
            (#[trigger] kept.observations[i]).bounding_box,
        ) by {
            assert(kept.observations[i].bounding_box == frame.observations[i].bounding_box);
        }
    }
}

/// The text of a frame that a Python backend recognised is that of its observations, and so are the
/// texts of the candidates.
pub proof fn law_python_frame_agrees(
    policy: PolicyModel,
    backend: OcrBackend,
    prefix: Seq<char>,
    output: ProcessOutput,
    duration_ms: int,
    image_width: u32,
    image_height: u32,
)
    ensures
        python_frame(
            policy,
            backend,
            prefix,
            output,
            duration_ms,
            image_width,
            image_height,
        ) matches Ok(frame) ==> frame::is_text_of_observations(frame) && all_candidates_agree(
            frame.observations,
        ),
{
    if let Some(line) = payload::payload_in(process::utf8_lossy(output.stdout@), prefix) {
        if let Some(document) = json::parsed_json(line) {
            let payload = payload::payload_of(document);
            if payload.boxes is Some && payload.txts is Some {
                lemma_payload_candidates_agree(
                    payload.boxes->Some_0,
                    payload.txts->Some_0,
                    payload.scores,
                    image_width,
                    image_height,
                    payload.txts->Some_0.len() as int,
                );
            }
        }
    }
}

/// The text of a frame that Tesseract recognised is that of its observations, and so are the texts of
/// the candidates.
pub proof fn law_tesseract_frame_agrees(
    policy: PolicyModel,
    words: Seq<WordModel>,
    duration_ms: int,
    image_width: u32,
    image_height: u32,
)
    ensures
        ({
            let frame = completed_frame(
                policy,
                OcrBackend::Tesseract,
                tsv::observations_of_words(words, image_width, image_height),
                duration_ms,
            );
            frame::is_text_of_observations(frame) && all_candidates_agree(frame.observations)
        }),
{
}

/// What is kept of a frame stays within the limits, whether its recognition failed or not.
pub proof fn law_finished_frame_is_within_limits(
    policy: PolicyModel,
    readiness: ReadinessModel,
    result: Result<FrameModel, OcrError>,
    elapsed_nanos: int,
    duration_ms: int,
    values: Seq<Seq<char>>,
)
    ensures
        ({
            let kept = finished_frame(
                policy,
                readiness,
                result,
                elapsed_nanos,
                duration_ms,
                values,
            );
            &&& kept.observations.len() <= frame::MAX_OCR_OBSERVATIONS
            &&& cut::byte_len(kept.normalized_text) <= frame::MAX_OCR_NORMALIZED_TEXT_BYTES
            &&& !frame::has_long_observation(kept.observations)
        }),
{
    match result {
        Ok(frame) => {
            frame::law_limits_are_kept(
                frame::excluded(FrameModel { backend_version: readiness.version, ..frame }, values),
            );
        },
        Err(_) => {},
    }
}

/// What is kept of a frame whose text is that of its observations holds no excluded value in the
/// text of an observation, none in that of a candidate, and none in the text of the frame. (In the
/// last, a value that runs over several lines may come about where the text of an observation was
/// cut.)
pub proof fn law_finished_frame_holds_no_value(
    policy: PolicyModel,
    readiness: ReadinessModel,
    frame: FrameModel,
    elapsed_nanos: int,
    duration_ms: int,
    values: Seq<Seq<char>>,
    k: int,
)
    requires
        frame::is_text_of_observations(frame),
        all_candidates_agree(frame.observations),
        0 <= k < values.len(),
        !text::is_blank_text(values[k]),
    ensures
        ({
            let kept = finished_frame(
                policy,
                readiness,
                Ok(frame),
                elapsed_nanos,
                duration_ms,
                values,
            );
            &&& forall|i: int|
                0 <= i < kept.observations.len() ==> !holds(
                    (#[trigger] kept.observations[i]).normalized_text,
                    values[k],
                )
            &&& forall|i: int, j: int|
                0 <= i < kept.observations.len() && 0 <= j
                    < kept.observations[i].top_candidates.len() ==> !holds(
                    (#[trigger] kept.observations[i].top_candidates[j]).text,
                    values[k],
                )
            &&& !values[k].contains('\n') || !frame::has_long_observation(
                frame::kept_observations(frame.observations),
            ) ==> !holds(kept.normalized_text, values[k])
        }),
{
    let versioned = FrameModel { backend_version: readiness.version, ..frame };
    let kept = frame::limited(frame::excluded(versioned, values));
    assert forall|i: int| 0 <= i < kept.observations.len() implies !holds(
        (#[trigger] kept.observations[i]).normalized_text,
        values[k],
    ) by {
        frame::law_no_kept_observation_holds_value(versioned, values, k, i);
    }
    assert forall|i: int, j: int|
        0 <= i < kept.observations.len() && 0 <= j
            < kept.observations[i].top_candidates.len() implies !holds(
        (#[trigger] kept.observations[i].top_candidates[j]).text,
        values[k],
    ) by {
        assert(frame::candidates_agree(frame.observations[i]));
        frame::law_no_kept_candidate_holds_value(versioned, values, k, i, j);
    }
    if !values[k].contains('\n') || !frame::has_long_observation(
        frame::kept_observations(frame.observations),
    ) {
        frame::law_no_kept_text_holds_value(versioned, values, k);
    }
}

/// Whether a value stands in a text, whatever the case of its ASCII letters.
pub open spec fn holds(text: Seq<char>, value: Seq<char>) -> bool {
    text::occurs(text::lowered(text), text::lowered(value))
}

/// A failed recognition keeps no text, and it is put down to the time limit exactly where that has
/// passed.
pub proof fn law_failure_keeps_no_text(
    policy: PolicyModel,
    readiness: ReadinessModel,
    error: OcrError,
    elapsed_nanos: int,
    duration_ms: int,
    values: Seq<Seq<char>>,
)
    ensures
        ({
            let kept = finished_frame(
                policy,
                readiness,
                Err(error),
                elapsed_nanos,
                duration_ms,
                values,
            );
            &&& kept.runs_ocr
            &&& kept.normalized_text.len() == 0
            &&& kept.observations.len() == 0
            &&& kept.error == Some(error::error_text(error))
            &&& kept.status == "timeout"@ <==> elapsed_nanos >= policy.timeout_ms * 1_000_000
        }),
{
    reveal_strlit("timeout");
    reveal_strlit("error");
    assert("timeout"@.len() == 7);
    assert("error"@.len() == 5);
}

/// A recognised frame names the backend and the language that the backend was given, holds what was
/// seen and its text, and reports nothing wrong.
pub proof fn law_completed_frame_says_what_was_seen(
    policy: PolicyModel,
    backend: OcrBackend,
    seen: Seq<ObservationModel>,
    duration_ms: int,
)
    ensures
        ({
            let frame = completed_frame(policy, backend, seen, duration_ms);
            &&& frame.runs_ocr && !frame.truncated
            &&& frame.status == "completed"@
            &&& backend == OcrBackend::RapidOcr ==> frame.backend == "rapidocr-python"@
                && frame.language == policy.rapidocr_language
            &&& backend == OcrBackend::PaddleOcr ==> frame.backend == "paddleocr-python"@
                && frame.language == policy.paddleocr_language
            &&& backend == OcrBackend::Tesseract ==> frame.backend == "tesseract-cli"@
                && frame.language == policy.language
            &&& frame.observations == seen
            &&& frame.normalized_text == observation::joined_text(seen)
            &&& frame.duration_ms == duration_ms
            &&& frame.error is None && frame.dependency_hint is None && frame.backend_version is None
            &&& frame.suppressed_text_observation_count == 0
        }),
{
}

/// The output of a Python backend gives exactly one of these: the error that the program failed,
/// where it did; else that there is no payload, where no line begins with the prefix; else that the
/// payload cannot be read; else that boxes, or else texts, are missing; else the frame.
pub proof fn law_python_output_gives_first_error_or_frame(
    policy: PolicyModel,
    backend: OcrBackend,
    prefix: Seq<char>,
    output: ProcessOutput,
    duration_ms: int,
    image_width: u32,
    image_height: u32,
)
    ensures
        ({
            let frame = python_frame(
                policy,
                backend,
                prefix,
                output,
                duration_ms,
                image_width,
                image_height,
            );
            let line = payload::payload_in(process::utf8_lossy(output.stdout@), prefix);
            let document = match line {
                Some(line) => json::parsed_json(line),
                None => None,
            };
            let payload = payload::payload_of(document->Some_0);
            &&& !output.success <==> frame == Err::<FrameModel, OcrError>(
                OcrError::Exited(backend, output.status),
            )
            &&& output.success && line is None <==> frame == Err::<FrameModel, OcrError>(
                OcrError::PayloadNotFound(backend),
            )
            &&& output.success && line is Some && document is None <==> frame == Err::<
                FrameModel,
                OcrError,
            >(OcrError::PayloadUnreadable(backend))
            &&& output.success && document is Some && payload.boxes is None <==> frame == Err::<
                FrameModel,
                OcrError,
            >(OcrError::MissingBoxes)
            &&& output.success && document is Some && payload.boxes is Some && payload.txts is None
                <==> frame == Err::<FrameModel, OcrError>(OcrError::MissingTexts)
            &&& frame matches Ok(frame) ==> frame == completed_frame(
                policy,
                backend,
                payload::observations_in(payload, image_width, image_height)->Ok_0,
                duration_ms,
            )
        }),
{
}

/// What is kept of a run that succeeded has the version of the readiness; where no excluded value
/// was found and nothing had to be cut, it is otherwise what the run gave. The exclusions are looked
/// for before anything is cut.
pub proof fn law_finished_frame_is_the_recognised_one(
    policy: PolicyModel,
    readiness: ReadinessModel,
    frame: FrameModel,
    elapsed_nanos: int,
    duration_ms: int,
    values: Seq<Seq<char>>,
)
    requires
        frame::is_text_of_observations(frame),
    ensures
        ({
            let kept = finished_frame(
                policy,
                readiness,
                Ok(frame),
                elapsed_nanos,
                duration_ms,
                values,
            );
            let found = exists|k: int|
                0 <= k < values.len() && !text::is_blank_text(#[trigger] values[k]) && holds(
                    frame.normalized_text,
                    values[k],
                );
            &&& kept.backend_version == readiness.version
            &&& kept.runs_ocr == frame.runs_ocr
            &&& kept.backend == frame.backend
            &&& kept.language == frame.language
            &&& kept.dependency_hint == frame.dependency_hint
            &&& kept.error == frame.error
            &&& kept.duration_ms == frame.duration_ms
            &&& found ==> kept.normalized_text.len() == 0 && kept.observations.len() == 0
                && kept.status == "suppressed_by_exclusion_text"@
                && kept.suppressed_text_observation_count == frame.observations.len()
                && kept.truncated == frame.truncated
            &&& !found ==> kept.status == frame.status && (!kept.truncated
                ==> kept.normalized_text == frame.normalized_text && kept.observations
                == frame.observations)
        }),
{
    let versioned = FrameModel { backend_version: readiness.version, ..frame };
    let left = frame::excluded(versioned, values);
    frame::law_excluded_exactly_where_a_value_stands(versioned, values);
    frame::law_kept_text_is_that_of_kept_observations(left);
    let found = exists|k: int|
        0 <= k < values.len() && !text::is_blank_text(#[trigger] values[k]) && holds(
            frame.normalized_text,
            values[k],
        );
    if found {
        let k = choose|k: int|
            0 <= k < values.len() && !text::is_blank_text(#[trigger] values[k]) && holds(
                frame.normalized_text,
                values[k],
            );
        assert(text::occurs(
            text::lowered(versioned.normalized_text),
            text::lowered(values[k]),
        ));
        let kept = frame::limited(left);
        assert(left.observations.len() == 0 && left.normalized_text.len() == 0);
        assert(kept.normalized_text.len() == 0);
        assert(cut::byte_len(left.normalized_text) == 0) by {
            assert(left.normalized_text =~= Seq::empty());
            assert(vstd::utf8::encode_utf8(Seq::<char>::empty()).len() == 0);
        }
    } else {
        assert(left == versioned);
        frame::law_unmarked_frame_is_whole(versioned);
    }
}

/// What is kept of a run that failed names the backend, its language and its version as the readiness
/// does, how long the run took and the message of the error; its status says whether the time was up.
/// It offers no remedy, and the excluded values do not matter.
pub proof fn law_failed_run_says_what_failed(
    policy: PolicyModel,
    readiness: ReadinessModel,
    error: OcrError,
    elapsed_nanos: int,
    duration_ms: int,
    values: Seq<Seq<char>>,
)
    ensures
        ({
            let kept = finished_frame(
                policy,
                readiness,
                Err(error),
                elapsed_nanos,
                duration_ms,
                values,
            );
            &&& kept.status == if elapsed_nanos < policy.timeout_ms * 1_000_000 {
                "error"@
            } else {
                "timeout"@
            }
            &&& kept.backend == readiness.backend
            &&& kept.language == readiness.language
            &&& kept.backend_version == readiness.version
            &&& kept.duration_ms == duration_ms
            &&& kept.error == Some(error::error_text(error))
            &&& kept.dependency_hint is None
            &&& kept.suppressed_text_observation_count == 0 && !kept.truncated
        }),
{
}

/// Each backend is run under its own name, and nothing is run under another name.
pub proof fn law_backends_run_under_their_names(name: Seq<char>)
    ensures
        backend_of_name("rapidocr-python"@) == Some(OcrBackend::RapidOcr),
        backend_of_name("paddleocr-python"@) == Some(OcrBackend::PaddleOcr),
        backend_of_name("tesseract-cli"@) == Some(OcrBackend::Tesseract),
        backend_of_name(name) is Some ==> name == "rapidocr-python"@ || name
            == "paddleocr-python"@ || name == "tesseract-cli"@,
{
    reveal_strlit("rapidocr-python");
    reveal_strlit("paddleocr-python");
    reveal_strlit("tesseract-cli");
    assert("rapidocr-python"@.len() == 15);
    assert("paddleocr-python"@.len() == 16);
    assert("tesseract-cli"@.len() == 13);
}

/// Tesseract fails exactly where its program did not end well, and the message then says with which
/// status it ended.
pub proof fn law_tesseract_fails_with_its_status(success: bool, status: String)
    ensures
        tesseract_failure(success, status) is Some <==> !success,
        !success ==> error::error_text(tesseract_failure(success, status)->Some_0)
            == "tesseract exited with "@ + status@,
{
    reveal_strlit("tesseract");
    reveal_strlit(" exited with ");
    reveal_strlit("tesseract exited with ");
    assert("tesseract exited with "@ =~= "tesseract"@ + " exited with "@);
}

/// The message of a run that was stopped speaks of Tesseract where that was run and of the process of
/// a Python backend otherwise, and of the limit in either case.
pub proof fn law_timeout_speaks_of_what_was_stopped(backend: OcrBackend, timeout_ms: u64)
    ensures
        text::after_prefix(
            error::error_text(timeout_failure(backend, timeout_ms)),
            match backend {
                OcrBackend::RapidOcr => "OCR process timed out after "@,
                OcrBackend::PaddleOcr => "OCR process timed out after "@,
                OcrBackend::Tesseract => "tesseract timed out after "@,
            },
        ) == Some(number::decimal(timeout_ms as int) + " ms"@),
{
    let words = match backend {
        OcrBackend::RapidOcr => "OCR process timed out after "@,
        OcrBackend::PaddleOcr => "OCR process timed out after "@,
        OcrBackend::Tesseract => "tesseract timed out after "@,
    };
    let rest = number::decimal(timeout_ms as int) + " ms"@;
    assert(error::error_text(timeout_failure(backend, timeout_ms)) =~= words + rest);
    text::law_prefix_is_taken_off(
        error::error_text(timeout_failure(backend, timeout_ms)),
        words,
        rest,
    );
}

} // verus!
