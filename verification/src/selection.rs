//! Which backend to use: the one asked for, or the first that is ready.

use crate::policy;
use crate::policy::{
    OcrBackend, OcrBackendPreference, OcrMode, OcrPolicy, PolicyModel, AUTO_BACKEND_NAME,
};
use crate::readiness;
use crate::readiness::{
    CheckModel, OcrReadiness, PaddleOcrVersionsModel, RapidOcrVersionsModel, ReadinessModel,
    RunOutcome,
};
use crate::text;
use vstd::prelude::*;
use vstd::string::*;

verus! {

/// What is known of each backend so far.
pub struct ProbedBackends {
    pub rapidocr: Option<OcrReadiness>,
    pub paddleocr: Option<OcrReadiness>,
    pub tesseract: Option<OcrReadiness>,
}

/// A `ProbedBackends`, strings taken as their characters.
#[verifier::ext_equal]
pub struct ProbedModel {
    pub rapidocr: Option<ReadinessModel>,
    pub paddleocr: Option<ReadinessModel>,
    pub tesseract: Option<ReadinessModel>,
}

/// The view of what is known of one backend.
pub open spec fn known(readiness: Option<OcrReadiness>) -> Option<ReadinessModel> {
    match readiness {
        Some(readiness) => Some(readiness@),
        None => None,
    }
}

impl View for ProbedBackends {
    type V = ProbedModel;

    open spec fn view(&self) -> ProbedModel {
        ProbedModel {
            rapidocr: known(self.rapidocr),
            paddleocr: known(self.paddleocr),
            tesseract: known(self.tesseract),
        }
    }
}

impl ProbedBackends {
    /// Nothing is known yet.
    pub fn new() -> (probed: ProbedBackends)
        ensures
            probed@ == (ProbedModel { rapidocr: None, paddleocr: None, tesseract: None }),
    {
        ProbedBackends { rapidocr: None, paddleocr: None, tesseract: None }
    }
}

/// What comes next on the way to a readiness.
pub enum ReadinessStep {
    /// This backend is to be probed.
    Probe(OcrBackend),
    /// This is the readiness.
    Done(OcrReadiness),
}

/// A `ReadinessStep`, strings taken as their characters.
pub enum StepModel {
    Probe(OcrBackend),
    Done(ReadinessModel),
}

impl View for ReadinessStep {
    type V = StepModel;

    open spec fn view(&self) -> StepModel {
        match *self {
            ReadinessStep::Probe(backend) => StepModel::Probe(backend),
            ReadinessStep::Done(readiness) => StepModel::Done(readiness@),
        }
    }
}

/// The readiness while recognition is switched off.
pub open spec fn disabled_readiness(policy: PolicyModel) -> ReadinessModel {
    ReadinessModel {
        enabled: false,
        available: false,
        backend: policy::preference_name(policy.backend_preference),
        status: "disabled"@,
        language: policy.language,
        version: None,
        dependency_hint: None,
        error: None,
    }
}

/// Why a backend is not ready: its error, or else its status.
pub open spec fn reason(readiness: ReadinessModel) -> Seq<char> {
    policy::or_default(readiness.error, readiness.status)
}

/// The readiness when none of the backends is ready.
pub open spec fn none_ready(
    policy: PolicyModel,
    rapidocr: ReadinessModel,
    paddleocr: ReadinessModel,
    tesseract: ReadinessModel,
) -> ReadinessModel {
    readiness::not_ready(
        AUTO_BACKEND_NAME@,
        policy.language,
        None,
        readiness::auto_hint(policy.language),
        "RapidOCR unavailable: "@ + reason(rapidocr) + "; PaddleOCR unavailable: "@ + reason(
            paddleocr,
        ) + "; Tesseract unavailable: "@ + reason(tesseract),
    )
}

/// Probing of a single backend.
pub open spec fn single_step(backend: OcrBackend, known: Option<ReadinessModel>) -> StepModel {
    match known {
        Some(readiness) => StepModel::Done(readiness),
        None => StepModel::Probe(backend),
    }
}

/// What comes next, given what is known of the backends.
pub open spec fn readiness_step(policy: PolicyModel, probed: ProbedModel) -> StepModel {
    if policy.mode == OcrMode::Disabled {
        StepModel::Done(disabled_readiness(policy))
    } else {
        match policy.backend_preference {
            OcrBackendPreference::RapidOcr => single_step(OcrBackend::RapidOcr, probed.rapidocr),
            OcrBackendPreference::PaddleOcr => single_step(OcrBackend::PaddleOcr, probed.paddleocr),
            OcrBackendPreference::Tesseract => single_step(OcrBackend::Tesseract, probed.tesseract),
            OcrBackendPreference::Auto => match probed.rapidocr {
                None => StepModel::Probe(OcrBackend::RapidOcr),
                Some(rapidocr) => if rapidocr.available {
                    StepModel::Done(rapidocr)
                } else {
                    match probed.paddleocr {
                        None => StepModel::Probe(OcrBackend::PaddleOcr),
                        Some(paddleocr) => if paddleocr.available {
                            StepModel::Done(paddleocr)
                        } else {
                            match probed.tesseract {
                                None => StepModel::Probe(OcrBackend::Tesseract),
                                Some(tesseract) => if tesseract.available {
                                    StepModel::Done(tesseract)
                                } else {
                                    StepModel::Done(
                                        none_ready(policy, rapidocr, paddleocr, tesseract),
                                    )
                                },
                            }
                        },
                    }
                },
            },
        }
    }
}

fn reason_text(readiness: &OcrReadiness) -> (why: &str)
    ensures
        why@ == reason(readiness@),
{
    match &readiness.error {
        Some(error) => error.as_str(),
        None => readiness.status.as_str(),
    }
}

fn step_single(backend: OcrBackend, probed: &Option<OcrReadiness>) -> (step: ReadinessStep)
    ensures
        step@ == single_step(backend, known(*probed)),
{
    match probed {
        Some(readiness) => ReadinessStep::Done(readiness.clone()),
        None => ReadinessStep::Probe(backend),
    }
}

impl OcrPolicy {
    /// What comes next on the way to the readiness: which backend to probe, or, when enough is
    /// known, the readiness itself.
    pub fn readiness(&self, probed: &ProbedBackends) -> (step: ReadinessStep)
        ensures
            step@ == readiness_step(self@, probed@),
    {
        if self.mode == OcrMode::Disabled {
            return ReadinessStep::Done(
                OcrReadiness {
                    enabled: false,
                    available: false,
                    backend: self.backend_name().to_owned(),
                    status: "disabled".to_owned(),
                    language: self.language.clone(),
                    version: None,
                    dependency_hint: None,
                    error: None,
                },
            );
        }
        match self.backend_preference {
            OcrBackendPreference::RapidOcr => step_single(OcrBackend::RapidOcr, &probed.rapidocr),
            OcrBackendPreference::PaddleOcr => step_single(
                OcrBackend::PaddleOcr,
                &probed.paddleocr,
            ),
            OcrBackendPreference::Tesseract => step_single(
                OcrBackend::Tesseract,
                &probed.tesseract,
            ),
            OcrBackendPreference::Auto => {
                let rapidocr = match &probed.rapidocr {
                    Some(readiness) => readiness,
                    None => {
                        return ReadinessStep::Probe(OcrBackend::RapidOcr);
                    },
                };
                if rapidocr.available {
                    return ReadinessStep::Done(rapidocr.clone());
                }
                let paddleocr = match &probed.paddleocr {
                    Some(readiness) => readiness,
                    None => {
                        return ReadinessStep::Probe(OcrBackend::PaddleOcr);
                    },
                };
                if paddleocr.available {
                    return ReadinessStep::Done(paddleocr.clone());
                }
                let tesseract = match &probed.tesseract {
                    Some(readiness) => readiness,
                    None => {
                        return ReadinessStep::Probe(OcrBackend::Tesseract);
                    },
                };
                if tesseract.available {
                    return ReadinessStep::Done(tesseract.clone());
                }
                let first = text::concat3(
                    "RapidOCR unavailable: ",
                    reason_text(rapidocr),
                    "; PaddleOCR unavailable: ",
                );
                let both = text::concat3(
                    first.as_str(),
                    reason_text(paddleocr),
                    "; Tesseract unavailable: ",
                );
                ReadinessStep::Done(
                    OcrReadiness {
                        enabled: true,
                        available: false,
                        backend: AUTO_BACKEND_NAME.to_owned(),
                        status: "backend_unavailable".to_owned(),
                        language: self.language.clone(),
                        version: None,
                        dependency_hint: Some(
                            readiness::auto_dependency_hint(self.language.as_str()),
                        ),
                        error: Some(text::concat(both.as_str(), reason_text(tesseract))),
                    },
                )
            },
        }
    }
}

/// What is known of a backend.
pub open spec fn probe_of(probed: ProbedModel, backend: OcrBackend) -> Option<ReadinessModel> {
    match backend {
        OcrBackend::RapidOcr => probed.rapidocr,
        OcrBackend::PaddleOcr => probed.paddleocr,
        OcrBackend::Tesseract => probed.tesseract,
    }
}

/// While recognition is switched off nothing is probed and nothing is ready.
pub proof fn law_disabled_probes_nothing(policy: PolicyModel, probed: ProbedModel)
    requires
        policy.mode == OcrMode::Disabled,
    ensures
        readiness_step(policy, probed) == StepModel::Done(disabled_readiness(policy)),
        !disabled_readiness(policy).enabled,
        !disabled_readiness(policy).available,
{
}

/// A backend is probed at most once, and once all are known there is an answer.
pub proof fn law_probing_ends(policy: PolicyModel, probed: ProbedModel)
    ensures
        readiness_step(policy, probed) matches StepModel::Probe(backend) ==> probe_of(
            probed,
            backend,
        ) is None,
        probed.rapidocr is Some && probed.paddleocr is Some && probed.tesseract is Some
            ==> readiness_step(policy, probed) is Done,
{
}

/// A backend that is asked for by name is the only one that is probed, and its readiness is the
/// answer.
pub proof fn law_preference_is_kept(policy: PolicyModel, probed: ProbedModel, backend: OcrBackend)
    requires
        policy.mode != OcrMode::Disabled,
        policy::preference_name(policy.backend_preference) == policy::name_of_backend(backend),
    ensures
        readiness_step(policy, probed) == single_step(backend, probe_of(probed, backend)),
{
    reveal_strlit("auto");
    reveal_strlit("rapidocr-python");
    reveal_strlit("paddleocr-python");
    reveal_strlit("tesseract-cli");
    assert("auto"@.len() == 4);
    assert("rapidocr-python"@.len() == 15);
    assert("paddleocr-python"@.len() == 16);
    assert("tesseract-cli"@.len() == 13);
}

/// Left to choose, RapidOCR is taken before PaddleOCR and PaddleOCR before Tesseract, each only if
/// it is ready.
pub proof fn law_auto_takes_first_ready(
    policy: PolicyModel,
    rapidocr: ReadinessModel,
    paddleocr: ReadinessModel,
    tesseract: ReadinessModel,
)
    requires
        policy.mode != OcrMode::Disabled,
        policy.backend_preference == OcrBackendPreference::Auto,
    ensures
        ({
            let probed = ProbedModel {
                rapidocr: Some(rapidocr),
                paddleocr: Some(paddleocr),
                tesseract: Some(tesseract),
            };
            readiness_step(policy, probed) == StepModel::Done(
                if rapidocr.available {
                    rapidocr
                } else if paddleocr.available {
                    paddleocr
                } else if tesseract.available {
                    tesseract
                } else {
                    none_ready(policy, rapidocr, paddleocr, tesseract)
                },
            )
        }),
{
}

/// Left to choose, a backend is probed only after those before it were found not ready.
pub proof fn law_auto_probes_in_order(policy: PolicyModel, probed: ProbedModel)
    requires
        policy.mode != OcrMode::Disabled,
        policy.backend_preference == OcrBackendPreference::Auto,
    ensures
        readiness_step(policy, probed) == StepModel::Probe(OcrBackend::PaddleOcr) ==> (
        probed.rapidocr matches Some(rapidocr) && !rapidocr.available),
        readiness_step(policy, probed) == StepModel::Probe(OcrBackend::Tesseract) ==> (
        probed.rapidocr matches Some(rapidocr) && !rapidocr.available) && (
        probed.paddleocr matches Some(paddleocr) && !paddleocr.available),
{
}

/// Whether a readiness explains itself: ready without complaint, or not ready with a reason and a
/// remedy.
pub open spec fn is_explained(readiness: ReadinessModel) -> bool {
    &&& readiness.enabled
    &&& readiness.available ==> readiness.status == "available"@ && readiness.dependency_hint
        is None && readiness.error is None
    &&& !readiness.available ==> readiness.status == "backend_unavailable"@
        && readiness.dependency_hint is Some && readiness.error is Some
}

/// Every probe explains itself.
pub proof fn law_probes_are_explained(
    policy: PolicyModel,
    rapidocr: CheckModel<RapidOcrVersionsModel>,
    paddleocr: CheckModel<PaddleOcrVersionsModel>,
    tesseract: RunOutcome,
)
    ensures
        is_explained(readiness::rapidocr_readiness_of(policy, rapidocr)),
        is_explained(readiness::paddleocr_readiness_of(policy, paddleocr)),
        is_explained(readiness::tesseract_readiness_of(policy, tesseract)),
{
}

/// The answer explains itself if the probes do.
pub proof fn law_readiness_is_explained(policy: PolicyModel, probed: ProbedModel)
    requires
        policy.mode != OcrMode::Disabled,
        probed.rapidocr matches Some(rapidocr) ==> is_explained(rapidocr),
        probed.paddleocr matches Some(paddleocr) ==> is_explained(paddleocr),
        probed.tesseract matches Some(tesseract) ==> is_explained(tesseract),
    ensures
        readiness_step(policy, probed) matches StepModel::Done(readiness) ==> is_explained(
            readiness,
        ),
{
}

/// PaddleOCR is never ready with a broken runtime, nor on a GPU that is not there.
pub proof fn law_paddleocr_ready_needs_runtime_and_gpu(
    policy: PolicyModel,
    check: CheckModel<PaddleOcrVersionsModel>,
)
    requires
        readiness::paddleocr_readiness_of(policy, check).available,
    ensures
        check matches CheckModel::Finished { success: true, status, versions: Ok(versions) }
            && versions.paddle_error is None && (policy.paddleocr_device matches Some(device)
            ==> match readiness::gpu_request(device) {
            None => true,
            Some(Err(_)) => false,
            Some(Ok(index)) => {
                &&& versions.cuda_compiled == Some(true)
                &&& versions.cuda_device_count matches Some(count) && count > 0 && (
                index matches Some(index) ==> 0 <= index < count)
            },
        }),
{
}

/// Where no backend is ready, the answer gives the reason of each, in the order in which they were
/// tried: its error, or its status where it has none.
pub proof fn law_no_backend_ready_gives_every_reason(
    policy: PolicyModel,
    rapidocr: ReadinessModel,
    paddleocr: ReadinessModel,
    tesseract: ReadinessModel,
)
    requires
        rapidocr.error is Some,
        paddleocr.error is Some,
    ensures
        ({
            let answer = none_ready(policy, rapidocr, paddleocr, tesseract);
            &&& answer.enabled && !answer.available
            &&& answer.backend == "auto"@
            &&& answer.language == policy.language
            &&& answer.version is None
            &&& answer.dependency_hint == Some(readiness::auto_hint(policy.language))
            &&& answer.error == Some(
                "RapidOCR unavailable: "@ + rapidocr.error->Some_0 + "; PaddleOCR unavailable: "@
                    + paddleocr.error->Some_0 + "; Tesseract unavailable: "@ + (
                if tesseract.error is Some {
                    tesseract.error->Some_0
                } else {
                    tesseract.status
                }),
            )
        }),
{
}

/// While recognition is switched off the answer names what was asked for and says only that.
pub proof fn law_disabled_answer(policy: PolicyModel, probed: ProbedModel)
    requires
        policy.mode == OcrMode::Disabled,
    ensures
        readiness_step(policy, probed) matches StepModel::Done(answer) && {
            &&& !answer.enabled && !answer.available
            &&& answer.status == "disabled"@
            &&& answer.backend == policy::preference_name(policy.backend_preference)
            &&& answer.language == policy.language
            &&& answer.version is None && answer.dependency_hint is None && answer.error is None
        },
{
}

/// Switched on, a backend is taken only where it was found ready, and one that was found ready is
/// passed over only for one that comes before it.
pub proof fn law_auto_answer_is_ready_if_any_is(
    policy: PolicyModel,
    rapidocr: ReadinessModel,
    paddleocr: ReadinessModel,
    tesseract: ReadinessModel,
)
    requires
        policy.mode != OcrMode::Disabled,
        policy.backend_preference == OcrBackendPreference::Auto,
    ensures
        readiness_step(
            policy,
            ProbedModel {
                rapidocr: Some(rapidocr),
                paddleocr: Some(paddleocr),
                tesseract: Some(tesseract),
            },
        ) matches StepModel::Done(answer) && (answer.available <==> rapidocr.available
            || paddleocr.available || tesseract.available),
        rapidocr.available ==> readiness_step(
            policy,
            ProbedModel { rapidocr: Some(rapidocr), paddleocr: None, tesseract: None },
        ) == StepModel::Done(rapidocr),
        !rapidocr.available && paddleocr.available ==> readiness_step(
            policy,
            ProbedModel { rapidocr: Some(rapidocr), paddleocr: Some(paddleocr), tesseract: None },
        ) == StepModel::Done(paddleocr),
        readiness_step(
            policy,
            ProbedModel { rapidocr: None, paddleocr: None, tesseract: None },
        ) == StepModel::Probe(OcrBackend::RapidOcr),
        !rapidocr.available ==> readiness_step(
            policy,
            ProbedModel { rapidocr: Some(rapidocr), paddleocr: None, tesseract: None },
        ) == StepModel::Probe(OcrBackend::PaddleOcr),
        !rapidocr.available && !paddleocr.available ==> readiness_step(
            policy,
            ProbedModel { rapidocr: Some(rapidocr), paddleocr: Some(paddleocr), tesseract: None },
        ) == StepModel::Probe(OcrBackend::Tesseract),
{
}

} // verus!
