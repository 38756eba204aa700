//! Whether a backend can run, and what to do if it cannot.

use crate::error;
use crate::error::OcrError;
use crate::number;
use crate::policy;
use crate::policy::{
    OcrPolicy, PolicyModel, PADDLEOCR_BACKEND_NAME, RAPIDOCR_BACKEND_NAME, TESSERACT_BACKEND_NAME,
};
use crate::process;
use crate::process::ProcessOutput;
use crate::text;
use vstd::prelude::*;
use vstd::string::*;

verus! {

/// Whether a backend can run, and what to do if it cannot.
#[derive(Debug, PartialEq, Eq)]
pub struct OcrReadiness {
    pub enabled: bool,
    pub available: bool,
    pub backend: String,
    pub status: String,
    pub language: String,
    pub version: Option<String>,
    pub dependency_hint: Option<String>,
    pub error: Option<String>,
}

/// An `OcrReadiness`, strings taken as their characters.
#[verifier::ext_equal]
pub struct ReadinessModel {
    pub enabled: bool,
    pub available: bool,
    pub backend: Seq<char>,
    pub status: Seq<char>,
    pub language: Seq<char>,
    pub version: Option<Seq<char>>,
    pub dependency_hint: Option<Seq<char>>,
    pub error: Option<Seq<char>>,
}

impl View for OcrReadiness {
    type V = ReadinessModel;

    open spec fn view(&self) -> ReadinessModel {
        ReadinessModel {
            enabled: self.enabled,
            available: self.available,
            backend: self.backend@,
            status: self.status@,
            language: self.language@,
            version: text::option_view(self.version),
            dependency_hint: text::option_view(self.dependency_hint),
            error: text::option_view(self.error),
        }
    }
}

impl Clone for OcrReadiness {
    fn clone(&self) -> (copy: OcrReadiness)
        ensures
            copy@ == self@,
    {
        OcrReadiness {
            enabled: self.enabled,
            available: self.available,
            backend: self.backend.clone(),
            status: self.status.clone(),
            language: self.language.clone(),
            version: text::copy_option(&self.version),
            dependency_hint: text::copy_option(&self.dependency_hint),
            error: text::copy_option(&self.error),
        }
    }
}

/// What the check script of RapidOCR reports.
#[derive(Debug, PartialEq, Eq)]
pub struct RapidOcrVersions {
    pub rapidocr: Option<String>,
    pub onnxruntime: Option<String>,
    pub lang_type: Option<String>,
    pub error: Option<String>,
}

/// A `RapidOcrVersions`, strings taken as their characters.
#[verifier::ext_equal]
pub struct RapidOcrVersionsModel {
    pub rapidocr: Option<Seq<char>>,
    pub onnxruntime: Option<Seq<char>>,
    pub lang_type: Option<Seq<char>>,
    pub error: Option<Seq<char>>,
}

impl View for RapidOcrVersions {
    type V = RapidOcrVersionsModel;

    open spec fn view(&self) -> RapidOcrVersionsModel {
        RapidOcrVersionsModel {
            rapidocr: text::option_view(self.rapidocr),
            onnxruntime: text::option_view(self.onnxruntime),
            lang_type: text::option_view(self.lang_type),
            error: text::option_view(self.error),
        }
    }
}

/// What the check script of PaddleOCR reports.
#[derive(Debug, PartialEq, Eq)]
pub struct PaddleOcrVersions {
    pub paddleocr: Option<String>,
    pub paddle: Option<String>,
    pub cuda_compiled: Option<bool>,
    pub cuda_device_count: Option<i64>,
    pub paddle_error: Option<String>,
    pub error: Option<String>,
}

/// A `PaddleOcrVersions`, strings taken as their characters.
#[verifier::ext_equal]
pub struct PaddleOcrVersionsModel {
    pub paddleocr: Option<Seq<char>>,
    pub paddle: Option<Seq<char>>,
    pub cuda_compiled: Option<bool>,
    pub cuda_device_count: Option<i64>,
    pub paddle_error: Option<Seq<char>>,
    pub error: Option<Seq<char>>,
}

impl View for PaddleOcrVersions {
    type V = PaddleOcrVersionsModel;

    open spec fn view(&self) -> PaddleOcrVersionsModel {
        PaddleOcrVersionsModel {
            paddleocr: text::option_view(self.paddleocr),
            paddle: text::option_view(self.paddle),
            cuda_compiled: self.cuda_compiled,
            cuda_device_count: self.cuda_device_count,
            paddle_error: text::option_view(self.paddle_error),
            error: text::option_view(self.error),
        }
    }
}

/// How the check of a Python backend went.
#[derive(Debug, PartialEq, Eq)]
pub enum CheckOutcome<V> {
    /// The check did not start or was stopped; the text says why.
    Failed(String),
    /// The check ended, and reported versions or nothing readable.
    Finished { success: bool, status: String, versions: Result<V, OcrError> },
}

/// A `CheckOutcome`, strings taken as their characters and errors as their messages.
pub enum CheckModel<M> {
    Failed(Seq<char>),
    Finished { success: bool, status: Seq<char>, versions: Result<M, Seq<char>> },
}

impl<V: View> View for CheckOutcome<V> {
    type V = CheckModel<V::V>;

    open spec fn view(&self) -> CheckModel<V::V> {
        match *self {
            CheckOutcome::Failed(why) => CheckModel::Failed(why@),
            CheckOutcome::Finished { success, status, versions } => CheckModel::Finished {
                success,
                status: status@,
                versions: match versions {
                    Ok(versions) => Ok(versions@),
                    Err(error) => Err(error::error_text(error)),
                },
            },
        }
    }
}

/// How asking Tesseract for its version went.
#[derive(Debug, PartialEq, Eq)]
pub enum RunOutcome {
    /// The program did not run; the text says why.
    Failed(String),
    /// The program ended.
    Finished(ProcessOutput),
}

/// How to install RapidOCR.
pub open spec fn rapidocr_hint() -> Seq<char> {
    "Install Python packages `rapidocr` and `onnxruntime` plus the OpenCV runtime dependency `libGL.so.1`, or set CODEX_SKYSIGHT_OCR_BACKEND=tesseract"@
}

/// How to install PaddleOCR.
pub open spec fn paddleocr_hint() -> Seq<char> {
    "Install Python package `paddleocr` plus a matching PaddlePaddle runtime; for CUDA, install the GPU PaddlePaddle wheel and set CODEX_SKYSIGHT_PADDLEOCR_DEVICE=gpu:0"@
}

/// How to install Tesseract.
pub open spec fn tesseract_hint(language: Seq<char>) -> Seq<char> {
    "Install tesseract and traineddata for language `"@ + language + "`"@
}

/// How to install any backend.
pub open spec fn auto_hint(language: Seq<char>) -> Seq<char> {
    rapidocr_hint() + "; optional higher-quality backend: "@ + paddleocr_hint() + "; fallback: "@
        + tesseract_hint(language)
}

/// How to install RapidOCR.
pub fn rapidocr_dependency_hint() -> (hint: String)
    ensures
        hint@ == rapidocr_hint(),
{
    "Install Python packages `rapidocr` and `onnxruntime` plus the OpenCV runtime dependency `libGL.so.1`, or set CODEX_SKYSIGHT_OCR_BACKEND=tesseract".to_owned()
}

/// How to install PaddleOCR.
pub fn paddleocr_dependency_hint() -> (hint: String)
    ensures
        hint@ == paddleocr_hint(),
{
    "Install Python package `paddleocr` plus a matching PaddlePaddle runtime; for CUDA, install the GPU PaddlePaddle wheel and set CODEX_SKYSIGHT_PADDLEOCR_DEVICE=gpu:0".to_owned()
}

/// How to install Tesseract.
pub fn tesseract_dependency_hint(language: &str) -> (hint: String)
    ensures
        hint@ == tesseract_hint(language@),
{
    text::concat3("Install tesseract and traineddata for language `", language, "`")
}

/// How to install any backend.
pub fn auto_dependency_hint(language: &str) -> (hint: String)
    ensures
        hint@ == auto_hint(language@),
{
    let hint = text::concat3(
        rapidocr_dependency_hint().as_str(),
        "; optional higher-quality backend: ",
        paddleocr_dependency_hint().as_str(),
    );
    text::concat3(hint.as_str(), "; fallback: ", tesseract_dependency_hint(language).as_str())
}

/// A backend that can run.
pub open spec fn ready(
    backend: Seq<char>,
    language: Seq<char>,
    version: Option<Seq<char>>,
) -> ReadinessModel {
    ReadinessModel {
        enabled: true,
        available: true,
        backend,
        status: "available"@,
        language,
        version,
        dependency_hint: None,
        error: None,
    }
}

/// A backend that cannot run.
pub open spec fn not_ready(
    backend: Seq<char>,
    language: Seq<char>,
    version: Option<Seq<char>>,
    hint: Seq<char>,
    error: Seq<char>,
) -> ReadinessModel {
    ReadinessModel {
        enabled: true,
        available: false,
        backend,
        status: "backend_unavailable"@,
        language,
        version,
        dependency_hint: Some(hint),
        error: Some(error),
    }
}

fn make_ready(backend: &str, language: &str, version: Option<String>) -> (r: OcrReadiness)
    ensures
        r@ == ready(backend@, language@, text::option_view(version)),
{
    OcrReadiness {
        enabled: true,
        available: true,
        backend: backend.to_owned(),
        status: "available".to_owned(),
        language: language.to_owned(),
        version,
        dependency_hint: None,
        error: None,
    }
}

fn make_not_ready(
    backend: &str,
    language: &str,
    version: Option<String>,
    hint: String,
    error: String,
) -> (r: OcrReadiness)
    ensures
        r@ == not_ready(backend@, language@, text::option_view(version), hint@, error@),
{
    OcrReadiness {
        enabled: true,
        available: false,
        backend: backend.to_owned(),
        status: "backend_unavailable".to_owned(),
        language: language.to_owned(),
        version,
        dependency_hint: Some(hint),
        error: Some(error),
    }
}

/// The GPU that a device name asks for: none, any, one of a given index, or a malformed one.
pub open spec fn gpu_request(device: Seq<char>) -> Option<Result<Option<int>, Seq<char>>> {
    let name = text::trimmed(device);
    let word = text::lowered(name);
    if word == "gpu"@ {
        Some(Ok(None))
    } else {
        match text::after_prefix(word, "gpu:"@) {
            None => None,
            Some(index) => match number::parsed_i64(index) {
                Some(index) if index >= 0 => Some(Ok(Some(index))),
                _ => Some(Err("Malformed PaddleOCR GPU device `"@ + name + "`"@)),
            },
        }
    }
}

/// The GPU that a device name asks for: none, any, one of a given index, or a malformed one.
pub fn parse_paddleocr_gpu_device_request(device: &str) -> (r: Option<
    Result<Option<i64>, String>,
>)
    ensures
        match r {
            None => gpu_request(device@) is None,
            Some(Ok(None)) => gpu_request(device@) == Some(Ok::<Option<int>, Seq<char>>(None)),
            Some(Ok(Some(index))) => gpu_request(device@) == Some(
                Ok::<Option<int>, Seq<char>>(Some(index as int)),
            ),
            Some(Err(why)) => gpu_request(device@) == Some(Err::<Option<int>, Seq<char>>(why@)),
        },
{
    let name = text::trim(device);
    let word = text::to_lower(name.as_str());
    if text::same_text(word.as_str(), "gpu") {
        return Some(Ok(None));
    }
    match text::strip_prefix(word.as_str(), "gpu:") {
        None => None,
        Some(index) => {
            match number::parse_i64(index.as_str()) {
                Some(index) if index >= 0 => Some(Ok(Some(index))),
                _ => Some(
                    Err(text::concat3("Malformed PaddleOCR GPU device `", name.as_str(), "`")),
                ),
            }
        },
    }
}

/// The words for a truth value.
pub open spec fn bool_text(b: bool) -> Seq<char> {
    if b {
        "true"@
    } else {
        "false"@
    }
}

fn bool_name(b: bool) -> (s: &'static str)
    ensures
        s@ == bool_text(b),
{
    if b {
        "true"
    } else {
        "false"
    }
}

/// One text, or none.
pub open spec fn optional_part(part: Option<Seq<char>>) -> Seq<Seq<char>> {
    match part {
        Some(part) => seq![part],
        None => Seq::empty(),
    }
}

/// The parts of the version that PaddleOCR reports.
pub open spec fn paddleocr_version_parts(versions: PaddleOcrVersionsModel) -> Seq<Seq<char>> {
    seq!["paddleocr "@ + policy::or_default(versions.paddleocr, "unknown"@)] + optional_part(
        match versions.paddle {
            Some(paddle) => Some("paddle "@ + paddle),
            None => None,
        },
    ) + optional_part(
        match versions.cuda_compiled {
            Some(compiled) => Some("cuda_compiled "@ + bool_text(compiled)),
            None => None,
        },
    ) + optional_part(
        match versions.cuda_device_count {
            Some(count) => Some("cuda_devices "@ + number::decimal(count as int)),
            None => None,
        },
    )
}

/// The version that PaddleOCR reports.
pub open spec fn paddleocr_version_text(versions: PaddleOcrVersionsModel) -> Seq<char> {
    text::joined(paddleocr_version_parts(versions), "; "@)
}

fn paddleocr_version_line(versions: &PaddleOcrVersions) -> (line: String)
    ensures
        line@ == paddleocr_version_text(versions@),
{
    let mut parts: Vec<String> = Vec::new();
    parts.push(
        match &versions.paddleocr {
            Some(version) => text::concat("paddleocr ", version.as_str()),
            None => text::concat("paddleocr ", "unknown"),
        },
    );
    if let Some(paddle) = &versions.paddle {
        parts.push(text::concat("paddle ", paddle.as_str()));
    }
    if let Some(compiled) = versions.cuda_compiled {
        parts.push(text::concat("cuda_compiled ", bool_name(compiled)));
    }
    if let Some(count) = versions.cuda_device_count {
        parts.push(text::concat("cuda_devices ", number::decimal_i64(count).as_str()));
    }
    assert(text::views(parts@) =~= paddleocr_version_parts(versions@));
    text::join(&parts, "; ")
}

/// Why the GPU that the device name asks for cannot be used, if it cannot.
pub open spec fn gpu_refusal(
    device: Option<Seq<char>>,
    versions: PaddleOcrVersionsModel,
) -> Option<Seq<char>> {
    let request = match device {
        Some(device) => gpu_request(device),
        None => None,
    };
    let count = match versions.cuda_device_count {
        Some(count) => count as int,
        None => 0,
    };
    match request {
        None => None,
        Some(Err(why)) => Some(why),
        Some(Ok(index)) => if versions.cuda_compiled != Some(true) || count <= 0 {
            Some(
                "PaddleOCR GPU device "@ + policy::or_default(device, "gpu"@)
                    + " requested but CUDA readiness is unavailable"@,
            )
        } else {
            match index {
                Some(index) if index >= count => Some(
                    "PaddleOCR GPU device gpu:"@ + number::decimal(index)
                        + " requested but only "@ + number::decimal(count)
                        + " CUDA device(s) are available"@,
                ),
                _ => None,
            }
        },
    }
}

fn refuse_gpu(device: &Option<String>, versions: &PaddleOcrVersions) -> (r: Option<String>)
    ensures
        text::option_view(r) == gpu_refusal(text::option_view(*device), versions@),
{
    let device = match device {
        Some(device) => device,
        None => {
            return None;
        },
    };
    let request = match parse_paddleocr_gpu_device_request(device.as_str()) {
        Some(request) => request,
        None => {
            return None;
        },
    };
    let index = match request {
        Ok(index) => index,
        Err(why) => {
            return Some(why);
        },
    };
    let compiled: bool = match versions.cuda_compiled {
        Some(compiled) => compiled,
        None => false,
    };
    let count: i64 = match versions.cuda_device_count {
        Some(count) => count,
        None => 0,
    };
    if !compiled || count <= 0 {
        return Some(
            text::concat3(
                "PaddleOCR GPU device ",
                device.as_str(),
                " requested but CUDA readiness is unavailable",
            ),
        );
    }
    match index {
        Some(index) => if index >= count {
            let why = text::concat3(
                "PaddleOCR GPU device gpu:",
                number::decimal_i64(index).as_str(),
                " requested but only ",
            );
            Some(
                text::concat3(
                    why.as_str(),
                    number::decimal_i64(count).as_str(),
                    " CUDA device(s) are available",
                ),
            )
        } else {
            None
        },
        None => None,
    }
}

/// The readiness of PaddleOCR after its check.
pub open spec fn paddleocr_readiness_of(
    policy: PolicyModel,
    check: CheckModel<PaddleOcrVersionsModel>,
) -> ReadinessModel {
    let backend = PADDLEOCR_BACKEND_NAME@;
    let language = policy.paddleocr_language;
    let hint = paddleocr_hint();
    match check {
        CheckModel::Failed(why) => not_ready(backend, language, None, hint, why),
        CheckModel::Finished { success: false, status, versions } => {
            let reported = match versions {
                Ok(versions) => versions.error,
                Err(_) => None,
            };
            let why = policy::or_default(reported, "PaddleOCR check exited with "@ + status);
            not_ready(backend, language, None, hint, why)
        },
        CheckModel::Finished { success: true, status, versions: Err(why) } => not_ready(
            backend,
            language,
            None,
            hint,
            why,
        ),
        CheckModel::Finished { success: true, status, versions: Ok(versions) } => {
            let version = Some(paddleocr_version_text(versions));
            match versions.paddle_error {
                Some(error) => not_ready(
                    backend,
                    language,
                    version,
                    hint,
                    "Paddle runtime unavailable: "@ + error,
                ),
                None => match gpu_refusal(policy.paddleocr_device, versions) {
                    Some(why) => not_ready(backend, language, version, hint, why),
                    None => ready(backend, language, version),
                },
            }
        },
    }
}

/// The readiness of RapidOCR after its check.
pub open spec fn rapidocr_readiness_of(
    policy: PolicyModel,
    check: CheckModel<RapidOcrVersionsModel>,
) -> ReadinessModel {
    let backend = RAPIDOCR_BACKEND_NAME@;
    let language = policy.rapidocr_language;
    let hint = rapidocr_hint();
    match check {
        CheckModel::Failed(why) => not_ready(backend, language, None, hint, why),
        CheckModel::Finished { success: false, status, versions } => {
            let reported = match versions {
                Ok(versions) => versions.error,
                Err(_) => None,
            };
            let why = policy::or_default(reported, "RapidOCR check exited with "@ + status);
            not_ready(backend, language, None, hint, why)
        },
        CheckModel::Finished { success: true, status, versions: Err(why) } => not_ready(
            backend,
            language,
            None,
            hint,
            why,
        ),
        CheckModel::Finished { success: true, status, versions: Ok(versions) } => ready(
            backend,
            policy::or_default(versions.lang_type, language),
            Some(
                "rapidocr "@ + policy::or_default(versions.rapidocr, "unknown"@) + "; onnxruntime "@
                    + policy::or_default(versions.onnxruntime, "unknown"@),
            ),
        ),
    }
}

/// The version in the output of `tesseract --version`: its first line, without the white space
/// around it.
pub open spec fn tesseract_version_of(stdout: Seq<char>) -> Option<Seq<char>> {
    let lines = text::lines_of(stdout);
    if lines.len() > 0 {
        Some(text::trimmed(lines[0]))
    } else {
        None
    }
}

/// The version in the output of `tesseract --version`.
pub fn tesseract_version(stdout: &str) -> (version: Option<String>)
    ensures
        text::option_view(version) == tesseract_version_of(stdout@),
{
    let lines = text::lines(stdout);
    assert(text::views(lines@).len() == lines@.len());
    if lines.len() > 0 {
        assert(text::views(lines@)[0] == lines@[0]@);
        Some(text::trim(lines[0].as_str()))
    } else {
        None
    }
}

/// The readiness of Tesseract after it was asked for its version.
pub open spec fn tesseract_readiness_of(policy: PolicyModel, run: RunOutcome) -> ReadinessModel {
    let backend = TESSERACT_BACKEND_NAME@;
    let language = policy.language;
    let hint = tesseract_hint(language);
    match run {
        RunOutcome::Failed(why) => not_ready(backend, language, None, hint, why@),
        RunOutcome::Finished(output) => if output.success {
            ready(
                backend,
                language,
                tesseract_version_of(process::utf8_lossy(output.stdout@)),
            )
        } else {
            not_ready(
                backend,
                language,
                None,
                hint,
                "tesseract --version exited with "@ + output.status@,
            )
        },
    }
}

impl OcrPolicy {
    /// The readiness of PaddleOCR after its check.
    pub fn paddleocr_readiness(&self, check: &CheckOutcome<PaddleOcrVersions>) -> (r: OcrReadiness)
        ensures
            r@ == paddleocr_readiness_of(self@, check@),
    {
        let language = self.paddleocr_language.as_str();
        match check {
            CheckOutcome::Failed(why) => make_not_ready(
                PADDLEOCR_BACKEND_NAME,
                language,
                None,
                paddleocr_dependency_hint(),
                why.clone(),
            ),
            CheckOutcome::Finished { success, status, versions } => {
                if !*success {
                    let reported = match versions {
                        Ok(versions) => text::copy_option(&versions.error),
                        Err(_) => None,
                    };
                    let why = match reported {
                        Some(why) => why,
                        None => text::concat("PaddleOCR check exited with ", status.as_str()),
                    };
                    return make_not_ready(
                        PADDLEOCR_BACKEND_NAME,
                        language,
                        None,
                        paddleocr_dependency_hint(),
                        why,
                    );
                }
                match versions {
                    Err(error) => make_not_ready(
                        PADDLEOCR_BACKEND_NAME,
                        language,
                        None,
                        paddleocr_dependency_hint(),
                        error.message(),
                    ),
                    Ok(versions) => {
                        let version = Some(paddleocr_version_line(versions));
                        if let Some(error) = &versions.paddle_error {
                            return make_not_ready(
                                PADDLEOCR_BACKEND_NAME,
                                language,
                                version,
                                paddleocr_dependency_hint(),
                                text::concat("Paddle runtime unavailable: ", error.as_str()),
                            );
                        }
                        match refuse_gpu(&self.paddleocr_device, versions) {
                            Some(why) => make_not_ready(
                                PADDLEOCR_BACKEND_NAME,
                                language,
                                version,
                                paddleocr_dependency_hint(),
                                why,
                            ),
                            None => make_ready(PADDLEOCR_BACKEND_NAME, language, version),
                        }
                    },
                }
            },
        }
    }

    /// The readiness of RapidOCR after its check.
    pub fn rapidocr_readiness(&self, check: &CheckOutcome<RapidOcrVersions>) -> (r: OcrReadiness)
        ensures
            r@ == rapidocr_readiness_of(self@, check@),
    {
        let language = self.rapidocr_language.as_str();
        match check {
            CheckOutcome::Failed(why) => make_not_ready(
                RAPIDOCR_BACKEND_NAME,
                language,
                None,
                rapidocr_dependency_hint(),
                why.clone(),
            ),
            CheckOutcome::Finished { success, status, versions } => {
                if !*success {
                    let reported = match versions {
                        Ok(versions) => text::copy_option(&versions.error),
                        Err(_) => None,
                    };
                    let why = match reported {
                        Some(why) => why,
                        None => text::concat("RapidOCR check exited with ", status.as_str()),
                    };
                    return make_not_ready(
                        RAPIDOCR_BACKEND_NAME,
                        language,
                        None,
                        rapidocr_dependency_hint(),
                        why,
                    );
                }
                match versions {
                    Err(error) => make_not_ready(
                        RAPIDOCR_BACKEND_NAME,
                        language,
                        None,
                        rapidocr_dependency_hint(),
                        error.message(),
                    ),
                    Ok(versions) => {
                        let rapidocr = match &versions.rapidocr {
                            Some(version) => version.as_str(),
                            None => "unknown",
                        };
                        let onnxruntime = match &versions.onnxruntime {
                            Some(version) => version.as_str(),
                            None => "unknown",
                        };
                        let found = match &versions.lang_type {
                            Some(found) => found.as_str(),
                            None => language,
                        };
                        let version = text::concat3("rapidocr ", rapidocr, "; onnxruntime ");
                        make_ready(
                            RAPIDOCR_BACKEND_NAME,
                            found,
                            Some(text::concat(version.as_str(), onnxruntime)),
                        )
                    },
                }
            },
        }
    }

    /// The readiness of Tesseract after it was asked for its version.
    pub fn tesseract_readiness(&self, run: &RunOutcome) -> (r: OcrReadiness)
        ensures
            r@ == tesseract_readiness_of(self@, *run),
    {
        let language = self.language.as_str();
        match run {
            RunOutcome::Failed(why) => make_not_ready(
                TESSERACT_BACKEND_NAME,
                language,
                None,
                tesseract_dependency_hint(language),
                why.clone(),
            ),
            RunOutcome::Finished(output) => if output.success {
                let stdout = process::text_of_bytes(&output.stdout);
                make_ready(TESSERACT_BACKEND_NAME, language, tesseract_version(stdout.as_str()))
            } else {
                make_not_ready(
                    TESSERACT_BACKEND_NAME,
                    language,
                    None,
                    tesseract_dependency_hint(language),
                    text::concat("tesseract --version exited with ", output.status.as_str()),
                )
            },
        }
    }
}

/// RapidOCR is ready exactly where its check ended successfully and its versions could be read. It is
/// then ready in the language that the check names, or else in that of the policy.
pub proof fn law_rapidocr_ready_exactly_when_checked(
    policy: PolicyModel,
    check: CheckModel<RapidOcrVersionsModel>,
)
    ensures
        ({
            let answer = rapidocr_readiness_of(policy, check);
            &&& answer.enabled
            &&& answer.backend == "rapidocr-python"@
            &&& answer.available <==> (check matches CheckModel::Finished {
                success: true,
                status: _,
                versions: Ok(_),
            })
            &&& check matches CheckModel::Finished { success: true, status: _, versions: Ok(found) }
                ==> {
                &&& answer.status == "available"@
                &&& answer.error is None && answer.dependency_hint is None
                &&& found.lang_type is Some ==> answer.language == found.lang_type->Some_0
                &&& found.lang_type is None ==> answer.language == policy.rapidocr_language
                &&& answer.version == Some(
                    "rapidocr "@ + known_or_unknown(found.rapidocr) + "; onnxruntime "@
                        + known_or_unknown(found.onnxruntime),
                )
            }
        }),
{
}

/// A version, or that it is unknown.
pub open spec fn known_or_unknown(version: Option<Seq<char>>) -> Seq<char> {
    match version {
        Some(version) => version,
        None => "unknown"@,
    }
}

/// A check of RapidOCR that did not succeed says why: with the error that it reported, or else with
/// its status; one that did not run, or told no versions, with what went wrong.
pub proof fn law_rapidocr_failure_says_why(
    policy: PolicyModel,
    check: CheckModel<RapidOcrVersionsModel>,
)
    ensures
        ({
            let answer = rapidocr_readiness_of(policy, check);
            &&& !answer.available ==> answer.status == "backend_unavailable"@ && answer.language
                == policy.rapidocr_language && answer.version is None && answer.dependency_hint
                == Some(rapidocr_hint())
            &&& check matches CheckModel::Failed(why) ==> answer.error == Some(why)
            &&& check matches CheckModel::Finished { success: true, status: _, versions: Err(why) }
                ==> answer.error == Some(why)
            &&& check matches CheckModel::Finished { success: false, status, versions: Ok(found) }
                ==> answer.error == Some(
                if found.error is Some {
                    found.error->Some_0
                } else {
                    "RapidOCR check exited with "@ + status
                },
            )
            &&& check matches CheckModel::Finished { success: false, status, versions: Err(_) }
                ==> answer.error == Some("RapidOCR check exited with "@ + status)
        }),
{
}

/// PaddleOCR is ready exactly where its check ended successfully, its versions could be read, its
/// runtime has no error and the GPU that is asked for, if one is, is there.
pub proof fn law_paddleocr_ready_exactly_when_usable(
    policy: PolicyModel,
    check: CheckModel<PaddleOcrVersionsModel>,
)
    ensures
        ({
            let answer = paddleocr_readiness_of(policy, check);
            &&& answer.enabled
            &&& answer.backend == "paddleocr-python"@
            &&& answer.language == policy.paddleocr_language
            &&& answer.available <==> (check matches CheckModel::Finished {
                success: true,
                status: _,
                versions: Ok(found),
            } && found.paddle_error is None && has_gpu(policy.paddleocr_device, found))
            &&& answer.available ==> answer.status == "available"@ && answer.error is None
                && answer.dependency_hint is None
            &&& answer.version is Some <==> (check matches CheckModel::Finished {
                success: true,
                status: _,
                versions: Ok(_),
            })
        }),
{
}

/// Whether the GPU that a device name asks for is there, if it asks for one.
pub open spec fn has_gpu(device: Option<Seq<char>>, found: PaddleOcrVersionsModel) -> bool {
    match device {
        None => true,
        Some(device) => match gpu_request(device) {
            None => true,
            Some(Err(_)) => false,
            Some(Ok(index)) => {
                &&& found.cuda_compiled == Some(true)
                &&& found.cuda_device_count is Some
                &&& found.cuda_device_count->Some_0 > 0
                &&& index is Some ==> index->Some_0 < found.cuda_device_count->Some_0
            },
        },
    }
}

/// A check of PaddleOCR that did not succeed says why: with the error that it reported, or else with
/// its status; one that did not run, or told no versions, with what went wrong. An error of the
/// runtime comes before what is wrong with the GPU.
pub proof fn law_paddleocr_failure_says_why(
    policy: PolicyModel,
    check: CheckModel<PaddleOcrVersionsModel>,
)
    ensures
        ({
            let answer = paddleocr_readiness_of(policy, check);
            &&& !answer.available ==> answer.status == "backend_unavailable"@
                && answer.dependency_hint == Some(paddleocr_hint())
            &&& check matches CheckModel::Failed(why) ==> answer.error == Some(why)
            &&& check matches CheckModel::Finished { success: true, status: _, versions: Err(why) }
                ==> answer.error == Some(why)
            &&& check matches CheckModel::Finished { success: false, status, versions: Ok(found) }
                ==> answer.error == Some(
                if found.error is Some {
                    found.error->Some_0
                } else {
                    "PaddleOCR check exited with "@ + status
                },
            )
            &&& check matches CheckModel::Finished { success: false, status, versions: Err(_) }
                ==> answer.error == Some("PaddleOCR check exited with "@ + status)
            &&& check matches CheckModel::Finished { success: true, status: _, versions: Ok(found) }
                ==> (found.paddle_error is Some ==> answer.error == Some(
                "Paddle runtime unavailable: "@ + found.paddle_error->Some_0,
            ))
        }),
{
}

/// A GPU that is not there is refused with the reason: a name that is no device, a runtime without
/// CUDA or without devices, or an index beyond the devices that there are.
pub proof fn law_missing_gpu_is_explained(
    policy: PolicyModel,
    status: Seq<char>,
    found: PaddleOcrVersionsModel,
    device: Seq<char>,
)
    requires
        policy.paddleocr_device == Some(device),
        found.paddle_error is None,
    ensures
        ({
            let answer = paddleocr_readiness_of(
                policy,
                CheckModel::Finished { success: true, status, versions: Ok(found) },
            );
            let usable = found.cuda_compiled == Some(true) && found.cuda_device_count is Some
                && found.cuda_device_count->Some_0 > 0;
            &&& gpu_request(device) matches Some(Err(why)) ==> answer.error == Some(why)
            &&& gpu_request(device) matches Some(Ok(_)) ==> (!usable ==> answer.error == Some(
                "PaddleOCR GPU device "@ + device
                    + " requested but CUDA readiness is unavailable"@,
            ))
            &&& gpu_request(device) matches Some(Ok(Some(index))) ==> (usable && index
                >= found.cuda_device_count->Some_0 ==> answer.error == Some(
                "PaddleOCR GPU device gpu:"@ + number::decimal(index) + " requested but only "@
                    + number::decimal(found.cuda_device_count->Some_0 as int)
                    + " CUDA device(s) are available"@,
            ))
        }),
{
}

/// What stands behind the parts of a version for one part more: a semicolon and the part.
pub open spec fn added_part(part: Option<Seq<char>>) -> Seq<char> {
    match part {
        Some(part) => "; "@ + part,
        None => Seq::empty(),
    }
}

proof fn lemma_part_is_added(parts: Seq<Seq<char>>, part: Option<Seq<char>>)
    requires
        parts.len() > 0,
    ensures
        text::joined(parts + optional_part(part), "; "@) == text::joined(parts, "; "@)
            + added_part(part),
        (parts + optional_part(part)).len() > 0,
{
    let more = parts + optional_part(part);
    match part {
        Some(part) => {
            assert(more.drop_last() =~= parts);
            assert(more.last() == part);
            assert(text::joined(more, "; "@) =~= text::joined(parts, "; "@) + ("; "@ + part));
        },
        None => {
            assert(more =~= parts);
            assert(text::joined(parts, "; "@) + Seq::empty() =~= text::joined(parts, "; "@));
        },
    }
}

/// What PaddleOCR reports of its version begins with its own and names what else it found, each
/// behind a semicolon.
pub proof fn law_paddleocr_version_names_what_was_found(found: PaddleOcrVersionsModel)
    ensures
        paddleocr_version_text(found) == "paddleocr "@ + known_or_unknown(found.paddleocr)
            + added_part(
            match found.paddle {
                Some(paddle) => Some("paddle "@ + paddle),
                None => None,
            },
        ) + added_part(
            match found.cuda_compiled {
                Some(true) => Some("cuda_compiled "@ + "true"@),
                Some(false) => Some("cuda_compiled "@ + "false"@),
                None => None,
            },
        ) + added_part(
            match found.cuda_device_count {
                Some(count) => Some("cuda_devices "@ + number::decimal(count as int)),
                None => None,
            },
        ),
{
    let first = seq!["paddleocr "@ + known_or_unknown(found.paddleocr)];
    let paddle = match found.paddle {
        Some(paddle) => Some("paddle "@ + paddle),
        None => None,
    };
    let compiled = match found.cuda_compiled {
        Some(compiled) => Some("cuda_compiled "@ + bool_text(compiled)),
        None => None,
    };
    let devices = match found.cuda_device_count {
        Some(count) => Some("cuda_devices "@ + number::decimal(count as int)),
        None => None,
    };
    let second = first + optional_part(paddle);
    let third = second + optional_part(compiled);
    lemma_part_is_added(first, paddle);
    lemma_part_is_added(second, compiled);
    lemma_part_is_added(third, devices);
}

/// The device name of a GPU asks for the GPU of that index.
pub proof fn law_gpu_index_is_read_back(n: int)
    requires
        0 <= n <= i64::MAX,
    ensures
        gpu_request(seq!['g', 'p', 'u', ':'] + number::decimal(n)) == Some(
            Ok::<Option<int>, Seq<char>>(Some(n)),
        ),
{
    let digits = number::decimal(n);
    let name = seq!['g', 'p', 'u', ':'] + digits;
    number::law_decimal_is_digits(n);
    number::law_decimal_read_back(n);
    reveal_strlit("gpu");
    reveal_strlit("gpu:");
    assert("gpu:"@ =~= seq!['g', 'p', 'u', ':']);
    assert(digits.len() > 0);
    assert(number::is_digit(digits[digits.len() - 1]));
    assert(!text::is_white(name[0]) && !text::is_white(name[name.len() - 1]));
    assert(text::trimmed(name) == name);
    assert forall|i: int| 0 <= i < name.len() implies text::lower_char(#[trigger] name[i])
        == name[i] by {
        if i >= 4 {
            assert(number::is_digit(digits[i - 4]));
        }
    }
    assert(text::lowered(name) =~= name);
    assert(name.take(4) =~= "gpu:"@);
    assert(name.skip(4) =~= digits);
    assert(name.len() > 4 && "gpu"@.len() == 3);
}

/// What a device name asks for does not depend on the case of its letters or on the white space
/// around it, and a name that does not begin with the word for a GPU asks for none.
pub proof fn law_gpu_request_ignores_case(device: Seq<char>, other: Seq<char>)
    ensures
        text::lowered(text::trimmed(device)) == text::lowered(text::trimmed(other)) ==> match (
            gpu_request(device),
            gpu_request(other),
        ) {
            (None, None) => true,
            (Some(Ok(a)), Some(Ok(b))) => a == b,
            (Some(Err(_)), Some(Err(_))) => true,
            _ => false,
        },
        gpu_request(device) is Some <==> text::lowered(text::trimmed(device)) == seq!['g', 'p', 'u']
            || seq!['g', 'p', 'u', ':'].is_prefix_of(text::lowered(text::trimmed(device))),
        text::lowered(text::trimmed(device)) == seq!['g', 'p', 'u'] ==> gpu_request(device) == Some(
            Ok::<Option<int>, Seq<char>>(None),
        ),
        gpu_request(device) matches Some(Err(why)) ==> why == "Malformed PaddleOCR GPU device `"@
            + text::trimmed(device) + "`"@,
{
    reveal_strlit("gpu");
    reveal_strlit("gpu:");
    let word = text::lowered(text::trimmed(device));
    let start = seq!['g', 'p', 'u', ':'];
    assert("gpu"@ =~= seq!['g', 'p', 'u']);
    assert("gpu:"@ =~= start);
    if start.is_prefix_of(word) {
        assert(word.take(4) =~= start);
    }
}

/// Tesseract is ready exactly where it told its version and ended successfully; its version is the
/// first line of what it wrote, without the white space around it.
pub proof fn law_tesseract_ready_exactly_when_it_answers(policy: PolicyModel, run: RunOutcome)
    ensures
        ({
            let answer = tesseract_readiness_of(policy, run);
            &&& answer.enabled
            &&& answer.backend == "tesseract-cli"@
            &&& answer.language == policy.language
            &&& answer.available <==> (run matches RunOutcome::Finished(output) && output.success)
            &&& answer.available ==> answer.status == "available"@ && answer.error is None
                && answer.dependency_hint is None
            &&& !answer.available ==> answer.status == "backend_unavailable"@ && answer.version
                is None && answer.dependency_hint == Some(tesseract_hint(policy.language))
            &&& run matches RunOutcome::Failed(why) ==> answer.error == Some(why@)
            &&& run matches RunOutcome::Finished(output) ==> if output.success {
                let lines = text::lines_of(process::utf8_lossy(output.stdout@));
                &&& lines.len() == 0 ==> answer.version is None
                &&& lines.len() > 0 ==> answer.version == Some(text::trimmed(lines[0]))
            } else {
                answer.error == Some("tesseract --version exited with "@ + output.status@)
            }
        }),
{
}

/// The remedy for Tesseract names the language, and the remedy for any backend holds those for all of
/// them.
pub proof fn law_hints_name_what_to_install(language: Seq<char>)
    ensures
        tesseract_hint(language) == "Install tesseract and traineddata for language `"@ + language
            + "`"@,
        text::occurs(auto_hint(language), rapidocr_hint()),
        text::occurs(auto_hint(language), paddleocr_hint()),
        text::occurs(auto_hint(language), tesseract_hint(language)),
{
    let a = rapidocr_hint();
    let b = paddleocr_hint();
    let c = tesseract_hint(language);
    let ab = "; optional higher-quality backend: "@;
    let bc = "; fallback: "@;
    let whole = auto_hint(language);
    assert(whole.subrange(0, a.len() as int) =~= a);
    assert(text::occurs_at(whole, a, 0));
    let at = (a.len() + ab.len()) as int;
    assert(whole.subrange(at, at + b.len()) =~= b);
    assert(text::occurs_at(whole, b, at));
    let last = at + b.len() + bc.len();
    assert(whole.subrange(last, last + c.len()) =~= c);
    assert(text::occurs_at(whole, c, last));
}

} // verus!
