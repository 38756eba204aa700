//! What can go wrong with a backend and its output.

use crate::number;
use crate::policy;
use crate::policy::OcrBackend;
use crate::text;
use vstd::prelude::*;
use vstd::string::*;

verus! {

/// Why a frame was not recognised or a backend not found ready.
#[derive(Debug, PartialEq, Eq)]
pub enum OcrError {
    /// The table of words lacks a column.
    MissingColumn(String),
    /// The payload holds no list of boxes.
    MissingBoxes,
    /// The payload holds no list of texts.
    MissingTexts,
    /// No line of the output holds a payload.
    PayloadNotFound(OcrBackend),
    /// The payload is no JSON document.
    PayloadUnreadable(OcrBackend),
    /// The payload does not describe versions.
    VersionsUnreadable(OcrBackend),
    /// There is no backend of that name to run.
    NotRunnable(String),
    /// The process was stopped at the time limit, in milliseconds.
    TimedOut(u64),
    /// Tesseract was stopped at the time limit, in milliseconds.
    TesseractTimedOut(u64),
    /// The process of a backend ended with a failure status.
    Exited(OcrBackend, String),
    /// The program could not be started.
    StartFailed(String),
    /// The file could not be read.
    ReadFailed(String),
    /// The output of the process could not be collected.
    CollectFailed,
    /// Any other failure, in its own words.
    Other(String),
}

/// The message of an error.
pub open spec fn error_text(error: OcrError) -> Seq<char> {
    match error {
        OcrError::MissingColumn(name) => "missing TSV column "@ + name@,
        OcrError::MissingBoxes => "RapidOCR output missing boxes"@,
        OcrError::MissingTexts => "RapidOCR output missing txts"@,
        OcrError::PayloadNotFound(backend) => policy::label_of_backend(backend)
            + " JSON payload was not found on stdout"@,
        OcrError::PayloadUnreadable(backend) => "failed to parse "@ + policy::label_of_backend(
            backend,
        ) + " JSON payload"@,
        OcrError::VersionsUnreadable(backend) => "failed to parse "@ + policy::label_of_backend(
            backend,
        ) + " version payload"@,
        OcrError::NotRunnable(name) => "OCR backend `"@ + name@ + "` is not runnable"@,
        OcrError::TimedOut(ms) => "OCR process timed out after "@ + number::decimal(ms as int)
            + " ms"@,
        OcrError::TesseractTimedOut(ms) => "tesseract timed out after "@ + number::decimal(
            ms as int,
        ) + " ms"@,
        OcrError::Exited(backend, status) => policy::label_of_backend(backend) + " exited with "@
            + status@,
        OcrError::StartFailed(path) => "failed to start "@ + path@,
        OcrError::ReadFailed(path) => "failed to read "@ + path@,
        OcrError::CollectFailed => "failed to collect OCR output"@,
        OcrError::Other(words) => words@,
    }
}

impl OcrError {
    /// The message of the error.
    pub fn message(&self) -> (message: String)
        ensures
            message@ == error_text(*self),
    {
        match self {
            OcrError::MissingColumn(name) => text::concat("missing TSV column ", name.as_str()),
            OcrError::MissingBoxes => "RapidOCR output missing boxes".to_owned(),
            OcrError::MissingTexts => "RapidOCR output missing txts".to_owned(),
            OcrError::PayloadNotFound(backend) => text::concat(
                backend.label(),
                " JSON payload was not found on stdout",
            ),
            OcrError::PayloadUnreadable(backend) => text::concat3(
                "failed to parse ",
                backend.label(),
                " JSON payload",
            ),
            OcrError::VersionsUnreadable(backend) => text::concat3(
                "failed to parse ",
                backend.label(),
                " version payload",
            ),
            OcrError::NotRunnable(name) => text::concat3(
                "OCR backend `",
                name.as_str(),
                "` is not runnable",
            ),
            OcrError::TimedOut(ms) => text::concat3(
                "OCR process timed out after ",
                number::decimal_u64(*ms).as_str(),
                " ms",
            ),
            OcrError::TesseractTimedOut(ms) => text::concat3(
                "tesseract timed out after ",
                number::decimal_u64(*ms).as_str(),
                " ms",
            ),
            OcrError::Exited(backend, status) => text::concat3(
                backend.label(),
                " exited with ",
                status.as_str(),
            ),
            OcrError::StartFailed(path) => text::concat("failed to start ", path.as_str()),
            OcrError::ReadFailed(path) => text::concat("failed to read ", path.as_str()),
            OcrError::CollectFailed => "failed to collect OCR output".to_owned(),
            OcrError::Other(words) => words.clone(),
        }
    }
}

/// A message ends with the name, the path or the status that the error is about, behind the words
/// that say what is wrong with it.
pub proof fn law_message_ends_with_its_subject(subject: String)
    ensures
        text::after_prefix(
            error_text(OcrError::MissingColumn(subject)),
            "missing TSV column "@,
        ) == Some(subject@),
        text::after_prefix(error_text(OcrError::StartFailed(subject)), "failed to start "@)
            == Some(subject@),
        text::after_prefix(error_text(OcrError::ReadFailed(subject)), "failed to read "@) == Some(
            subject@,
        ),
        text::after_prefix(error_text(OcrError::Other(subject)), Seq::empty()) == Some(subject@),
{
    text::law_prefix_is_taken_off(
        error_text(OcrError::MissingColumn(subject)),
        "missing TSV column "@,
        subject@,
    );
    text::law_prefix_is_taken_off(
        error_text(OcrError::StartFailed(subject)),
        "failed to start "@,
        subject@,
    );
    text::law_prefix_is_taken_off(
        error_text(OcrError::ReadFailed(subject)),
        "failed to read "@,
        subject@,
    );
    assert(Seq::<char>::empty() + subject@ =~= subject@);
    text::law_prefix_is_taken_off(
        error_text(OcrError::Other(subject)),
        Seq::empty(),
        subject@,
    );
}

/// The message of a failed exit starts with the label of the backend and ends with the status; so two
/// failures of one backend have the same message only where they have the same status.
pub proof fn law_exit_message_names_backend_and_status(
    backend: OcrBackend,
    status: String,
    other: String,
)
    ensures
        policy::label_of_backend(backend).is_prefix_of(
            error_text(OcrError::Exited(backend, status)),
        ),
        text::after_prefix(
            error_text(OcrError::Exited(backend, status)),
            policy::label_of_backend(backend),
        ) == Some(" exited with "@ + status@),
        error_text(OcrError::Exited(backend, status)) == error_text(
            OcrError::Exited(backend, other),
        ) ==> status@ == other@,
{
    let label = policy::label_of_backend(backend);
    let rest = " exited with "@ + status@;
    assert(error_text(OcrError::Exited(backend, status)) =~= label + rest);
    text::law_prefix_is_taken_off(error_text(OcrError::Exited(backend, status)), label, rest);
    let start = label + " exited with "@;
    text::law_prefix_is_taken_off(start + status@, start, status@);
    text::law_prefix_is_taken_off(start + other@, start, other@);
}

/// The message of a time limit says how many milliseconds it was: the digits between its words are
/// read as that number.
pub proof fn law_timeout_message_says_the_limit(ms: u64)
    ensures
        error_text(OcrError::TimedOut(ms)) == "OCR process timed out after "@ + number::decimal(
            ms as int,
        ) + " ms"@,
        error_text(OcrError::TesseractTimedOut(ms)) == "tesseract timed out after "@
            + number::decimal(ms as int) + " ms"@,
        number::parsed_u64(number::decimal(ms as int)) == Some(ms as int),
{
    number::law_decimal_read_back(ms as int);
}

/// The messages on payloads and backends name what they are about between their words.
pub proof fn law_messages_on_payloads_and_backends(backend: OcrBackend, name: String)
    ensures
        error_text(OcrError::PayloadNotFound(backend)) == policy::label_of_backend(backend)
            + " JSON payload was not found on stdout"@,
        error_text(OcrError::PayloadUnreadable(backend)) == "failed to parse "@
            + policy::label_of_backend(backend) + " JSON payload"@,
        error_text(OcrError::VersionsUnreadable(backend)) == "failed to parse "@
            + policy::label_of_backend(backend) + " version payload"@,
        error_text(OcrError::NotRunnable(name)) == "OCR backend `"@ + name@ + "` is not runnable"@,
        error_text(OcrError::MissingBoxes) == "RapidOCR output missing boxes"@,
        error_text(OcrError::MissingTexts) == "RapidOCR output missing txts"@,
        error_text(OcrError::CollectFailed) == "failed to collect OCR output"@,
{
}

} // verus!
