//! How recognition is to run: the settings and where they come from.

use crate::number;
use crate::text;
use vstd::prelude::*;
use vstd::string::*;

verus! {

pub const DEFAULT_TESSERACT: &'static str = "tesseract";

pub const DEFAULT_RAPIDOCR_PYTHON: &'static str = "python3";

pub const DEFAULT_PADDLEOCR_PYTHON: &'static str = "python3";

pub const DEFAULT_LANGUAGE: &'static str = "eng";

pub const DEFAULT_RAPIDOCR_LANGUAGE: &'static str = "ch";

pub const DEFAULT_PADDLEOCR_LANGUAGE: &'static str = "en";

pub const DEFAULT_PSM: &'static str = "11";

pub const DEFAULT_TIMEOUT_MS: u64 = 10_000;

pub const TESSERACT_BACKEND_NAME: &'static str = "tesseract-cli";

pub const RAPIDOCR_BACKEND_NAME: &'static str = "rapidocr-python";

pub const PADDLEOCR_BACKEND_NAME: &'static str = "paddleocr-python";

pub const AUTO_BACKEND_NAME: &'static str = "auto";

/// Whether frames are recognised, and how a missing backend counts.
#[derive(Debug, Clone, Copy, PartialEq, Eq, Structural)]
pub enum OcrMode {
    Auto,
    Enabled,
    Required,
    Disabled,
}

/// Which backend is asked for.
#[derive(Debug, Clone, Copy, PartialEq, Eq, Structural)]
pub enum OcrBackendPreference {
    Auto,
    RapidOcr,
    PaddleOcr,
    Tesseract,
}

/// A backend that can recognise a frame.
#[derive(Debug, Clone, Copy, PartialEq, Eq, Structural)]
pub enum OcrBackend {
    RapidOcr,
    PaddleOcr,
    Tesseract,
}

/// The name of a backend.
pub open spec fn name_of_backend(backend: OcrBackend) -> Seq<char> {
    match backend {
        OcrBackend::RapidOcr => RAPIDOCR_BACKEND_NAME@,
        OcrBackend::PaddleOcr => PADDLEOCR_BACKEND_NAME@,
        OcrBackend::Tesseract => TESSERACT_BACKEND_NAME@,
    }
}

/// What messages call a backend.
pub open spec fn label_of_backend(backend: OcrBackend) -> Seq<char> {
    match backend {
        OcrBackend::RapidOcr => "RapidOCR"@,
        OcrBackend::PaddleOcr => "PaddleOCR"@,
        OcrBackend::Tesseract => "tesseract"@,
    }
}

impl OcrBackend {
    /// The name of the backend.
    pub fn name(&self) -> (name: &'static str)
        ensures
            name@ == name_of_backend(*self),
    {
        match self {
            OcrBackend::RapidOcr => RAPIDOCR_BACKEND_NAME,
            OcrBackend::PaddleOcr => PADDLEOCR_BACKEND_NAME,
            OcrBackend::Tesseract => TESSERACT_BACKEND_NAME,
        }
    }

    /// What messages call the backend.
    pub fn label(&self) -> (label: &'static str)
        ensures
            label@ == label_of_backend(*self),
    {
        match self {
            OcrBackend::RapidOcr => "RapidOCR",
            OcrBackend::PaddleOcr => "PaddleOCR",
            OcrBackend::Tesseract => "tesseract",
        }
    }
}

/// The settings of recognition.
#[derive(Debug, PartialEq, Eq)]
pub struct OcrPolicy {
    pub mode: OcrMode,
    pub backend_preference: OcrBackendPreference,
    pub tesseract_executable: String,
    pub rapidocr_python: String,
    pub paddleocr_python: String,
    pub language: String,
    pub rapidocr_language: String,
    pub paddleocr_language: String,
    pub paddleocr_device: Option<String>,
    pub paddleocr_engine: Option<String>,
    pub paddleocr_version: Option<String>,
    pub page_segmentation_mode: String,
    pub timeout_ms: u64,
}

/// The settings, strings taken as their characters.
#[verifier::ext_equal]
pub struct PolicyModel {
    pub mode: OcrMode,
    pub backend_preference: OcrBackendPreference,
    pub tesseract_executable: Seq<char>,
    pub rapidocr_python: Seq<char>,
    pub paddleocr_python: Seq<char>,
    pub language: Seq<char>,
    pub rapidocr_language: Seq<char>,
    pub paddleocr_language: Seq<char>,
    pub paddleocr_device: Option<Seq<char>>,
    pub paddleocr_engine: Option<Seq<char>>,
    pub paddleocr_version: Option<Seq<char>>,
    pub page_segmentation_mode: Seq<char>,
    pub timeout_ms: u64,
}

impl View for OcrPolicy {
    type V = PolicyModel;

    open spec fn view(&self) -> PolicyModel {
        PolicyModel {
            mode: self.mode,
            backend_preference: self.backend_preference,
            tesseract_executable: self.tesseract_executable@,
            rapidocr_python: self.rapidocr_python@,
            paddleocr_python: self.paddleocr_python@,
            language: self.language@,
            rapidocr_language: self.rapidocr_language@,
            paddleocr_language: self.paddleocr_language@,
            paddleocr_device: text::option_view(self.paddleocr_device),
            paddleocr_engine: text::option_view(self.paddleocr_engine),
            paddleocr_version: text::option_view(self.paddleocr_version),
            page_segmentation_mode: self.page_segmentation_mode@,
            timeout_ms: self.timeout_ms,
        }
    }
}

impl Clone for OcrPolicy {
    fn clone(&self) -> (copy: OcrPolicy)
        ensures
            copy@ == self@,
    {
        OcrPolicy {
            mode: self.mode,
            backend_preference: self.backend_preference,
            tesseract_executable: self.tesseract_executable.clone(),
            rapidocr_python: self.rapidocr_python.clone(),
            paddleocr_python: self.paddleocr_python.clone(),
            language: self.language.clone(),
            rapidocr_language: self.rapidocr_language.clone(),
            paddleocr_language: self.paddleocr_language.clone(),
            paddleocr_device: text::copy_option(&self.paddleocr_device),
            paddleocr_engine: text::copy_option(&self.paddleocr_engine),
            paddleocr_version: text::copy_option(&self.paddleocr_version),
            page_segmentation_mode: self.page_segmentation_mode.clone(),
            timeout_ms: self.timeout_ms,
        }
    }
}

/// Names and values of environment variables, as their characters.
pub open spec fn variables(vars: Seq<(String, String)>) -> Seq<(Seq<char>, Seq<char>)> {
    vars.map_values(|pair: (String, String)| (pair.0@, pair.1@))
}

/// The value of the first variable of that name.
pub open spec fn lookup(vars: Seq<(Seq<char>, Seq<char>)>, key: Seq<char>) -> Option<Seq<char>>
    decreases vars.len(),
{
    if vars.len() == 0 {
        None
    } else if vars[0].0 == key {
        Some(vars[0].1)
    } else {
        lookup(vars.drop_first(), key)
    }
}

/// What a variable says: its value without the white space around it, unless nothing is left.
pub open spec fn setting(vars: Seq<(Seq<char>, Seq<char>)>, key: Seq<char>) -> Option<Seq<char>> {
    match lookup(vars, key) {
        Some(value) if text::trimmed(value).len() > 0 => Some(text::trimmed(value)),
        _ => None,
    }
}

/// What the first of two variables says, or else the second.
pub open spec fn setting_or(
    vars: Seq<(Seq<char>, Seq<char>)>,
    key: Seq<char>,
    fallback: Seq<char>,
) -> Option<Seq<char>> {
    match setting(vars, key) {
        Some(value) => Some(value),
        None => setting(vars, fallback),
    }
}

/// The value, or the default where there is none.
pub open spec fn or_default(value: Option<Seq<char>>, default: Seq<char>) -> Seq<char> {
    match value {
        Some(value) => value,
        None => default,
    }
}

/// The mode that a setting asks for.
pub open spec fn mode_of(value: Option<Seq<char>>) -> OcrMode {
    match value {
        None => OcrMode::Auto,
        Some(value) => {
            let word = text::lowered(text::trimmed(value));
            if word == "disabled"@ || word == "off"@ || word == "false"@ || word == "0"@ {
                OcrMode::Disabled
            } else if word == "enabled"@ || word == "on"@ || word == "true"@ || word == "1"@ {
                OcrMode::Enabled
            } else if word == "required"@ || word == "require"@ {
                OcrMode::Required
            } else {
                OcrMode::Auto
            }
        },
    }
}

/// The backend that a setting asks for.
pub open spec fn preference_of(value: Option<Seq<char>>) -> OcrBackendPreference {
    match value {
        None => OcrBackendPreference::Auto,
        Some(value) => {
            let word = text::lowered(text::trimmed(value));
            if word == "rapidocr"@ || word == "rapidocr-python"@ || word == "rapid-ocr"@ {
                OcrBackendPreference::RapidOcr
            } else if word == "paddleocr"@ || word == "paddleocr-python"@ || word == "paddle-ocr"@
                || word == "paddle"@ {
                OcrBackendPreference::PaddleOcr
            } else if word == "tesseract"@ || word == "tesseract-cli"@ {
                OcrBackendPreference::Tesseract
            } else {
                OcrBackendPreference::Auto
            }
        },
    }
}

/// The time limit that a setting asks for, in milliseconds.
pub open spec fn timeout_of(value: Option<Seq<char>>) -> int {
    match value {
        Some(value) => match number::parsed_u64(value) {
            Some(ms) if ms > 0 => ms,
            _ => DEFAULT_TIMEOUT_MS as int,
        },
        None => DEFAULT_TIMEOUT_MS as int,
    }
}

/// The settings that the environment asks for.
pub open spec fn policy_of(vars: Seq<(Seq<char>, Seq<char>)>) -> PolicyModel {
    PolicyModel {
        mode: mode_of(setting_or(vars, "CODEX_SKYSIGHT_OCR"@, "CODEX_CHRONICLE_OCR"@)),
        backend_preference: preference_of(
            setting_or(vars, "CODEX_SKYSIGHT_OCR_BACKEND"@, "CODEX_CHRONICLE_OCR_BACKEND"@),
        ),
        tesseract_executable: or_default(
            setting_or(vars, "CODEX_SKYSIGHT_TESSERACT_PATH"@, "CODEX_CHRONICLE_TESSERACT_PATH"@),
            DEFAULT_TESSERACT@,
        ),
        rapidocr_python: or_default(
            setting_or(vars, "CODEX_SKYSIGHT_RAPIDOCR_PYTHON"@, "CODEX_CHRONICLE_RAPIDOCR_PYTHON"@),
            DEFAULT_RAPIDOCR_PYTHON@,
        ),
        paddleocr_python: or_default(
            setting_or(
                vars,
                "CODEX_SKYSIGHT_PADDLEOCR_PYTHON"@,
                "CODEX_CHRONICLE_PADDLEOCR_PYTHON"@,
            ),
            DEFAULT_PADDLEOCR_PYTHON@,
        ),
        language: or_default(setting(vars, "CODEX_SKYSIGHT_OCR_LANG"@), DEFAULT_LANGUAGE@),
        rapidocr_language: or_default(
            setting_or(vars, "CODEX_SKYSIGHT_RAPIDOCR_LANG"@, "CODEX_CHRONICLE_RAPIDOCR_LANG"@),
            DEFAULT_RAPIDOCR_LANGUAGE@,
        ),
        paddleocr_language: or_default(
            setting_or(vars, "CODEX_SKYSIGHT_PADDLEOCR_LANG"@, "CODEX_CHRONICLE_PADDLEOCR_LANG"@),
            DEFAULT_PADDLEOCR_LANGUAGE@,
        ),
        paddleocr_device: setting_or(
            vars,
            "CODEX_SKYSIGHT_PADDLEOCR_DEVICE"@,
            "CODEX_CHRONICLE_PADDLEOCR_DEVICE"@,
        ),
        paddleocr_engine: setting_or(
            vars,
            "CODEX_SKYSIGHT_PADDLEOCR_ENGINE"@,
            "CODEX_CHRONICLE_PADDLEOCR_ENGINE"@,
        ),
        paddleocr_version: setting_or(
            vars,
            "CODEX_SKYSIGHT_PADDLEOCR_VERSION"@,
            "CODEX_CHRONICLE_PADDLEOCR_VERSION"@,
        ),
        page_segmentation_mode: or_default(
            setting(vars, "CODEX_SKYSIGHT_OCR_PSM"@),
            DEFAULT_PSM@,
        ),
        timeout_ms: timeout_of(
            setting_or(vars, "CODEX_SKYSIGHT_OCR_TIMEOUT_MS"@, "CODEX_CHRONICLE_OCR_TIMEOUT_MS"@),
        ) as u64,
    }
}

/// What a variable says: its value without the white space around it, unless nothing is left.
pub fn env_value(vars: &Vec<(String, String)>, key: &str) -> (r: Option<String>)
    ensures
        text::option_view(r) == setting(variables(vars@), key@),
{
    let ghost all = variables(vars@);
    assert(all.skip(0) =~= all);
    for i in 0..vars.len()
        invariant
            all == variables(vars@),
            lookup(all, key@) == lookup(all.skip(i as int), key@),
    {
        let ghost rest = all.skip(i as int);
        assert(rest[0] == (vars@[i as int].0@, vars@[i as int].1@));
        assert(rest.drop_first() =~= all.skip(i + 1));
        if text::same_text(vars[i].0.as_str(), key) {
            let value = text::trim(vars[i].1.as_str());
            return if value.as_str().is_empty() {
                None
            } else {
                Some(value)
            };
        }
    }
    None
}

fn env_value_or(vars: &Vec<(String, String)>, key: &str, fallback: &str) -> (r: Option<String>)
    ensures
        text::option_view(r) == setting_or(variables(vars@), key@, fallback@),
{
    match env_value(vars, key) {
        Some(value) => Some(value),
        None => env_value(vars, fallback),
    }
}

fn value_or(value: Option<String>, default: &str) -> (r: String)
    ensures
        r@ == or_default(text::option_view(value), default@),
{
    match value {
        Some(value) => value,
        None => default.to_owned(),
    }
}

fn parse_mode(value: &Option<String>) -> (mode: OcrMode)
    ensures
        mode == mode_of(text::option_view(*value)),
{
    match value {
        None => OcrMode::Auto,
        Some(value) => {
            let word = text::to_lower(text::trim(value.as_str()).as_str());
            let word = word.as_str();
            if text::same_text(word, "disabled") || text::same_text(word, "off") || text::same_text(
                word,
                "false",
            ) || text::same_text(word, "0") {
                OcrMode::Disabled
            } else if text::same_text(word, "enabled") || text::same_text(word, "on")
                || text::same_text(word, "true") || text::same_text(word, "1") {
                OcrMode::Enabled
            } else if text::same_text(word, "required") || text::same_text(word, "require") {
                OcrMode::Required
            } else {
                OcrMode::Auto
            }
        },
    }
}

fn parse_preference(value: &Option<String>) -> (preference: OcrBackendPreference)
    ensures
        preference == preference_of(text::option_view(*value)),
{
    match value {
        None => OcrBackendPreference::Auto,
        Some(value) => {
            let word = text::to_lower(text::trim(value.as_str()).as_str());
            let word = word.as_str();
            if text::same_text(word, "rapidocr") || text::same_text(word, "rapidocr-python")
                || text::same_text(word, "rapid-ocr") {
                OcrBackendPreference::RapidOcr
            } else if text::same_text(word, "paddleocr") || text::same_text(
                word,
                "paddleocr-python",
            ) || text::same_text(word, "paddle-ocr") || text::same_text(word, "paddle") {
                OcrBackendPreference::PaddleOcr
            } else if text::same_text(word, "tesseract") || text::same_text(word, "tesseract-cli") {
                OcrBackendPreference::Tesseract
            } else {
                OcrBackendPreference::Auto
            }
        },
    }
}

fn parse_timeout(value: &Option<String>) -> (ms: u64)
    ensures
        ms == timeout_of(text::option_view(*value)),
{
    match value {
        Some(value) => match number::parse_u64(value.as_str()) {
            Some(ms) => if ms > 0 {
                ms
            } else {
                DEFAULT_TIMEOUT_MS
            },
            None => DEFAULT_TIMEOUT_MS,
        },
        None => DEFAULT_TIMEOUT_MS,
    }
}

/// The name of a backend preference.
pub open spec fn preference_name(preference: OcrBackendPreference) -> Seq<char> {
    match preference {
        OcrBackendPreference::Auto => AUTO_BACKEND_NAME@,
        OcrBackendPreference::RapidOcr => RAPIDOCR_BACKEND_NAME@,
        OcrBackendPreference::PaddleOcr => PADDLEOCR_BACKEND_NAME@,
        OcrBackendPreference::Tesseract => TESSERACT_BACKEND_NAME@,
    }
}

/// The name of a mode.
pub open spec fn name_of_mode(mode: OcrMode) -> Seq<char> {
    match mode {
        OcrMode::Auto => "auto"@,
        OcrMode::Enabled => "enabled"@,
        OcrMode::Required => "required"@,
        OcrMode::Disabled => "disabled"@,
    }
}

impl OcrPolicy {
    /// The settings that the environment variables ask for.
    pub fn from_env(vars: &Vec<(String, String)>) -> (policy: OcrPolicy)
        ensures
            policy@ == policy_of(variables(vars@)),
    {
        let mode = env_value_or(vars, "CODEX_SKYSIGHT_OCR", "CODEX_CHRONICLE_OCR");
        let backend = env_value_or(
            vars,
            "CODEX_SKYSIGHT_OCR_BACKEND",
            "CODEX_CHRONICLE_OCR_BACKEND",
        );
        let tesseract_executable = env_value_or(
            vars,
            "CODEX_SKYSIGHT_TESSERACT_PATH",
            "CODEX_CHRONICLE_TESSERACT_PATH",
        );
        let rapidocr_python = env_value_or(
            vars,
            "CODEX_SKYSIGHT_RAPIDOCR_PYTHON",
            "CODEX_CHRONICLE_RAPIDOCR_PYTHON",
        );
        let paddleocr_python = env_value_or(
            vars,
            "CODEX_SKYSIGHT_PADDLEOCR_PYTHON",
            "CODEX_CHRONICLE_PADDLEOCR_PYTHON",
        );
        let language = env_value(vars, "CODEX_SKYSIGHT_OCR_LANG");
        let rapidocr_language = env_value_or(
            vars,
            "CODEX_SKYSIGHT_RAPIDOCR_LANG",
            "CODEX_CHRONICLE_RAPIDOCR_LANG",
        );
        let paddleocr_language = env_value_or(
            vars,
            "CODEX_SKYSIGHT_PADDLEOCR_LANG",
            "CODEX_CHRONICLE_PADDLEOCR_LANG",
        );
        let paddleocr_device = env_value_or(
            vars,
            "CODEX_SKYSIGHT_PADDLEOCR_DEVICE",
            "CODEX_CHRONICLE_PADDLEOCR_DEVICE",
        );
        let paddleocr_engine = env_value_or(
            vars,
            "CODEX_SKYSIGHT_PADDLEOCR_ENGINE",
            "CODEX_CHRONICLE_PADDLEOCR_ENGINE",
        );
        let paddleocr_version = env_value_or(
            vars,
            "CODEX_SKYSIGHT_PADDLEOCR_VERSION",
            "CODEX_CHRONICLE_PADDLEOCR_VERSION",
        );
        let page_segmentation_mode = env_value(vars, "CODEX_SKYSIGHT_OCR_PSM");
        let timeout = env_value_or(
            vars,
            "CODEX_SKYSIGHT_OCR_TIMEOUT_MS",
            "CODEX_CHRONICLE_OCR_TIMEOUT_MS",
        );

        OcrPolicy {
            mode: parse_mode(&mode),
            backend_preference: parse_preference(&backend),
            tesseract_executable: value_or(tesseract_executable, DEFAULT_TESSERACT),
            rapidocr_python: value_or(rapidocr_python, DEFAULT_RAPIDOCR_PYTHON),
            paddleocr_python: value_or(paddleocr_python, DEFAULT_PADDLEOCR_PYTHON),
            language: value_or(language, DEFAULT_LANGUAGE),
            rapidocr_language: value_or(rapidocr_language, DEFAULT_RAPIDOCR_LANGUAGE),
            paddleocr_language: value_or(paddleocr_language, DEFAULT_PADDLEOCR_LANGUAGE),
            paddleocr_device,
            paddleocr_engine,
            paddleocr_version,
            page_segmentation_mode: value_or(page_segmentation_mode, DEFAULT_PSM),
            timeout_ms: parse_timeout(&timeout),
        }
    }

    /// The name of the backend asked for.
    pub fn backend_name(&self) -> (name: &'static str)
        ensures
            name@ == preference_name(self.backend_preference),
    {
        match self.backend_preference {
            OcrBackendPreference::Auto => AUTO_BACKEND_NAME,
            OcrBackendPreference::RapidOcr => RAPIDOCR_BACKEND_NAME,
            OcrBackendPreference::PaddleOcr => PADDLEOCR_BACKEND_NAME,
            OcrBackendPreference::Tesseract => TESSERACT_BACKEND_NAME,
        }
    }

    /// The name of the mode.
    pub fn mode_name(&self) -> (name: &'static str)
        ensures
            name@ == name_of_mode(self.mode),
    {
        match self.mode {
            OcrMode::Auto => "auto",
            OcrMode::Enabled => "enabled",
            OcrMode::Required => "required",
            OcrMode::Disabled => "disabled",
        }
    }
}

proof fn lemma_plain_word(word: Seq<char>)
    requires
        word.len() > 0,
        forall|i: int|
            0 <= i < word.len() ==> ('a' <= #[trigger] word[i] <= 'z') || word[i] == '-',
    ensures
        text::lowered(text::trimmed(word)) == word,
{
    assert(!text::is_white(word[0]));
    assert(!text::is_white(word[word.len() - 1]));
    assert(text::trimmed(word) == word);
    assert(text::lowered(word) =~= word);
}

/// A mode is read back from its own name.
pub proof fn law_mode_name_read_back(mode: OcrMode)
    ensures
        mode_of(Some(name_of_mode(mode))) == mode,
{
    reveal_strlit("auto");
    reveal_strlit("enabled");
    reveal_strlit("required");
    reveal_strlit("disabled");
    reveal_strlit("off");
    reveal_strlit("false");
    reveal_strlit("0");
    reveal_strlit("on");
    reveal_strlit("true");
    reveal_strlit("1");
    reveal_strlit("require");
    let name = name_of_mode(mode);
    lemma_plain_word(name);
    match mode {
        OcrMode::Auto => {
            assert(name[0] == 'a');
            assert("disabled"@[0] == 'd' && "off"@[0] == 'o' && "false"@[0] == 'f' && "0"@[0]
                == '0' && "enabled"@[0] == 'e' && "on"@[0] == 'o' && "true"@[0] == 't' && "1"@[0]
                == '1' && "required"@[0] == 'r' && "require"@[0] == 'r');
        },
        OcrMode::Enabled => {
            assert(name[0] == 'e');
            assert("disabled"@[0] == 'd' && "off"@[0] == 'o' && "false"@[0] == 'f' && "0"@[0]
                == '0');
        },
        OcrMode::Required => {
            assert(name[0] == 'r');
            assert("disabled"@[0] == 'd' && "off"@[0] == 'o' && "false"@[0] == 'f' && "0"@[0]
                == '0' && "enabled"@[0] == 'e' && "on"@[0] == 'o' && "true"@[0] == 't' && "1"@[0]
                == '1');
        },
        OcrMode::Disabled => {},
    }
}

/// A backend preference is read back from its own name.
pub proof fn law_backend_name_read_back(preference: OcrBackendPreference)
    ensures
        preference_of(Some(preference_name(preference))) == preference,
{
    reveal_strlit("auto");
    reveal_strlit("rapidocr-python");
    reveal_strlit("paddleocr-python");
    reveal_strlit("tesseract-cli");
    reveal_strlit("rapidocr");
    reveal_strlit("rapid-ocr");
    reveal_strlit("paddleocr");
    reveal_strlit("paddle-ocr");
    reveal_strlit("paddle");
    reveal_strlit("tesseract");
    let name = preference_name(preference);
    lemma_plain_word(name);
    assert("rapidocr"@[0] == 'r' && "rapidocr-python"@[0] == 'r' && "rapid-ocr"@[0] == 'r');
    assert("paddleocr"@[0] == 'p' && "paddleocr-python"@[0] == 'p' && "paddle-ocr"@[0] == 'p'
        && "paddle"@[0] == 'p');
    assert("tesseract"@[0] == 't' && "tesseract-cli"@[0] == 't' && "auto"@[0] == 'a');
}

/// The time limit is never zero, whatever the environment holds.
pub proof fn law_timeout_positive(vars: Seq<(Seq<char>, Seq<char>)>)
    ensures
        policy_of(vars).timeout_ms > 0,
{
}

/// A variable that holds only white space counts as not set.
pub proof fn law_blank_variable_is_unset(vars: Seq<(Seq<char>, Seq<char>)>, key: Seq<char>)
    ensures
        setting(vars, key) is None <==> match lookup(vars, key) {
            Some(value) => text::is_blank_text(value),
            None => true,
        },
{
    if let Some(value) = lookup(vars, key) {
        text::law_trimmed_empty_iff_blank(value);
    }
}

/// What the second of two variables says counts only where the first says nothing.
pub proof fn law_first_variable_wins(
    vars: Seq<(Seq<char>, Seq<char>)>,
    key: Seq<char>,
    fallback: Seq<char>,
)
    ensures
        setting(vars, key) is Some ==> setting_or(vars, key, fallback) == setting(vars, key),
        setting(vars, key) is None ==> setting_or(vars, key, fallback) == setting(vars, fallback),
{
}

/// The names of the variables that settings are read from.
pub open spec fn setting_names() -> Seq<Seq<char>> {
    seq![
        "CODEX_SKYSIGHT_OCR"@,
        "CODEX_CHRONICLE_OCR"@,
        "CODEX_SKYSIGHT_OCR_BACKEND"@,
        "CODEX_CHRONICLE_OCR_BACKEND"@,
        "CODEX_SKYSIGHT_TESSERACT_PATH"@,
        "CODEX_CHRONICLE_TESSERACT_PATH"@,
        "CODEX_SKYSIGHT_RAPIDOCR_PYTHON"@,
        "CODEX_CHRONICLE_RAPIDOCR_PYTHON"@,
        "CODEX_SKYSIGHT_PADDLEOCR_PYTHON"@,
        "CODEX_CHRONICLE_PADDLEOCR_PYTHON"@,
        "CODEX_SKYSIGHT_OCR_LANG"@,
        "CODEX_SKYSIGHT_RAPIDOCR_LANG"@,
        "CODEX_CHRONICLE_RAPIDOCR_LANG"@,
        "CODEX_SKYSIGHT_PADDLEOCR_LANG"@,
        "CODEX_CHRONICLE_PADDLEOCR_LANG"@,
        "CODEX_SKYSIGHT_PADDLEOCR_DEVICE"@,
        "CODEX_CHRONICLE_PADDLEOCR_DEVICE"@,
        "CODEX_SKYSIGHT_PADDLEOCR_ENGINE"@,
        "CODEX_CHRONICLE_PADDLEOCR_ENGINE"@,
        "CODEX_SKYSIGHT_PADDLEOCR_VERSION"@,
        "CODEX_CHRONICLE_PADDLEOCR_VERSION"@,
        "CODEX_SKYSIGHT_OCR_PSM"@,
        "CODEX_SKYSIGHT_OCR_TIMEOUT_MS"@,
        "CODEX_CHRONICLE_OCR_TIMEOUT_MS"@,
    ]
}

/// A variable of another name changes no setting.
pub proof fn law_other_variables_do_not_matter(
    vars: Seq<(Seq<char>, Seq<char>)>,
    name: Seq<char>,
    value: Seq<char>,
)
    requires
        !setting_names().contains(name),
    ensures
        policy_of(seq![(name, value)] + vars) == policy_of(vars),
{
    let names = setting_names();
    let more = seq![(name, value)] + vars;
    assert(more.drop_first() =~= vars);
    assert forall|i: int| 0 <= i < names.len() implies lookup(more, #[trigger] names[i]) == lookup(
        vars,
        names[i],
    ) by {
        assert(names.contains(names[i]));
    }
    assert(names[0] == "CODEX_SKYSIGHT_OCR"@);
    assert(names[1] == "CODEX_CHRONICLE_OCR"@);
    assert(names[2] == "CODEX_SKYSIGHT_OCR_BACKEND"@);
    assert(names[3] == "CODEX_CHRONICLE_OCR_BACKEND"@);
    assert(names[4] == "CODEX_SKYSIGHT_TESSERACT_PATH"@);
    assert(names[5] == "CODEX_CHRONICLE_TESSERACT_PATH"@);
    assert(names[6] == "CODEX_SKYSIGHT_RAPIDOCR_PYTHON"@);
    assert(names[7] == "CODEX_CHRONICLE_RAPIDOCR_PYTHON"@);
    assert(names[8] == "CODEX_SKYSIGHT_PADDLEOCR_PYTHON"@);
    assert(names[9] == "CODEX_CHRONICLE_PADDLEOCR_PYTHON"@);
    assert(names[10] == "CODEX_SKYSIGHT_OCR_LANG"@);
    assert(names[11] == "CODEX_SKYSIGHT_RAPIDOCR_LANG"@);
    assert(names[12] == "CODEX_CHRONICLE_RAPIDOCR_LANG"@);
    assert(names[13] == "CODEX_SKYSIGHT_PADDLEOCR_LANG"@);
    assert(names[14] == "CODEX_CHRONICLE_PADDLEOCR_LANG"@);
    assert(names[15] == "CODEX_SKYSIGHT_PADDLEOCR_DEVICE"@);
    assert(names[16] == "CODEX_CHRONICLE_PADDLEOCR_DEVICE"@);
    assert(names[17] == "CODEX_SKYSIGHT_PADDLEOCR_ENGINE"@);
    assert(names[18] == "CODEX_CHRONICLE_PADDLEOCR_ENGINE"@);
    assert(names[19] == "CODEX_SKYSIGHT_PADDLEOCR_VERSION"@);
    assert(names[20] == "CODEX_CHRONICLE_PADDLEOCR_VERSION"@);
    assert(names[21] == "CODEX_SKYSIGHT_OCR_PSM"@);
    assert(names[22] == "CODEX_SKYSIGHT_OCR_TIMEOUT_MS"@);
    assert(names[23] == "CODEX_CHRONICLE_OCR_TIMEOUT_MS"@);
}

/// Whether no variable of a name says anything.
pub open spec fn is_silent(vars: Seq<(Seq<char>, Seq<char>)>, name: Seq<char>) -> bool {
    forall|i: int|
        0 <= i < vars.len() && (#[trigger] vars[i]).0 == name ==> text::is_blank_text(vars[i].1)
}

proof fn lemma_lookup(vars: Seq<(Seq<char>, Seq<char>)>, i: int)
    requires
        0 <= i < vars.len(),
        forall|j: int| 0 <= j < i ==> (#[trigger] vars[j]).0 != vars[i].0,
    ensures
        lookup(vars, vars[i].0) == Some(vars[i].1),
    decreases i,
{
    if i > 0 {
        assert(vars[0].0 != vars[i].0);
        let rest = vars.drop_first();
        assert forall|j: int| 0 <= j < i - 1 implies (#[trigger] rest[j]).0 != rest[i - 1].0 by {
            assert(rest[j] == vars[j + 1]);
        }
        lemma_lookup(rest, i - 1);
    }
}

proof fn lemma_silent(vars: Seq<(Seq<char>, Seq<char>)>, name: Seq<char>)
    requires
        is_silent(vars, name),
    ensures
        setting(vars, name) is None,
    decreases vars.len(),
{
    if vars.len() > 0 {
        if vars[0].0 == name {
            text::law_trimmed_empty_iff_blank(vars[0].1);
        } else {
            let rest = vars.drop_first();
            assert forall|i: int|
                0 <= i < rest.len() && (#[trigger] rest[i]).0 == name implies text::is_blank_text(
                rest[i].1,
            ) by {
                assert(rest[i] == vars[i + 1]);
            }
            lemma_silent(rest, name);
        }
    }
}

/// Each setting has a variable of its own, and what that says, without the white space around it, is
/// the setting.
pub proof fn law_variable_makes_its_setting(vars: Seq<(Seq<char>, Seq<char>)>, i: int)
    requires
        0 <= i < vars.len(),
        forall|j: int| 0 <= j < i ==> (#[trigger] vars[j]).0 != vars[i].0,
        !text::is_blank_text(vars[i].1),
    ensures
        ({
            let name = vars[i].0;
            let said = text::trimmed(vars[i].1);
            let policy = policy_of(vars);
            &&& name == "CODEX_SKYSIGHT_TESSERACT_PATH"@ ==> policy.tesseract_executable == said
            &&& name == "CODEX_SKYSIGHT_RAPIDOCR_PYTHON"@ ==> policy.rapidocr_python == said
            &&& name == "CODEX_SKYSIGHT_PADDLEOCR_PYTHON"@ ==> policy.paddleocr_python == said
            &&& name == "CODEX_SKYSIGHT_OCR_LANG"@ ==> policy.language == said
            &&& name == "CODEX_SKYSIGHT_RAPIDOCR_LANG"@ ==> policy.rapidocr_language == said
            &&& name == "CODEX_SKYSIGHT_PADDLEOCR_LANG"@ ==> policy.paddleocr_language == said
            &&& name == "CODEX_SKYSIGHT_PADDLEOCR_DEVICE"@ ==> policy.paddleocr_device == Some(said)
            &&& name == "CODEX_SKYSIGHT_PADDLEOCR_ENGINE"@ ==> policy.paddleocr_engine == Some(said)
            &&& name == "CODEX_SKYSIGHT_PADDLEOCR_VERSION"@ ==> policy.paddleocr_version == Some(said)
            &&& name == "CODEX_SKYSIGHT_OCR_PSM"@ ==> policy.page_segmentation_mode == said
            &&& name == "CODEX_SKYSIGHT_OCR"@ ==> policy.mode == mode_of(Some(said))
            &&& name == "CODEX_SKYSIGHT_OCR_BACKEND"@ ==> policy.backend_preference
                == preference_of(Some(said))
            &&& name == "CODEX_SKYSIGHT_OCR_TIMEOUT_MS"@ ==> policy.timeout_ms == limit_said(said)
        }),
{
    text::law_trimmed_empty_iff_blank(vars[i].1);
    lemma_lookup(vars, i);
}

/// The milliseconds that a text asks for: the number that it is, or ten thousand where it is none or
/// zero.
pub open spec fn limit_said(said: Seq<char>) -> int {
    match number::parsed_u64(said) {
        Some(ms) => if ms <= 0 {
            10_000
        } else {
            ms
        },
        None => 10_000,
    }
}

/// Most settings have a second variable, which counts where the first is silent.
pub proof fn law_second_variable_makes_setting_where_first_is_silent(
    vars: Seq<(Seq<char>, Seq<char>)>,
    i: int,
)
    requires
        0 <= i < vars.len(),
        forall|j: int| 0 <= j < i ==> (#[trigger] vars[j]).0 != vars[i].0,
        !text::is_blank_text(vars[i].1),
    ensures
        ({
            let name = vars[i].0;
            let said = text::trimmed(vars[i].1);
            let policy = policy_of(vars);
            &&& name == "CODEX_CHRONICLE_TESSERACT_PATH"@ && is_silent(
                vars,
                "CODEX_SKYSIGHT_TESSERACT_PATH"@,
            ) ==> policy.tesseract_executable == said
            &&& name == "CODEX_CHRONICLE_RAPIDOCR_PYTHON"@ && is_silent(
                vars,
                "CODEX_SKYSIGHT_RAPIDOCR_PYTHON"@,
            ) ==> policy.rapidocr_python == said
            &&& name == "CODEX_CHRONICLE_PADDLEOCR_PYTHON"@ && is_silent(
                vars,
                "CODEX_SKYSIGHT_PADDLEOCR_PYTHON"@,
            ) ==> policy.paddleocr_python == said
            &&& name == "CODEX_CHRONICLE_RAPIDOCR_LANG"@ && is_silent(
                vars,
                "CODEX_SKYSIGHT_RAPIDOCR_LANG"@,
            ) ==> policy.rapidocr_language == said
            &&& name == "CODEX_CHRONICLE_PADDLEOCR_LANG"@ && is_silent(
                vars,
                "CODEX_SKYSIGHT_PADDLEOCR_LANG"@,
            ) ==> policy.paddleocr_language == said
            &&& name == "CODEX_CHRONICLE_PADDLEOCR_DEVICE"@ && is_silent(
                vars,
                "CODEX_SKYSIGHT_PADDLEOCR_DEVICE"@,
            ) ==> policy.paddleocr_device == Some(said)
            &&& name == "CODEX_CHRONICLE_PADDLEOCR_ENGINE"@ && is_silent(
                vars,
                "CODEX_SKYSIGHT_PADDLEOCR_ENGINE"@,
            ) ==> policy.paddleocr_engine == Some(said)
            &&& name == "CODEX_CHRONICLE_PADDLEOCR_VERSION"@ && is_silent(
                vars,
                "CODEX_SKYSIGHT_PADDLEOCR_VERSION"@,
            ) ==> policy.paddleocr_version == Some(said)
            &&& name == "CODEX_CHRONICLE_OCR"@ && is_silent(vars, "CODEX_SKYSIGHT_OCR"@)
                ==> policy.mode == mode_of(Some(said))
            &&& name == "CODEX_CHRONICLE_OCR_BACKEND"@ && is_silent(
                vars,
                "CODEX_SKYSIGHT_OCR_BACKEND"@,
            ) ==> policy.backend_preference == preference_of(Some(said))
            &&& name == "CODEX_CHRONICLE_OCR_TIMEOUT_MS"@ && is_silent(
                vars,
                "CODEX_SKYSIGHT_OCR_TIMEOUT_MS"@,
            ) ==> policy.timeout_ms == limit_said(said)
        }),
{
    text::law_trimmed_empty_iff_blank(vars[i].1);
    lemma_lookup(vars, i);
    if is_silent(vars, "CODEX_SKYSIGHT_TESSERACT_PATH"@) {
        lemma_silent(vars, "CODEX_SKYSIGHT_TESSERACT_PATH"@);
    }
    if is_silent(vars, "CODEX_SKYSIGHT_RAPIDOCR_PYTHON"@) {
        lemma_silent(vars, "CODEX_SKYSIGHT_RAPIDOCR_PYTHON"@);
    }
    if is_silent(vars, "CODEX_SKYSIGHT_PADDLEOCR_PYTHON"@) {
        lemma_silent(vars, "CODEX_SKYSIGHT_PADDLEOCR_PYTHON"@);
    }
    if is_silent(vars, "CODEX_SKYSIGHT_RAPIDOCR_LANG"@) {
        lemma_silent(vars, "CODEX_SKYSIGHT_RAPIDOCR_LANG"@);
    }
    if is_silent(vars, "CODEX_SKYSIGHT_PADDLEOCR_LANG"@) {
        lemma_silent(vars, "CODEX_SKYSIGHT_PADDLEOCR_LANG"@);
    }
    if is_silent(vars, "CODEX_SKYSIGHT_PADDLEOCR_DEVICE"@) {
        lemma_silent(vars, "CODEX_SKYSIGHT_PADDLEOCR_DEVICE"@);
    }
    if is_silent(vars, "CODEX_SKYSIGHT_PADDLEOCR_ENGINE"@) {
        lemma_silent(vars, "CODEX_SKYSIGHT_PADDLEOCR_ENGINE"@);
    }
    if is_silent(vars, "CODEX_SKYSIGHT_PADDLEOCR_VERSION"@) {
        lemma_silent(vars, "CODEX_SKYSIGHT_PADDLEOCR_VERSION"@);
    }
    if is_silent(vars, "CODEX_SKYSIGHT_OCR"@) {
        lemma_silent(vars, "CODEX_SKYSIGHT_OCR"@);
    }
    if is_silent(vars, "CODEX_SKYSIGHT_OCR_BACKEND"@) {
        lemma_silent(vars, "CODEX_SKYSIGHT_OCR_BACKEND"@);
    }
    if is_silent(vars, "CODEX_SKYSIGHT_OCR_TIMEOUT_MS"@) {
        lemma_silent(vars, "CODEX_SKYSIGHT_OCR_TIMEOUT_MS"@);
    }
}

/// Where the variables of a setting are silent, the setting is the usual one.
pub proof fn law_silence_leaves_the_usual_settings(vars: Seq<(Seq<char>, Seq<char>)>)
    ensures
        is_silent(vars, "CODEX_SKYSIGHT_TESSERACT_PATH"@) && is_silent(vars, "CODEX_CHRONICLE_TESSERACT_PATH"@) ==> policy_of(vars).tesseract_executable == "tesseract"@,
        is_silent(vars, "CODEX_SKYSIGHT_RAPIDOCR_PYTHON"@) && is_silent(vars, "CODEX_CHRONICLE_RAPIDOCR_PYTHON"@) ==> policy_of(vars).rapidocr_python == "python3"@,
        is_silent(vars, "CODEX_SKYSIGHT_PADDLEOCR_PYTHON"@) && is_silent(vars, "CODEX_CHRONICLE_PADDLEOCR_PYTHON"@) ==> policy_of(vars).paddleocr_python == "python3"@,
        is_silent(vars, "CODEX_SKYSIGHT_OCR_LANG"@) ==> policy_of(vars).language == "eng"@,
        is_silent(vars, "CODEX_SKYSIGHT_RAPIDOCR_LANG"@) && is_silent(vars, "CODEX_CHRONICLE_RAPIDOCR_LANG"@) ==> policy_of(vars).rapidocr_language == "ch"@,
        is_silent(vars, "CODEX_SKYSIGHT_PADDLEOCR_LANG"@) && is_silent(vars, "CODEX_CHRONICLE_PADDLEOCR_LANG"@) ==> policy_of(vars).paddleocr_language == "en"@,
        is_silent(vars, "CODEX_SKYSIGHT_PADDLEOCR_DEVICE"@) && is_silent(vars, "CODEX_CHRONICLE_PADDLEOCR_DEVICE"@) ==> policy_of(vars).paddleocr_device == None::<Seq<char>>,
        is_silent(vars, "CODEX_SKYSIGHT_PADDLEOCR_ENGINE"@) && is_silent(vars, "CODEX_CHRONICLE_PADDLEOCR_ENGINE"@) ==> policy_of(vars).paddleocr_engine == None::<Seq<char>>,
        is_silent(vars, "CODEX_SKYSIGHT_PADDLEOCR_VERSION"@) && is_silent(vars, "CODEX_CHRONICLE_PADDLEOCR_VERSION"@) ==> policy_of(vars).paddleocr_version == None::<Seq<char>>,
        is_silent(vars, "CODEX_SKYSIGHT_OCR_PSM"@) ==> policy_of(vars).page_segmentation_mode == "11"@,
        is_silent(vars, "CODEX_SKYSIGHT_OCR"@) && is_silent(vars, "CODEX_CHRONICLE_OCR"@)
            ==> policy_of(vars).mode == OcrMode::Auto,
        is_silent(vars, "CODEX_SKYSIGHT_OCR_BACKEND"@) && is_silent(
            vars,
            "CODEX_CHRONICLE_OCR_BACKEND"@,
        ) ==> policy_of(vars).backend_preference == OcrBackendPreference::Auto,
        is_silent(vars, "CODEX_SKYSIGHT_OCR_TIMEOUT_MS"@) && is_silent(
            vars,
            "CODEX_CHRONICLE_OCR_TIMEOUT_MS"@,
        ) ==> policy_of(vars).timeout_ms == 10_000,
{
    if is_silent(vars, "CODEX_SKYSIGHT_TESSERACT_PATH"@) {
        lemma_silent(vars, "CODEX_SKYSIGHT_TESSERACT_PATH"@);
    }
    if is_silent(vars, "CODEX_SKYSIGHT_RAPIDOCR_PYTHON"@) {
        lemma_silent(vars, "CODEX_SKYSIGHT_RAPIDOCR_PYTHON"@);
    }
    if is_silent(vars, "CODEX_SKYSIGHT_PADDLEOCR_PYTHON"@) {
        lemma_silent(vars, "CODEX_SKYSIGHT_PADDLEOCR_PYTHON"@);
    }
    if is_silent(vars, "CODEX_SKYSIGHT_OCR_LANG"@) {
        lemma_silent(vars, "CODEX_SKYSIGHT_OCR_LANG"@);
    }
    if is_silent(vars, "CODEX_SKYSIGHT_RAPIDOCR_LANG"@) {
        lemma_silent(vars, "CODEX_SKYSIGHT_RAPIDOCR_LANG"@);
    }
    if is_silent(vars, "CODEX_SKYSIGHT_PADDLEOCR_LANG"@) {
        lemma_silent(vars, "CODEX_SKYSIGHT_PADDLEOCR_LANG"@);
    }
    if is_silent(vars, "CODEX_SKYSIGHT_PADDLEOCR_DEVICE"@) {
        lemma_silent(vars, "CODEX_SKYSIGHT_PADDLEOCR_DEVICE"@);
    }
    if is_silent(vars, "CODEX_SKYSIGHT_PADDLEOCR_ENGINE"@) {
        lemma_silent(vars, "CODEX_SKYSIGHT_PADDLEOCR_ENGINE"@);
    }
    if is_silent(vars, "CODEX_SKYSIGHT_PADDLEOCR_VERSION"@) {
        lemma_silent(vars, "CODEX_SKYSIGHT_PADDLEOCR_VERSION"@);
    }
    if is_silent(vars, "CODEX_SKYSIGHT_OCR_PSM"@) {
        lemma_silent(vars, "CODEX_SKYSIGHT_OCR_PSM"@);
    }
    if is_silent(vars, "CODEX_CHRONICLE_TESSERACT_PATH"@) {
        lemma_silent(vars, "CODEX_CHRONICLE_TESSERACT_PATH"@);
    }
    if is_silent(vars, "CODEX_CHRONICLE_RAPIDOCR_PYTHON"@) {
        lemma_silent(vars, "CODEX_CHRONICLE_RAPIDOCR_PYTHON"@);
    }
    if is_silent(vars, "CODEX_CHRONICLE_PADDLEOCR_PYTHON"@) {
        lemma_silent(vars, "CODEX_CHRONICLE_PADDLEOCR_PYTHON"@);
    }
    if is_silent(vars, "CODEX_CHRONICLE_RAPIDOCR_LANG"@) {
        lemma_silent(vars, "CODEX_CHRONICLE_RAPIDOCR_LANG"@);
    }
    if is_silent(vars, "CODEX_CHRONICLE_PADDLEOCR_LANG"@) {
        lemma_silent(vars, "CODEX_CHRONICLE_PADDLEOCR_LANG"@);
    }
    if is_silent(vars, "CODEX_CHRONICLE_PADDLEOCR_DEVICE"@) {
        lemma_silent(vars, "CODEX_CHRONICLE_PADDLEOCR_DEVICE"@);
    }
    if is_silent(vars, "CODEX_CHRONICLE_PADDLEOCR_ENGINE"@) {
        lemma_silent(vars, "CODEX_CHRONICLE_PADDLEOCR_ENGINE"@);
    }
    if is_silent(vars, "CODEX_CHRONICLE_PADDLEOCR_VERSION"@) {
        lemma_silent(vars, "CODEX_CHRONICLE_PADDLEOCR_VERSION"@);
    }
    if is_silent(vars, "CODEX_SKYSIGHT_OCR"@) {
        lemma_silent(vars, "CODEX_SKYSIGHT_OCR"@);
    }
    if is_silent(vars, "CODEX_CHRONICLE_OCR"@) {
        lemma_silent(vars, "CODEX_CHRONICLE_OCR"@);
    }
    if is_silent(vars, "CODEX_SKYSIGHT_OCR_BACKEND"@) {
        lemma_silent(vars, "CODEX_SKYSIGHT_OCR_BACKEND"@);
    }
    if is_silent(vars, "CODEX_CHRONICLE_OCR_BACKEND"@) {
        lemma_silent(vars, "CODEX_CHRONICLE_OCR_BACKEND"@);
    }
    if is_silent(vars, "CODEX_SKYSIGHT_OCR_TIMEOUT_MS"@) {
        lemma_silent(vars, "CODEX_SKYSIGHT_OCR_TIMEOUT_MS"@);
    }
    if is_silent(vars, "CODEX_CHRONICLE_OCR_TIMEOUT_MS"@) {
        lemma_silent(vars, "CODEX_CHRONICLE_OCR_TIMEOUT_MS"@);
    }
}

/// A mode is asked for by some words, whatever the case of their letters and the white space around
/// them, and any other word leaves it to the recorder.
pub proof fn law_mode_words(value: Seq<char>)
    ensures
        ({
            let word = text::lowered(text::trimmed(value));
            &&& mode_of(Some(value)) == OcrMode::Disabled <==> (word == "disabled"@ || word
                == "off"@ || word == "false"@ || word == "0"@)
            &&& mode_of(Some(value)) == OcrMode::Enabled <==> (word == "enabled"@ || word == "on"@
                || word == "true"@ || word == "1"@)
            &&& mode_of(Some(value)) == OcrMode::Required <==> (word == "required"@ || word
                == "require"@)
        }),
{
    reveal_strlit("disabled");
    reveal_strlit("off");
    reveal_strlit("false");
    reveal_strlit("0");
    reveal_strlit("enabled");
    reveal_strlit("on");
    reveal_strlit("true");
    reveal_strlit("1");
    reveal_strlit("required");
    reveal_strlit("require");
    assert("disabled"@[0] == 'd' && "off"@[0] == 'o' && "off"@.len() == 3 && "false"@[0] == 'f'
        && "0"@[0] == '0');
    assert("enabled"@[0] == 'e' && "on"@[0] == 'o' && "on"@.len() == 2 && "true"@[0] == 't'
        && "1"@[0] == '1');
    assert("required"@[0] == 'r' && "require"@[0] == 'r');
}

/// A backend is asked for by some words, whatever the case of their letters and the white space
/// around them, and any other word leaves the choice open.
pub proof fn law_backend_words(value: Seq<char>)
    ensures
        ({
            let word = text::lowered(text::trimmed(value));
            let asked = preference_of(Some(value));
            &&& asked == OcrBackendPreference::RapidOcr <==> (word == "rapidocr"@ || word
                == "rapidocr-python"@ || word == "rapid-ocr"@)
            &&& asked == OcrBackendPreference::PaddleOcr <==> (word == "paddleocr"@ || word
                == "paddleocr-python"@ || word == "paddle-ocr"@ || word == "paddle"@)
            &&& asked == OcrBackendPreference::Tesseract <==> (word == "tesseract"@ || word
                == "tesseract-cli"@)
        }),
{
    reveal_strlit("rapidocr");
    reveal_strlit("rapidocr-python");
    reveal_strlit("rapid-ocr");
    reveal_strlit("paddleocr");
    reveal_strlit("paddleocr-python");
    reveal_strlit("paddle-ocr");
    reveal_strlit("paddle");
    reveal_strlit("tesseract");
    reveal_strlit("tesseract-cli");
    assert("rapidocr"@[0] == 'r' && "rapidocr-python"@[0] == 'r' && "rapid-ocr"@[0] == 'r');
    assert("paddleocr"@[0] == 'p' && "paddleocr-python"@[0] == 'p' && "paddle-ocr"@[0] == 'p'
        && "paddle"@[0] == 'p');
    assert("tesseract"@[0] == 't' && "tesseract-cli"@[0] == 't');
}

/// A backend goes by one name as a preference and as a backend, and by another in messages.
pub proof fn law_backend_names()
    ensures
        name_of_backend(OcrBackend::RapidOcr) == preference_name(OcrBackendPreference::RapidOcr),
        name_of_backend(OcrBackend::PaddleOcr) == preference_name(OcrBackendPreference::PaddleOcr),
        name_of_backend(OcrBackend::Tesseract) == preference_name(OcrBackendPreference::Tesseract),
        name_of_backend(OcrBackend::RapidOcr) == "rapidocr-python"@,
        name_of_backend(OcrBackend::PaddleOcr) == "paddleocr-python"@,
        name_of_backend(OcrBackend::Tesseract) == "tesseract-cli"@,
        preference_name(OcrBackendPreference::Auto) == "auto"@,
        label_of_backend(OcrBackend::RapidOcr) == "RapidOCR"@,
        label_of_backend(OcrBackend::PaddleOcr) == "PaddleOCR"@,
        label_of_backend(OcrBackend::Tesseract) == "tesseract"@,
{
}

} // verus!
