use record_replay_ocr::command::CommandArg;
use record_replay_ocr::policy::{env_value, OcrBackend, OcrBackendPreference, OcrMode, OcrPolicy};
use record_replay_ocr::process::{
    is_timed_out, temp_dir_name, unique_nanos, wait_with_output_timeout, PollStep,
};
use record_replay_ocr::readiness::{
    auto_dependency_hint, paddleocr_dependency_hint, parse_paddleocr_gpu_device_request,
    rapidocr_dependency_hint, tesseract_dependency_hint, tesseract_version,
};
use record_replay_ocr::scripts::{
    PADDLEOCR_CHECK_SCRIPT, PADDLEOCR_RUN_SCRIPT, RAPIDOCR_CHECK_SCRIPT, RAPIDOCR_RUN_SCRIPT,
};

fn vars(pairs: &[(&str, &str)]) -> Vec<(String, String)> {
    pairs
        .iter()
        .map(|(name, value)| (name.to_string(), value.to_string()))
        .collect()
}

fn words(words: &str) -> CommandArg {
    CommandArg::Words(words.to_string())
}

#[test]
fn variables_are_trimmed_and_blank_ones_unset() {
    let vars = vars(&[("A", "  x y\t"), ("B", " \n"), ("A", "later")]);
    assert_eq!(env_value(&vars, "A").as_deref(), Some("x y"));
    assert_eq!(env_value(&vars, "B"), None);
    assert_eq!(env_value(&vars, "C"), None);
}

#[test]
fn modes_have_many_spellings() {
    for (spelling, mode) in [
        ("disabled", OcrMode::Disabled),
        ("OFF", OcrMode::Disabled),
        ("false", OcrMode::Disabled),
        ("0", OcrMode::Disabled),
        ("Enabled", OcrMode::Enabled),
        ("on", OcrMode::Enabled),
        ("true", OcrMode::Enabled),
        ("1", OcrMode::Enabled),
        (" required ", OcrMode::Required),
        ("require", OcrMode::Required),
        ("auto", OcrMode::Auto),
        ("whatever", OcrMode::Auto),
        (" ", OcrMode::Auto),
    ] {
        let policy = OcrPolicy::from_env(&vars(&[("CODEX_SKYSIGHT_OCR", spelling)]));
        assert_eq!(policy.mode, mode, "{spelling}");
        let again = OcrPolicy::from_env(&vars(&[("CODEX_CHRONICLE_OCR", policy.mode_name())]));
        assert_eq!(again.mode, mode);
    }
}

#[test]
fn backends_have_many_spellings() {
    for (spelling, preference, name) in [
        ("rapidocr", OcrBackendPreference::RapidOcr, "rapidocr-python"),
        ("Rapid-OCR", OcrBackendPreference::RapidOcr, "rapidocr-python"),
        ("rapidocr-python", OcrBackendPreference::RapidOcr, "rapidocr-python"),
        ("paddle", OcrBackendPreference::PaddleOcr, "paddleocr-python"),
        ("paddle-ocr", OcrBackendPreference::PaddleOcr, "paddleocr-python"),
        ("paddleocr-python", OcrBackendPreference::PaddleOcr, "paddleocr-python"),
        ("tesseract", OcrBackendPreference::Tesseract, "tesseract-cli"),
        ("tesseract-cli", OcrBackendPreference::Tesseract, "tesseract-cli"),
        ("eyes", OcrBackendPreference::Auto, "auto"),
    ] {
        let policy = OcrPolicy::from_env(&vars(&[("CODEX_CHRONICLE_OCR_BACKEND", spelling)]));
        assert_eq!(policy.backend_preference, preference, "{spelling}");
        assert_eq!(policy.backend_name(), name);
        let again = OcrPolicy::from_env(&vars(&[("CODEX_SKYSIGHT_OCR_BACKEND", name)]));
        assert_eq!(again.backend_preference, preference);
    }
}

#[test]
fn first_variable_wins_over_second() {
    let policy = OcrPolicy::from_env(&vars(&[
        ("CODEX_CHRONICLE_TESSERACT_PATH", "/second"),
        ("CODEX_SKYSIGHT_TESSERACT_PATH", "/first"),
        ("CODEX_SKYSIGHT_RAPIDOCR_PYTHON", "  "),
        ("CODEX_CHRONICLE_RAPIDOCR_PYTHON", "/second"),
        ("CODEX_SKYSIGHT_OCR_LANG", "deu"),
        ("CODEX_SKYSIGHT_OCR_PSM", "6"),
    ]));
    assert_eq!(policy.tesseract_executable, "/first");
    assert_eq!(policy.rapidocr_python, "/second");
    assert_eq!(policy.paddleocr_python, "python3");
    assert_eq!(policy.language, "deu");
    assert_eq!(policy.page_segmentation_mode, "6");
    assert_eq!(policy.clone(), policy);
}

#[test]
fn other_variables_do_not_matter() {
    let plain = OcrPolicy::from_env(&vars(&[("CODEX_SKYSIGHT_OCR", "required")]));
    let crowded = OcrPolicy::from_env(&vars(&[
        ("PATH", "/bin"),
        ("CODEX_SKYSIGHT_OCR_", "off"),
        ("CODEX_CHRONICLE_OCR_LANG", "deu"),
        ("CODEX_SKYSIGHT_OCR", "required"),
    ]));
    assert_eq!(plain, crowded);
}

#[test]
fn time_limits_are_positive() {
    for (value, expected) in [
        ("250", 250),
        ("0", 10_000),
        ("-5", 10_000),
        ("soon", 10_000),
        ("+7", 7),
        ("18446744073709551616", 10_000),
    ] {
        let policy = OcrPolicy::from_env(&vars(&[("CODEX_SKYSIGHT_OCR_TIMEOUT_MS", value)]));
        assert_eq!(policy.timeout_ms, expected, "{value}");
    }
}

#[test]
fn gpu_devices_are_parsed() {
    assert_eq!(parse_paddleocr_gpu_device_request("cpu"), None);
    assert_eq!(parse_paddleocr_gpu_device_request(" GPU "), Some(Ok(None)));
    assert_eq!(parse_paddleocr_gpu_device_request("gpu:3"), Some(Ok(Some(3))));
    for malformed in ["gpu:", "Gpu:-1", "gpu:x", "gpu: 1"] {
        assert_eq!(
            parse_paddleocr_gpu_device_request(malformed),
            Some(Err(format!("Malformed PaddleOCR GPU device `{malformed}`")))
        );
    }
}

#[test]
fn hints_tell_what_to_install() {
    assert!(rapidocr_dependency_hint().contains("`rapidocr` and `onnxruntime`"));
    assert!(paddleocr_dependency_hint().contains("CODEX_SKYSIGHT_PADDLEOCR_DEVICE=gpu:0"));
    assert_eq!(
        tesseract_dependency_hint("deu"),
        "Install tesseract and traineddata for language `deu`"
    );
    assert_eq!(
        auto_dependency_hint("deu"),
        format!(
            "{}; optional higher-quality backend: {}; fallback: {}",
            rapidocr_dependency_hint(),
            paddleocr_dependency_hint(),
            tesseract_dependency_hint("deu")
        )
    );
}

#[test]
fn version_is_first_line_trimmed() {
    assert_eq!(tesseract_version("tesseract 5.3.4 \r\nmore\n").as_deref(), Some("tesseract 5.3.4"));
    assert_eq!(tesseract_version("\nmore").as_deref(), Some(""));
    assert_eq!(tesseract_version(""), None);
}

#[test]
fn processes_are_watched_until_the_limit() {
    assert_eq!(wait_with_output_timeout(true, u128::MAX, 1), PollStep::Collect);
    assert_eq!(wait_with_output_timeout(false, 999_999, 1), PollStep::Sleep(10));
    assert_eq!(wait_with_output_timeout(false, 1_000_000, 1), PollStep::Stop);
    assert!(is_timed_out(0, 0));
    assert!(!is_timed_out(9_999_999_999, 10_000));
    assert!(is_timed_out(10_000_000_000, 10_000));
}

#[test]
fn directories_are_named_after_process_and_time() {
    assert_eq!(unique_nanos(Some((3, 5))), 3_000_000_005);
    assert_eq!(unique_nanos(None), 0);
    assert_eq!(temp_dir_name(42, 3_000_000_005), ".ocr-42-3000000005");
    assert_ne!(temp_dir_name(4, 23), temp_dir_name(42, 3));
}

#[test]
fn checks_run_the_right_programs() {
    let policy = OcrPolicy::from_env(&vars(&[
        ("CODEX_SKYSIGHT_RAPIDOCR_PYTHON", "/r"),
        ("CODEX_SKYSIGHT_PADDLEOCR_PYTHON", "/p"),
        ("CODEX_SKYSIGHT_TESSERACT_PATH", "/t"),
    ]));
    let check = policy.check_command(OcrBackend::RapidOcr);
    assert_eq!(check.program, "/r");
    assert_eq!(check.args, vec![words("-c"), words(RAPIDOCR_CHECK_SCRIPT), words("ch")]);
    assert_eq!(check.timeout_ms, Some(10_000));
    let check = policy.check_command(OcrBackend::PaddleOcr);
    assert_eq!(check.program, "/p");
    assert_eq!(check.args, vec![words("-c"), words(PADDLEOCR_CHECK_SCRIPT)]);
    assert_eq!(check.timeout_ms, Some(10_000));
    let check = policy.check_command(OcrBackend::Tesseract);
    assert_eq!(check.program, "/t");
    assert_eq!(check.args, vec![words("--version")]);
    assert_eq!(check.timeout_ms, None);
}

#[test]
fn runs_are_given_their_settings() {
    let policy = OcrPolicy::from_env(&vars(&[("CODEX_SKYSIGHT_PADDLEOCR_ENGINE", "paddle_static")]));
    let run = policy.run_command(OcrBackend::RapidOcr);
    assert_eq!(
        run.args,
        vec![words("-c"), words(RAPIDOCR_RUN_SCRIPT), words("ch"), CommandArg::FramePath]
    );
    let run = policy.run_command(OcrBackend::PaddleOcr);
    assert_eq!(
        run.args,
        vec![
            words("-c"),
            words(PADDLEOCR_RUN_SCRIPT),
            words("en"),
            words(""),
            words("paddle_static"),
            words(""),
            CommandArg::FramePath
        ]
    );
    let run = policy.run_command(OcrBackend::Tesseract);
    assert_eq!(
        run.args,
        vec![
            CommandArg::FramePath,
            CommandArg::OutputBase,
            words("-l"),
            words("eng"),
            words("--psm"),
            words("11"),
            words("tsv")
        ]
    );
    assert_eq!(run.timeout_ms, Some(10_000));
}
