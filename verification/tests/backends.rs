use record_replay_ocr::error::OcrError;
use record_replay_ocr::observation::Confidence;
use record_replay_ocr::payload::{parse_paddleocr_json_line, parse_rapidocr_json_line};
use record_replay_ocr::policy::{OcrBackend, OcrBackendPreference, OcrMode, OcrPolicy};
use record_replay_ocr::process::ProcessOutput;
use record_replay_ocr::readiness::{
    CheckOutcome, OcrReadiness, PaddleOcrVersions, RapidOcrVersions, RunOutcome,
};
use record_replay_ocr::recognize::{
    finish_frame, recognize_frame_paddleocr, recognize_frame_rapidocr, recognize_frame_tesseract,
    recognize_frame_with_readiness, RecognitionStep,
};
use record_replay_ocr::scripts::RAPIDOCR_RUN_SCRIPT;
use record_replay_ocr::selection::{ProbedBackends, ReadinessStep};
use record_replay_ocr::tsv::rows_are_complete;
use serde_json::Value;

fn vars(pairs: &[(&str, &str)]) -> Vec<(String, String)> {
    pairs
        .iter()
        .map(|(name, value)| (name.to_string(), value.to_string()))
        .collect()
}

fn output(stdout: &str) -> ProcessOutput {
    ProcessOutput {
        success: true,
        status: "exit status: 0".to_string(),
        stdout: stdout.as_bytes().to_vec(),
    }
}

fn text_of(value: &Value, key: &str) -> Option<String> {
    value.get(key).and_then(Value::as_str).map(str::to_string)
}

fn rapidocr_check(stdout: &str) -> CheckOutcome<RapidOcrVersions> {
    CheckOutcome::Finished {
        success: true,
        status: "exit status: 0".to_string(),
        versions: parse_rapidocr_json_line(&output(stdout)).map(|value| RapidOcrVersions {
            rapidocr: text_of(&value, "rapidocr"),
            onnxruntime: text_of(&value, "onnxruntime"),
            lang_type: text_of(&value, "lang_type"),
            error: text_of(&value, "error"),
        }),
    }
}

fn paddleocr_check(stdout: &str) -> CheckOutcome<PaddleOcrVersions> {
    CheckOutcome::Finished {
        success: true,
        status: "exit status: 0".to_string(),
        versions: parse_paddleocr_json_line(&output(stdout)).map(|value| PaddleOcrVersions {
            paddleocr: text_of(&value, "paddleocr"),
            paddle: text_of(&value, "paddle"),
            cuda_compiled: value.get("cuda_compiled").and_then(Value::as_bool),
            cuda_device_count: value.get("cuda_device_count").and_then(Value::as_i64),
            paddle_error: text_of(&value, "paddle_error"),
            error: text_of(&value, "error"),
        }),
    }
}

fn missing(what: &str) -> String {
    format!("No such file or directory: {what}")
}

/// Probes the backends as the policy asks and returns its answer, with the backends it asked for.
fn answer(
    policy: &OcrPolicy,
    rapidocr: CheckOutcome<RapidOcrVersions>,
    paddleocr: CheckOutcome<PaddleOcrVersions>,
    tesseract: RunOutcome,
) -> (OcrReadiness, Vec<OcrBackend>) {
    let mut probed = ProbedBackends::new();
    let mut asked = Vec::new();
    loop {
        match policy.readiness(&probed) {
            ReadinessStep::Done(readiness) => return (readiness, asked),
            ReadinessStep::Probe(backend) => {
                asked.push(backend);
                match backend {
                    OcrBackend::RapidOcr => {
                        probed.rapidocr = Some(policy.rapidocr_readiness(&rapidocr))
                    }
                    OcrBackend::PaddleOcr => {
                        probed.paddleocr = Some(policy.paddleocr_readiness(&paddleocr))
                    }
                    OcrBackend::Tesseract => {
                        probed.tesseract = Some(policy.tesseract_readiness(&tesseract))
                    }
                }
            }
        }
    }
}

fn no_rapidocr() -> CheckOutcome<RapidOcrVersions> {
    CheckOutcome::Failed(missing("/definitely/missing/python-for-rapidocr"))
}

fn no_paddleocr() -> CheckOutcome<PaddleOcrVersions> {
    CheckOutcome::Failed(missing("/definitely/missing/python-for-paddleocr"))
}

fn no_tesseract() -> RunOutcome {
    RunOutcome::Failed(missing("/definitely/missing/tesseract"))
}

fn confidence(confidence: &Confidence) -> f64 {
    match confidence {
        Confidence::Score(score) => f64::from_bits(score.to_bits()),
        Confidence::Mean(fields) => {
            let sum: f64 = fields
                .iter()
                .map(|field| (field.parse::<f64>().unwrap() / 100.0).min(1.0))
                .sum();
            sum / fields.len() as f64
        }
    }
}

#[test]
fn policy_defaults_to_auto_backend_preference() {
    let policy = OcrPolicy::from_env(&vars(&[]));

    assert_eq!(policy.mode, OcrMode::Auto);
    assert_eq!(policy.backend_preference, OcrBackendPreference::Auto);
    assert_eq!(policy.backend_name(), "auto");
    assert_eq!(policy.language, "eng");
    assert_eq!(policy.rapidocr_language, "ch");
    assert_eq!(policy.paddleocr_language, "en");
    assert_eq!(policy.paddleocr_device, None);
    assert_eq!(policy.paddleocr_engine, None);
    assert_eq!(policy.paddleocr_version, None);
    assert_eq!(policy.page_segmentation_mode, "11");
    assert_eq!(policy.timeout_ms / 1000, 10);
}

#[test]
fn rapidocr_run_script_requires_language_and_image_path() {
    assert!(RAPIDOCR_RUN_SCRIPT.contains("len(sys.argv) != 3"));
    assert!(RAPIDOCR_RUN_SCRIPT.contains("expected rapidocr language and image path"));
    assert!(!RAPIDOCR_RUN_SCRIPT.contains("else sys.argv[1]"));
}

#[test]
fn paddleocr_backend_preference_reads_runtime_options() {
    let policy = OcrPolicy::from_env(&vars(&[
        ("CODEX_SKYSIGHT_OCR_BACKEND", "paddleocr"),
        ("CODEX_SKYSIGHT_PADDLEOCR_LANG", "pt"),
        ("CODEX_SKYSIGHT_PADDLEOCR_DEVICE", "gpu:0"),
        ("CODEX_SKYSIGHT_PADDLEOCR_ENGINE", "paddle_static"),
        ("CODEX_SKYSIGHT_PADDLEOCR_VERSION", "PP-OCRv5"),
    ]));

    assert_eq!(policy.backend_preference, OcrBackendPreference::PaddleOcr);
    assert_eq!(policy.backend_name(), "paddleocr-python");
    assert_eq!(policy.paddleocr_language, "pt");
    assert_eq!(policy.paddleocr_device.as_deref(), Some("gpu:0"));
    assert_eq!(policy.paddleocr_engine.as_deref(), Some("paddle_static"));
    assert_eq!(policy.paddleocr_version.as_deref(), Some("PP-OCRv5"));
}

#[test]
fn missing_backend_reports_unavailable_without_requiring_host_dependency() {
    let policy = OcrPolicy::from_env(&vars(&[
        ("CODEX_SKYSIGHT_OCR", "enabled"),
        ("CODEX_SKYSIGHT_OCR_BACKEND", "tesseract"),
        ("CODEX_SKYSIGHT_TESSERACT_PATH", "/definitely/missing/tesseract"),
    ]));
    let (readiness, asked) = answer(&policy, no_rapidocr(), no_paddleocr(), no_tesseract());

    assert_eq!(asked, vec![OcrBackend::Tesseract]);
    assert!(readiness.enabled);
    assert!(!readiness.available);
    assert_eq!(readiness.status, "backend_unavailable");
    assert!(readiness.dependency_hint.is_some());
}

#[test]
fn required_mode_marks_missing_backend_as_required_failure() {
    let policy = OcrPolicy::from_env(&vars(&[
        ("CODEX_SKYSIGHT_OCR", "required"),
        ("CODEX_SKYSIGHT_OCR_BACKEND", "tesseract"),
        ("CODEX_SKYSIGHT_TESSERACT_PATH", "/definitely/missing/tesseract"),
    ]));
    let (readiness, _) = answer(&policy, no_rapidocr(), no_paddleocr(), no_tesseract());
    let result = match recognize_frame_with_readiness(&policy, &readiness) {
        RecognitionStep::Done(result) => result,
        _ => panic!("a backend that is not there must not run"),
    };

    assert!(!result.runs_ocr);
    assert_eq!(result.status, "required_backend_unavailable");
    assert!(result.error.is_some());
    assert!(result.dependency_hint.is_some());
}

#[test]
fn fake_rapidocr_backend_parses_json_observations() {
    let policy = OcrPolicy::from_env(&vars(&[
        ("CODEX_SKYSIGHT_OCR", "enabled"),
        ("CODEX_SKYSIGHT_OCR_BACKEND", "rapidocr"),
        ("CODEX_SKYSIGHT_RAPIDOCR_PYTHON", "/tmp/fake-python"),
        ("CODEX_SKYSIGHT_RAPIDOCR_LANG", "en"),
    ]));
    let check = rapidocr_check(concat_lines(&[
        r#"__CODEX_RAPIDOCR_JSON__{"rapidocr":"3.9.1","onnxruntime":"1.22.0","lang_type":"en"}"#,
    ]).as_str());
    let (readiness, _) = answer(&policy, check, no_paddleocr(), no_tesseract());
    assert!(readiness.available);
    assert_eq!(readiness.backend, "rapidocr-python");
    assert_eq!(readiness.language, "en");
    assert!(readiness
        .version
        .as_deref()
        .is_some_and(|version| version.contains("rapidocr 3.9.1")));

    assert!(matches!(
        recognize_frame_with_readiness(&policy, &readiness),
        RecognitionStep::Run(OcrBackend::RapidOcr)
    ));
    let run = output(concat_lines(&[
        r#"__CODEX_RAPIDOCR_JSON__{"boxes":[[[10,20],[90,20],[90,40],[10,40]],[[10,60],[55,60],[55,74],[10,74]]],"txts":["Codex Rapid","OCR"],"scores":[0.97,0.91],"elapse":0.123,"lang_type":"en"}"#,
    ]).as_str());
    let recognized = recognize_frame_rapidocr(&policy, &run, 7, 200, 100);
    let result = finish_frame(&policy, &readiness, recognized, 7_000_000, 7, &[]);

    assert_eq!(result.status, "completed");
    assert!(result.runs_ocr);
    assert_eq!(result.backend, "rapidocr-python");
    assert_eq!(result.language, "en");
    assert_eq!(result.normalized_text, "Codex Rapid\nOCR");
    assert_eq!(result.observations.len(), 2);
    assert_eq!(result.observations[0].pixel_bounding_box.x, 10);
    assert_eq!(result.observations[0].pixel_bounding_box.y, 20);
    assert_eq!(result.observations[0].pixel_bounding_box.width, 80);
    assert_eq!(result.observations[0].pixel_bounding_box.height, 20);
    assert!(confidence(&result.observations[0].top_candidates[0].confidence) > 0.9);
}

fn concat_lines(lines: &[&str]) -> String {
    lines.iter().map(|line| format!("{line}\n")).collect()
}

#[test]
fn fake_paddleocr_backend_parses_json_observations() {
    let policy = OcrPolicy::from_env(&vars(&[
        ("CODEX_SKYSIGHT_OCR", "enabled"),
        ("CODEX_SKYSIGHT_OCR_BACKEND", "paddleocr"),
        ("CODEX_SKYSIGHT_PADDLEOCR_PYTHON", "/tmp/fake-python"),
        ("CODEX_SKYSIGHT_PADDLEOCR_LANG", "pt"),
        ("CODEX_SKYSIGHT_PADDLEOCR_DEVICE", "gpu:0"),
    ]));
    let check = paddleocr_check(concat_lines(&[
        r#"__CODEX_PADDLEOCR_JSON__{"paddleocr":"3.7.0","paddle":"3.0.0","cuda_compiled":true,"cuda_device_count":1}"#,
    ]).as_str());
    let (readiness, _) = answer(&policy, no_rapidocr(), check, no_tesseract());
    assert!(readiness.available);
    assert_eq!(readiness.backend, "paddleocr-python");
    assert_eq!(readiness.language, "pt");
    assert!(readiness
        .version
        .as_deref()
        .is_some_and(|version| version.contains("paddleocr 3.7.0")));

    assert!(matches!(
        recognize_frame_with_readiness(&policy, &readiness),
        RecognitionStep::Run(OcrBackend::PaddleOcr)
    ));
    let run = output(concat_lines(&[
        r#"__CODEX_PADDLEOCR_JSON__{"boxes":[[[12,18],[92,18],[92,38],[12,38]],[20,60,80,76]],"txts":["Codex Paddle","GPU"],"scores":[0.98,0.94],"lang":"pt","device":"gpu:0"}"#,
    ]).as_str());
    let recognized = recognize_frame_paddleocr(&policy, &run, 7, 200, 100);
    let result = finish_frame(&policy, &readiness, recognized, 7_000_000, 7, &[]);

    assert_eq!(result.status, "completed");
    assert!(result.runs_ocr);
    assert_eq!(result.backend, "paddleocr-python");
    assert_eq!(result.language, "pt");
    assert_eq!(result.normalized_text, "Codex Paddle\nGPU");
    assert_eq!(result.observations.len(), 2);
    assert_eq!(result.observations[0].pixel_bounding_box.x, 12);
    assert_eq!(result.observations[0].pixel_bounding_box.y, 18);
    assert_eq!(result.observations[0].pixel_bounding_box.width, 80);
    assert_eq!(result.observations[0].pixel_bounding_box.height, 20);
    assert_eq!(result.observations[1].pixel_bounding_box.x, 20);
    assert_eq!(result.observations[1].pixel_bounding_box.width, 60);
    assert!(confidence(&result.observations[0].top_candidates[0].confidence) > 0.9);
}

#[test]
fn paddleocr_readiness_rejects_paddle_runtime_errors() {
    let policy = OcrPolicy::from_env(&vars(&[
        ("CODEX_SKYSIGHT_OCR", "enabled"),
        ("CODEX_SKYSIGHT_OCR_BACKEND", "paddleocr"),
        ("CODEX_SKYSIGHT_PADDLEOCR_PYTHON", "/tmp/fake-python"),
    ]));
    let check = paddleocr_check(concat_lines(&[
        r#"__CODEX_PADDLEOCR_JSON__{"paddleocr":"3.7.0","paddle_error":"libcuda.so not found"}"#,
    ]).as_str());
    let (readiness, _) = answer(&policy, no_rapidocr(), check, no_tesseract());

    assert!(!readiness.available);
    assert_eq!(readiness.backend, "paddleocr-python");
    assert_eq!(readiness.status, "backend_unavailable");
    assert!(readiness.dependency_hint.is_some());
    assert!(readiness
        .error
        .as_deref()
        .is_some_and(|error| error.contains("Paddle runtime unavailable")));
}

fn auto_policy(device: Option<&str>) -> OcrPolicy {
    let mut pairs = vec![
        ("CODEX_SKYSIGHT_OCR", "enabled"),
        ("CODEX_SKYSIGHT_RAPIDOCR_PYTHON", "/definitely/missing/python-for-rapidocr"),
        ("CODEX_SKYSIGHT_PADDLEOCR_PYTHON", "/tmp/fake-python"),
        ("CODEX_SKYSIGHT_TESSERACT_PATH", "/tmp/fake-tesseract"),
    ];
    if let Some(device) = device {
        pairs.push(("CODEX_SKYSIGHT_PADDLEOCR_DEVICE", device));
    }
    OcrPolicy::from_env(&vars(&pairs))
}

#[test]
fn auto_backend_falls_back_when_requested_paddleocr_gpu_is_unavailable() {
    let policy = auto_policy(Some("gpu:0"));
    let check = paddleocr_check(
        "__CODEX_PADDLEOCR_JSON__{\"paddleocr\":\"3.7.0\",\"paddle\":\"3.0.0\",\"cuda_compiled\":false,\"cuda_device_count\":0}\n",
    );
    let (readiness, asked) = answer(
        &policy,
        no_rapidocr(),
        check,
        RunOutcome::Finished(output("tesseract 5.3.4\n")),
    );

    assert_eq!(policy.backend_preference, OcrBackendPreference::Auto);
    assert!(readiness.available);
    assert_eq!(readiness.backend, "tesseract-cli");
    assert_eq!(
        asked,
        vec![OcrBackend::RapidOcr, OcrBackend::PaddleOcr, OcrBackend::Tesseract]
    );
}

#[test]
fn auto_backend_falls_back_when_requested_paddleocr_gpu_index_is_unavailable() {
    let policy = auto_policy(Some("gpu:1"));
    let check = paddleocr_check(
        "__CODEX_PADDLEOCR_JSON__{\"paddleocr\":\"3.7.0\",\"paddle\":\"3.0.0\",\"cuda_compiled\":true,\"cuda_device_count\":1}\n",
    );
    let (readiness, _) = answer(
        &policy,
        no_rapidocr(),
        check,
        RunOutcome::Finished(output("tesseract 5.3.4\n")),
    );

    assert_eq!(policy.backend_preference, OcrBackendPreference::Auto);
    assert!(readiness.available);
    assert_eq!(readiness.backend, "tesseract-cli");
}

#[test]
fn auto_backend_prefers_rapidocr_when_available() {
    let policy = OcrPolicy::from_env(&vars(&[
        ("CODEX_SKYSIGHT_OCR", "enabled"),
        ("CODEX_SKYSIGHT_RAPIDOCR_PYTHON", "/tmp/fake-python"),
    ]));
    let check = rapidocr_check(
        "__CODEX_RAPIDOCR_JSON__{\"rapidocr\":\"3.9.1\",\"onnxruntime\":\"1.22.0\"}\n",
    );
    let (readiness, asked) = answer(&policy, check, no_paddleocr(), no_tesseract());

    assert_eq!(policy.backend_preference, OcrBackendPreference::Auto);
    assert!(readiness.available);
    assert_eq!(readiness.backend, "rapidocr-python");
    assert_eq!(asked, vec![OcrBackend::RapidOcr]);
}

#[test]
fn auto_backend_uses_paddleocr_before_tesseract_when_rapidocr_is_unavailable() {
    let policy = auto_policy(None);
    let check = paddleocr_check(
        "__CODEX_PADDLEOCR_JSON__{\"paddleocr\":\"3.7.0\",\"paddle\":\"3.0.0\"}\n",
    );
    let (readiness, asked) = answer(&policy, no_rapidocr(), check, no_tesseract());

    assert_eq!(policy.backend_preference, OcrBackendPreference::Auto);
    assert!(readiness.available);
    assert_eq!(readiness.backend, "paddleocr-python");
    assert_eq!(asked, vec![OcrBackend::RapidOcr, OcrBackend::PaddleOcr]);
}

#[test]
fn fake_tesseract_tsv_groups_words_into_observations() {
    let policy = OcrPolicy::from_env(&vars(&[
        ("CODEX_SKYSIGHT_OCR", "enabled"),
        ("CODEX_SKYSIGHT_OCR_BACKEND", "tesseract"),
        ("CODEX_SKYSIGHT_TESSERACT_PATH", "/tmp/fake-tesseract"),
    ]));
    let (readiness, _) = answer(
        &policy,
        no_rapidocr(),
        no_paddleocr(),
        RunOutcome::Finished(output("tesseract 5.3.4\n")),
    );
    assert!(matches!(
        recognize_frame_with_readiness(&policy, &readiness),
        RecognitionStep::Run(OcrBackend::Tesseract)
    ));
    let tsv = "level\tpage_num\tblock_num\tpar_num\tline_num\tword_num\tleft\ttop\twidth\theight\tconf\ttext\n\
        5\t1\t1\t1\t1\t1\t10\t20\t40\t12\t95\tCodex\n\
        5\t1\t1\t1\t1\t2\t55\t20\t30\t12\t91\tOCR\n\
        5\t1\t1\t1\t2\t1\t10\t50\t35\t12\t80\tLocal\n";
    assert!(rows_are_complete(tsv));
    let recognized = recognize_frame_tesseract(&policy, tsv, 7, 200, 100);
    let result = finish_frame(&policy, &readiness, recognized, 7_000_000, 7, &[]);

    assert_eq!(result.status, "completed");
    assert!(result.runs_ocr);
    assert_eq!(result.normalized_text, "Codex OCR\nLocal");
    assert_eq!(result.observations.len(), 2);
    assert_eq!(result.observations[0].normalized_text, "Codex OCR");
    assert_eq!(result.observations[0].pixel_bounding_box.x, 10);
    assert_eq!(result.observations[0].pixel_bounding_box.width, 75);
    assert!(confidence(&result.observations[0].top_candidates[0].confidence) > 0.9);
    assert_eq!(result.backend_version.as_deref(), Some("tesseract 5.3.4"));
}

#[test]
fn unreadable_check_output_is_a_reason() {
    let policy = auto_policy(None);
    let check = rapidocr_check("no payload here\n");
    let readiness = policy.rapidocr_readiness(&check);
    assert!(!readiness.available);
    assert_eq!(
        readiness.error.as_deref(),
        Some("RapidOCR JSON payload was not found on stdout")
    );
    let unreadable: CheckOutcome<RapidOcrVersions> = CheckOutcome::Finished {
        success: true,
        status: "exit status: 0".to_string(),
        versions: Err(OcrError::VersionsUnreadable(OcrBackend::RapidOcr)),
    };
    assert_eq!(
        policy.rapidocr_readiness(&unreadable).error.as_deref(),
        Some("failed to parse RapidOCR version payload")
    );
}

#[test]
fn failed_checks_report_their_own_error_or_their_status() {
    let policy = auto_policy(None);
    let told: CheckOutcome<PaddleOcrVersions> = CheckOutcome::Finished {
        success: false,
        status: "exit status: 1".to_string(),
        versions: Ok(PaddleOcrVersions {
            paddleocr: None,
            paddle: None,
            cuda_compiled: None,
            cuda_device_count: None,
            paddle_error: None,
            error: Some("ModuleNotFoundError: paddleocr".to_string()),
        }),
    };
    assert_eq!(
        policy.paddleocr_readiness(&told).error.as_deref(),
        Some("ModuleNotFoundError: paddleocr")
    );
    let silent: CheckOutcome<PaddleOcrVersions> = CheckOutcome::Finished {
        success: false,
        status: "exit status: 1".to_string(),
        versions: Err(OcrError::PayloadNotFound(OcrBackend::PaddleOcr)),
    };
    assert_eq!(
        policy.paddleocr_readiness(&silent).error.as_deref(),
        Some("PaddleOCR check exited with exit status: 1")
    );
    let run = RunOutcome::Finished(ProcessOutput {
        success: false,
        status: "exit status: 2".to_string(),
        stdout: Vec::new(),
    });
    let readiness = policy.tesseract_readiness(&run);
    assert_eq!(
        readiness.error.as_deref(),
        Some("tesseract --version exited with exit status: 2")
    );
    assert_eq!(
        readiness.dependency_hint.as_deref(),
        Some("Install tesseract and traineddata for language `eng`")
    );
}

#[test]
fn versions_are_put_together() {
    let policy = auto_policy(Some("gpu"));
    let check = paddleocr_check(
        "__CODEX_PADDLEOCR_JSON__{\"paddle\":\"3.0.0\",\"cuda_compiled\":true,\"cuda_device_count\":2}\n",
    );
    let readiness = policy.paddleocr_readiness(&check);
    assert!(readiness.available);
    assert_eq!(
        readiness.version.as_deref(),
        Some("paddleocr unknown; paddle 3.0.0; cuda_compiled true; cuda_devices 2")
    );
    let check = rapidocr_check("__CODEX_RAPIDOCR_JSON__{\"rapidocr\":\"3.9.1\"}\n");
    let readiness = policy.rapidocr_readiness(&check);
    assert_eq!(readiness.language, "ch");
    assert_eq!(
        readiness.version.as_deref(),
        Some("rapidocr 3.9.1; onnxruntime unknown")
    );
}

#[test]
fn gpu_refusals_name_the_device() {
    let cpu_only =
        "__CODEX_PADDLEOCR_JSON__{\"cuda_compiled\":false,\"cuda_device_count\":0}\n";
    let one_gpu = "__CODEX_PADDLEOCR_JSON__{\"cuda_compiled\":true,\"cuda_device_count\":1}\n";
    assert_eq!(
        auto_policy(Some("gpu:0"))
            .paddleocr_readiness(&paddleocr_check(cpu_only))
            .error
            .as_deref(),
        Some("PaddleOCR GPU device gpu:0 requested but CUDA readiness is unavailable")
    );
    assert_eq!(
        auto_policy(Some("GPU:1"))
            .paddleocr_readiness(&paddleocr_check(one_gpu))
            .error
            .as_deref(),
        Some("PaddleOCR GPU device gpu:1 requested but only 1 CUDA device(s) are available")
    );
    assert_eq!(
        auto_policy(Some("GPU:x"))
            .paddleocr_readiness(&paddleocr_check(one_gpu))
            .error
            .as_deref(),
        Some("Malformed PaddleOCR GPU device `GPU:x`")
    );
    assert!(
        auto_policy(Some("cpu"))
            .paddleocr_readiness(&paddleocr_check(cpu_only))
            .available
    );
}

#[test]
fn none_ready_names_every_reason() {
    let policy = auto_policy(None);
    let (readiness, asked) = answer(
        &policy,
        CheckOutcome::Failed("a".to_string()),
        CheckOutcome::Failed("b".to_string()),
        RunOutcome::Failed("c".to_string()),
    );
    assert_eq!(asked.len(), 3);
    assert!(!readiness.available);
    assert_eq!(readiness.backend, "auto");
    assert_eq!(
        readiness.error.as_deref(),
        Some("RapidOCR unavailable: a; PaddleOCR unavailable: b; Tesseract unavailable: c")
    );
    assert!(readiness
        .dependency_hint
        .as_deref()
        .is_some_and(|hint| hint.contains("; fallback: Install tesseract")));
}

#[test]
fn disabled_policy_probes_nothing() {
    let policy = OcrPolicy::from_env(&vars(&[("CODEX_SKYSIGHT_OCR", "off")]));
    let (readiness, asked) = answer(&policy, no_rapidocr(), no_paddleocr(), no_tesseract());
    assert!(asked.is_empty());
    assert!(!readiness.enabled);
    assert_eq!(readiness.status, "disabled");
    match recognize_frame_with_readiness(&policy, &readiness) {
        RecognitionStep::Done(frame) => {
            assert!(!frame.runs_ocr);
            assert_eq!(frame.status, "disabled");
        }
        _ => panic!("nothing runs while recognition is switched off"),
    }
}

#[test]
fn every_readiness_can_be_acted_on() {
    let policy = auto_policy(None);
    let (readiness, _) = answer(
        &policy,
        no_rapidocr(),
        no_paddleocr(),
        RunOutcome::Finished(output("")),
    );
    assert!(readiness.available);
    assert_eq!(readiness.version, None);
    assert!(matches!(
        recognize_frame_with_readiness(&policy, &readiness),
        RecognitionStep::Run(OcrBackend::Tesseract)
    ));
    let mut strange = readiness.clone();
    strange.backend = "abacus".to_string();
    match recognize_frame_with_readiness(&policy, &strange) {
        RecognitionStep::Fail(error) => {
            assert_eq!(error.message(), "OCR backend `abacus` is not runnable")
        }
        _ => panic!("there is no such backend"),
    }
}
