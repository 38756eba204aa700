use record_replay_ocr::double::Real;
use record_replay_ocr::error::OcrError;
use record_replay_ocr::frame::{
    OcrFrameResult, MAX_OCR_CANDIDATE_TEXT_BYTES, MAX_OCR_NORMALIZED_TEXT_BYTES,
    MAX_OCR_OBSERVATIONS,
};
use record_replay_ocr::observation::{
    join_observations, Confidence, Fraction, NormalizedBoundingBox, OcrCandidate, OcrObservation,
    PixelBoundingBox,
};
use record_replay_ocr::policy::OcrPolicy;
use record_replay_ocr::readiness::OcrReadiness;
use record_replay_ocr::recognize::finish_frame;
use record_replay_ocr::record::{
    all_measures_match, measures_match, observation_value, Measures,
};
use serde_json::Value;

fn whole(part: f64) -> Fraction {
    Fraction::Ratio {
        part: Real::from_bits(part.to_bits()).unwrap(),
        whole: 1,
    }
}

fn observation(candidate: String, text: String) -> OcrObservation {
    OcrObservation {
        bounding_box: NormalizedBoundingBox {
            x: Fraction::Zero,
            y: Fraction::Zero,
            width: whole(1.0),
            height: whole(1.0),
            coordinate_space: "vision-normalized-bottom-left",
        },
        pixel_bounding_box: PixelBoundingBox {
            x: 0,
            y: 0,
            width: 1,
            height: 1,
            coordinate_space: "pixel-top-left",
        },
        top_candidates: vec![OcrCandidate {
            text: candidate,
            confidence: Confidence::Score(Real::from_bits(0.9f64.to_bits()).unwrap()),
        }],
        normalized_text: text,
    }
}

fn frame(texts: &[&str]) -> OcrFrameResult {
    let observations: Vec<OcrObservation> = texts
        .iter()
        .map(|text| observation(text.to_string(), text.to_string()))
        .collect();
    OcrFrameResult {
        runs_ocr: true,
        status: "completed".to_string(),
        backend: "tesseract-cli".to_string(),
        language: "eng".to_string(),
        backend_version: None,
        normalized_text: join_observations(&observations),
        dependency_hint: None,
        error: None,
        duration_ms: 1,
        truncated: false,
        suppressed_text_observation_count: 0,
        observations,
    }
}

fn readiness() -> OcrReadiness {
    OcrReadiness {
        enabled: true,
        available: true,
        backend: "tesseract-cli".to_string(),
        status: "available".to_string(),
        language: "eng".to_string(),
        version: Some("tesseract 5.3.4".to_string()),
        dependency_hint: Some("a hint".to_string()),
        error: None,
    }
}

fn place(fraction: &Fraction) -> Value {
    Value::from(f64::from_bits(fraction.value().unwrap().to_bits()))
}

fn measures_of(seen: &OcrObservation) -> Measures {
    Measures {
        x: place(&seen.bounding_box.x),
        y: place(&seen.bounding_box.y),
        width: place(&seen.bounding_box.width),
        height: place(&seen.bounding_box.height),
        confidences: seen.top_candidates.iter().map(|_| Value::from(0.9)).collect(),
        readings: seen.top_candidates.iter().map(|_| Vec::new()).collect(),
    }
}

fn measures(frame: &OcrFrameResult) -> Vec<Measures> {
    frame.observations.iter().map(measures_of).collect()
}

fn line(frame: &OcrFrameResult) -> Value {
    frame.to_json_line("2026-01-02T03:04:05Z", 7, "/frames/7.jpg", "/latest.jpg", ":0", &measures(frame))
}

#[test]
fn text_matching_exclusion_suppresses_output() {
    let mut result = frame(&["bank.example account"]);

    result.apply_text_exclusions(&["bank.example".to_string()]);

    assert_eq!(result.status, "suppressed_by_exclusion_text");
    assert_eq!(result.normalized_text, "");
    assert!(result.observations.is_empty());
    assert_eq!(result.suppressed_text_observation_count, 1);
}

#[test]
fn persistence_limits_bound_ocr_text_and_observations() {
    let mut result = OcrFrameResult {
        runs_ocr: true,
        status: "completed".to_string(),
        backend: "tesseract-cli".to_string(),
        language: "eng".to_string(),
        backend_version: None,
        normalized_text: String::new(),
        dependency_hint: None,
        error: None,
        duration_ms: 1,
        truncated: false,
        suppressed_text_observation_count: 0,
        observations: (0..(MAX_OCR_OBSERVATIONS + 5))
            .map(|index| {
                observation(
                    format!("{index}-{}", "x".repeat(MAX_OCR_CANDIDATE_TEXT_BYTES + 20)),
                    format!("{index}-{}", "y".repeat(MAX_OCR_CANDIDATE_TEXT_BYTES + 20)),
                )
            })
            .collect(),
    };

    result.apply_persistence_limits();

    assert!(result.truncated);
    assert_eq!(result.observations.len(), MAX_OCR_OBSERVATIONS);
    assert!(result.normalized_text.len() <= MAX_OCR_NORMALIZED_TEXT_BYTES);
    assert!(result
        .observations
        .iter()
        .all(|observation| observation.normalized_text.len() <= MAX_OCR_CANDIDATE_TEXT_BYTES));
    assert!(result.observations.iter().all(|observation| observation
        .top_candidates
        .iter()
        .all(|candidate| candidate.text.len() <= MAX_OCR_CANDIDATE_TEXT_BYTES)));
}

#[test]
fn limits_are_the_documented_ones() {
    assert_eq!(MAX_OCR_OBSERVATIONS, 200);
    assert_eq!(MAX_OCR_NORMALIZED_TEXT_BYTES, 32768);
    assert_eq!(MAX_OCR_CANDIDATE_TEXT_BYTES, 512);
}

#[test]
fn frames_within_the_limits_stay_as_they_are() {
    let mut result = frame(&["one", "two"]);
    result.apply_persistence_limits();
    assert_eq!(result, frame(&["one", "two"]));
}

#[test]
fn limits_applied_twice_change_nothing_more() {
    let long = "é".repeat(400);
    let mut once = frame(&[&long, "short"]);
    once.apply_persistence_limits();
    assert!(once.truncated);
    assert_eq!(once.observations[0].normalized_text, "é".repeat(256));
    assert_eq!(once.normalized_text, format!("{}\nshort", "é".repeat(256)));
    let mut twice = frame(&[&long, "short"]);
    twice.apply_persistence_limits();
    twice.apply_persistence_limits();
    assert_eq!(once, twice);
}

#[test]
fn text_of_a_frame_without_observations_is_cut_too() {
    let mut result = frame(&[]);
    result.normalized_text = "z".repeat(MAX_OCR_NORMALIZED_TEXT_BYTES + 1);
    result.apply_persistence_limits();
    assert_eq!(result.normalized_text.len(), MAX_OCR_NORMALIZED_TEXT_BYTES);
    assert!(result.truncated);
}

#[test]
fn exclusions_ignore_case_and_blank_values() {
    let mut result = frame(&["My Bank.Example page"]);
    result.apply_text_exclusions(&["  ".to_string(), "other".to_string()]);
    assert_eq!(result, frame(&["My Bank.Example page"]));
    result.apply_text_exclusions(&["other".to_string(), "BANK.example".to_string()]);
    assert_eq!(result.status, "suppressed_by_exclusion_text");
    let suppressed = line(&result);
    assert_eq!(suppressed["normalized_text"], Value::from(""));
    assert_eq!(suppressed["observations"], Value::from(Vec::<Value>::new()));
    assert_eq!(suppressed["suppressed_text_observation_count"], Value::from(1u64));
}

#[test]
fn excluded_values_are_matched_as_they_stand() {
    let mut result = frame(&["a secret"]);
    result.apply_text_exclusions(&["secret ".to_string()]);
    assert_eq!(result.status, "completed");
    result.apply_text_exclusions(&[" secret".to_string()]);
    assert_eq!(result.status, "suppressed_by_exclusion_text");
}

#[test]
fn finished_frames_hold_no_excluded_value() {
    let policy = OcrPolicy::from_env(&Vec::new());
    let values = vec!["hidden".to_string()];
    let kept = finish_frame(&policy, &readiness(), Ok(frame(&["plain"])), 0, 0, &values);
    assert_eq!(kept.normalized_text, "plain");
    assert_eq!(kept.backend_version.as_deref(), Some("tesseract 5.3.4"));
    let late = format!("{} HIDDEN", "p".repeat(600));
    let kept = finish_frame(&policy, &readiness(), Ok(frame(&["plain", &late])), 0, 0, &values);
    assert_eq!(kept.normalized_text, "");
    assert_eq!(kept.suppressed_text_observation_count, 2);
    assert!(!kept.truncated);
}

#[test]
fn cutting_may_bring_lines_together() {
    let policy = OcrPolicy::from_env(&Vec::new());
    let long = format!("{}ab", "p".repeat(511));
    let values = vec!["a\nnext".to_string()];
    let kept = finish_frame(&policy, &readiness(), Ok(frame(&[&long, "next"])), 0, 0, &values);
    assert!(kept.normalized_text.contains("a\nnext"));
}

#[test]
fn failures_tell_timeouts_from_errors() {
    let policy = OcrPolicy::from_env(&Vec::new());
    let failed = finish_frame(
        &policy,
        &readiness(),
        Err(OcrError::TimedOut(10_000)),
        10_000_000_000,
        10_001,
        &[],
    );
    assert_eq!(failed.status, "timeout");
    assert_eq!(failed.duration_ms, 10_001);
    assert_eq!(failed.error.as_deref(), Some("OCR process timed out after 10000 ms"));
    assert_eq!(failed.dependency_hint, None);
    let failed = finish_frame(
        &policy,
        &readiness(),
        Err(OcrError::MissingBoxes),
        9_999_999_999,
        9_999,
        &[],
    );
    assert_eq!(failed.status, "error");
    assert!(failed.runs_ocr);
    assert!(failed.observations.is_empty() && failed.normalized_text.is_empty());
}

#[test]
fn skipped_and_required_frames_repeat_the_readiness() {
    let mut missing = readiness();
    missing.available = false;
    missing.status = "backend_unavailable".to_string();
    let skipped = OcrFrameResult::skipped(&missing);
    assert_eq!(skipped.status, "backend_unavailable");
    assert_eq!(skipped.dependency_hint.as_deref(), Some("a hint"));
    assert_eq!(skipped.error, None);
    let required = OcrFrameResult::required_unavailable(&missing);
    assert_eq!(required.status, "required_backend_unavailable");
    assert_eq!(required.error.as_deref(), Some("required OCR backend is unavailable"));
    missing.error = Some("not installed".to_string());
    let required = OcrFrameResult::required_unavailable(&missing);
    assert_eq!(required.error.as_deref(), Some("not installed"));
    let failed = OcrFrameResult::failure(&missing, "error", 5, "broken".to_string());
    assert_eq!(failed.error.as_deref(), Some("broken"));
    assert_eq!(failed.backend_version.as_deref(), Some("tesseract 5.3.4"));
}

#[test]
fn lines_hold_every_member() {
    let mut result = frame(&["één"]);
    result.duration_ms = u64::MAX as u128;
    let value = line(&result);
    let members: Vec<&str> = value.as_object().unwrap().keys().map(String::as_str).collect();
    let mut expected = vec![
        "schema_version",
        "captured_at",
        "frame_index",
        "persisted_frame_path",
        "latest_frame_path",
        "display_id",
        "normalized_text",
        "normalized_text_bytes",
        "runs_ocr",
        "ocr_status",
        "ocr_backend",
        "language",
        "duration_ms",
        "truncated",
        "observations",
    ];
    expected.sort();
    assert_eq!(members, expected);
    assert_eq!(value["schema_version"], Value::from(1));
    assert_eq!(value["captured_at"], Value::from("2026-01-02T03:04:05Z"));
    assert_eq!(value["frame_index"], Value::from(7));
    assert_eq!(value["persisted_frame_path"], Value::from("/frames/7.jpg"));
    assert_eq!(value["latest_frame_path"], Value::from("/latest.jpg"));
    assert_eq!(value["display_id"], Value::from(":0"));
    assert_eq!(value["normalized_text"], Value::from("één"));
    assert_eq!(value["normalized_text_bytes"], Value::from(5));
    assert_eq!(value["runs_ocr"], Value::from(true));
    assert_eq!(value["ocr_status"], Value::from("completed"));
    assert_eq!(value["ocr_backend"], Value::from("tesseract-cli"));
    assert_eq!(value["language"], Value::from("eng"));
    assert_eq!(value["duration_ms"], Value::from(u64::MAX));
    assert_eq!(value["truncated"], Value::from(false));
}

#[test]
fn lines_hold_optional_members_where_there_are_any() {
    let mut result = frame(&["x"]);
    result.backend_version = Some("v".to_string());
    result.dependency_hint = Some("h".to_string());
    result.error = Some("e".to_string());
    result.suppressed_text_observation_count = 3;
    let value = line(&result);
    assert_eq!(value["ocr_backend_version"], Value::from("v"));
    assert_eq!(value["dependency_hint"], Value::from("h"));
    assert_eq!(value["error"], Value::from("e"));
    assert_eq!(value["suppressed_text_observation_count"], Value::from(3));
}

#[test]
fn observations_are_written_with_their_places() {
    let mut result = frame(&["x"]);
    let three = Real::from_bits(3.0f64.to_bits()).unwrap();
    result.observations[0].bounding_box.y = Fraction::OneMinusRatio { part: three, whole: 4 };
    result.observations[0].bounding_box.height = Fraction::SpanRatio {
        from: Real::one(),
        to: three,
        whole: 4,
    };
    let value = observation_value(&result.observations[0], &measures(&result)[0]);
    assert_eq!(
        value.to_string(),
        "{\"boundingBox\":{\"coordinate_space\":\"vision-normalized-bottom-left\",\"height\":0.5,\
         \"width\":1.0,\"x\":0.0,\"y\":0.25},\"normalized_text\":\"x\",\
         \"pixelBoundingBox\":{\"coordinate_space\":\"pixel-top-left\",\"height\":1,\"width\":1,\
         \"x\":0,\"y\":0},\"topCandidates\":[{\"confidence\":0.9,\"text\":\"x\"}]}"
    );
    assert_eq!(line(&result)["observations"][0], value);
}

#[test]
fn measures_must_be_those_of_the_observation() {
    let seen = observation("x".to_string(), "x".to_string());
    assert!(measures_match(&measures_of(&seen), &seen));

    let mut wrong = measures_of(&seen);
    wrong.confidences = vec![Value::from(0.8)];
    assert!(!measures_match(&wrong, &seen));
    wrong.confidences = Vec::new();
    assert!(!measures_match(&wrong, &seen));

    let mut wrong = measures_of(&seen);
    wrong.readings = Vec::new();
    assert!(!measures_match(&wrong, &seen));

    let mut wrong = measures_of(&seen);
    wrong.x = Value::from(0.25);
    assert!(!measures_match(&wrong, &seen));
    wrong.x = Value::from(0u64);
    assert!(!measures_match(&wrong, &seen));
    wrong.x = Value::from("0.0");
    assert!(!measures_match(&wrong, &seen));

    let mut seen = observation("x".to_string(), "x".to_string());
    seen.bounding_box.width = Fraction::Ratio {
        part: Real::one(),
        whole: 0,
    };
    let measured = Measures {
        x: Value::from(0.0),
        y: Value::from(0.0),
        width: Value::from(0.0),
        height: Value::from(1.0),
        confidences: vec![Value::from(0.9)],
        readings: vec![Vec::new()],
    };
    assert!(!measures_match(&measured, &seen));
}

#[test]
fn mean_confidences_come_from_their_fields() {
    let mut seen = observation("x".to_string(), "x".to_string());
    seen.top_candidates[0].confidence =
        Confidence::Mean(vec!["95".to_string(), "91".to_string()]);
    let mut measured = measures_of(&seen);
    measured.readings = vec![vec![Some(95.0f64.to_bits()), Some(91.0f64.to_bits())]];
    measured.confidences = vec![Value::from((0.95 + 0.91) / 2.0)];
    assert!(measures_match(&measured, &seen));
    assert_eq!(
        observation_value(&seen, &measured)["topCandidates"][0]["confidence"],
        Value::from((0.95 + 0.91) / 2.0)
    );
    measured.confidences = vec![Value::from(0.95)];
    assert!(!measures_match(&measured, &seen));
    measured.readings = vec![vec![Some(95.0f64.to_bits())]];
    assert!(!measures_match(&measured, &seen));
    seen.top_candidates[0].confidence = Confidence::Mean(Vec::new());
    measured.readings = vec![Vec::new()];
    assert!(!measures_match(&measured, &seen));
    measured.confidences = vec![Value::from(0.0)];
    assert!(measures_match(&measured, &seen));
}

#[test]
fn lines_are_refused_with_other_measures() {
    let mut result = frame(&["x", "y"]);
    let measured = measures(&result);
    let checked = |result: &OcrFrameResult, measured: &Vec<Measures>| {
        result.checked_json_line("now", 7, "/p", "/l", ":0", measured)
    };
    assert!(all_measures_match(&measured, &result.observations));
    assert_eq!(
        checked(&result, &measured),
        Some(result.to_json_line("now", 7, "/p", "/l", ":0", &measured))
    );
    let mut fewer = measures(&result);
    fewer.pop();
    assert!(!all_measures_match(&fewer, &result.observations));
    assert_eq!(checked(&result, &fewer), None);
    result.duration_ms = u64::MAX as u128 + 1;
    assert_eq!(checked(&result, &measured), None);
}
