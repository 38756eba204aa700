use record_replay_ocr::double::Real;
use record_replay_ocr::error::OcrError;
use record_replay_ocr::observation::{observation_from_rect, Confidence, Fraction};
use record_replay_ocr::payload::{
    observations_from_payload, observations_from_rapidocr_json, parse_paddleocr_json_line,
    parse_rapidocr_json_line, payload_line, rapidocr_box_bounds, read_payload, BoxValue,
    OcrPayload, PointValue, RAPIDOCR_JSON_PREFIX,
};
use record_replay_ocr::policy::{OcrBackend, OcrPolicy};
use record_replay_ocr::process::ProcessOutput;
use record_replay_ocr::recognize::{
    complete_frame, recognize_frame_paddleocr, recognize_frame_rapidocr, tesseract_exit,
    timeout_error,
};
use record_replay_ocr::tsv::{
    observation_from_words, observations_from_tsv, rows_are_complete, TsvWord,
};
use serde_json::Value;

fn number(x: f64) -> Real {
    Real::from_bits(x.to_bits()).unwrap()
}

fn back(x: Real) -> f64 {
    f64::from_bits(x.to_bits())
}

fn output(success: bool, stdout: &[u8]) -> ProcessOutput {
    ProcessOutput {
        success,
        status: "exit status: 3".to_string(),
        stdout: stdout.to_vec(),
    }
}

fn numbers(numbers: &[f64]) -> Value {
    Value::from(numbers.iter().map(|x| Value::from(*x)).collect::<Vec<_>>())
}

fn object(members: Vec<(&str, Value)>) -> Value {
    let mut map = serde_json::Map::new();
    for (key, value) in members {
        map.insert(key.to_string(), value);
    }
    Value::Object(map)
}

fn value_of(fraction: &Fraction) -> f64 {
    let value = back(fraction.value().unwrap());
    let expected = match fraction {
        Fraction::Zero => 0.0,
        Fraction::Ratio { part, whole } => back(*part) / *whole as f64,
        Fraction::OneMinusRatio { part, whole } => 1.0 - back(*part) / *whole as f64,
        Fraction::SpanRatio { from, to, whole } => (back(*to) - back(*from)) / *whole as f64,
    };
    assert_eq!(value.to_bits(), expected.to_bits());
    value
}

fn bounds(value: &BoxValue) -> Option<(f64, f64, f64, f64)> {
    rapidocr_box_bounds(value).map(|(x1, y1, x2, y2)| (back(x1), back(y1), back(x2), back(y2)))
}

fn corner(x: f64, y: f64) -> PointValue {
    PointValue::Array(vec![Some(number(x)), Some(number(y))])
}

#[test]
fn rapidocr_zero_area_boxes_stay_zero_area_pixels() {
    let payload = object(vec![
        (
            "boxes",
            Value::from(vec![Value::from(vec![
                numbers(&[10.0, 20.0]),
                numbers(&[10.0, 20.0]),
                numbers(&[10.0, 20.0]),
                numbers(&[10.0, 20.0]),
            ])]),
        ),
        ("txts", Value::from(vec![Value::from("dot")])),
        ("scores", numbers(&[0.8])),
    ]);

    let observations = observations_from_rapidocr_json(&payload, 100, 50).unwrap();

    assert_eq!(observations.len(), 1);
    assert_eq!(observations[0].pixel_bounding_box.x, 10);
    assert_eq!(observations[0].pixel_bounding_box.y, 20);
    assert_eq!(observations[0].pixel_bounding_box.width, 0);
    assert_eq!(observations[0].pixel_bounding_box.height, 0);
}

#[test]
fn payload_is_in_last_line_with_prefix() {
    let stdout = "noise\nP{1}\r\nP{2}\nnoise P{3}\n";
    assert_eq!(payload_line(stdout, "P").as_deref(), Some("{2}"));
    assert_eq!(payload_line("", "P"), None);
    assert_eq!(payload_line(" P", "P"), None);
}

#[test]
fn documents_come_from_the_output() {
    let line = format!("{RAPIDOCR_JSON_PREFIX}{{\"a\": [1, -2.5, \"x\"]}}\n");
    let value = parse_rapidocr_json_line(&output(true, line.as_bytes())).unwrap();
    assert_eq!(value["a"][1].as_f64(), Some(-2.5));
    assert_eq!(
        parse_rapidocr_json_line(&output(true, b"nothing")),
        Err(OcrError::PayloadNotFound(OcrBackend::RapidOcr))
    );
    assert_eq!(
        parse_paddleocr_json_line(&output(true, b"__CODEX_PADDLEOCR_JSON__{")),
        Err(OcrError::PayloadUnreadable(OcrBackend::PaddleOcr))
    );
    assert_eq!(
        parse_paddleocr_json_line(&output(true, line.as_bytes())),
        Err(OcrError::PayloadNotFound(OcrBackend::PaddleOcr))
    );
}

#[test]
fn broken_bytes_do_not_hide_the_payload() {
    let mut stdout = vec![0xff, 0xfe, b'\n'];
    stdout.extend_from_slice(b"__CODEX_RAPIDOCR_JSON__\"caf\xe9\"\n");
    let value = parse_rapidocr_json_line(&output(true, &stdout)).unwrap();
    assert_eq!(value.as_str(), Some("caf\u{fffd}"));
}

#[test]
fn flat_boxes_are_two_corners_in_any_order() {
    let flat = |x: [f64; 4]| {
        BoxValue::Array(x.iter().map(|x| PointValue::Number(number(*x))).collect())
    };
    assert_eq!(bounds(&flat([80.0, 60.0, 20.0, 76.0])), Some((20.0, 60.0, 80.0, 76.0)));
    let three = BoxValue::Array(vec![
        PointValue::Number(number(1.0)),
        PointValue::Number(number(2.0)),
        PointValue::Number(number(3.0)),
    ]);
    assert_eq!(bounds(&three), None);
    assert_eq!(bounds(&BoxValue::Array(vec![])), None);
    assert_eq!(bounds(&BoxValue::Other), None);
}

#[test]
fn boxes_span_their_corners() {
    let tilted = BoxValue::Array(vec![
        corner(12.0, 18.5),
        corner(92.0, 16.0),
        corner(93.5, 38.0),
        corner(-4.0, 40.0),
    ]);
    assert_eq!(bounds(&tilted), Some((-4.0, 16.0, 93.5, 40.0)));
    let broken = BoxValue::Array(vec![corner(1.0, 2.0), PointValue::Array(vec![Some(number(1.0))])]);
    assert_eq!(bounds(&broken), None);
    let mixed = BoxValue::Array(vec![corner(1.0, 2.0), PointValue::Number(number(3.0))]);
    assert_eq!(bounds(&mixed), None);
    let nameless = BoxValue::Array(vec![PointValue::Array(vec![None, Some(number(1.0))])]);
    assert_eq!(bounds(&nameless), None);
}

#[test]
fn payloads_are_read_as_they_stand() {
    let value = object(vec![
        (
            "boxes",
            Value::from(vec![
                numbers(&[1.0, 2.0]),
                Value::from("no box"),
                Value::from(vec![Value::from(vec![Value::from(3u64), Value::Null])]),
            ]),
        ),
        ("txts", Value::from(vec![Value::from("a"), Value::Null])),
        ("scores", Value::from(7u64)),
    ]);
    assert_eq!(
        read_payload(&value),
        OcrPayload {
            boxes: Some(vec![
                BoxValue::Array(vec![
                    PointValue::Number(number(1.0)),
                    PointValue::Number(number(2.0))
                ]),
                BoxValue::Other,
                BoxValue::Array(vec![PointValue::Array(vec![Some(number(3.0)), None])]),
            ]),
            txts: Some(vec![Some("a".to_string()), None]),
            scores: None,
        }
    );
    let large = object(vec![(
        "scores",
        Value::from(vec![
            Value::from(u64::MAX),
            Value::from(i64::MIN),
            Value::from(9007199254740993u64),
        ]),
    )]);
    assert_eq!(
        read_payload(&large).scores,
        Some(vec![
            Some(number(u64::MAX as f64)),
            Some(number(i64::MIN as f64)),
            Some(number(9007199254740993u64 as f64))
        ])
    );
    assert_eq!(
        read_payload(&Value::from("text")),
        OcrPayload { boxes: None, txts: None, scores: None }
    );
}

#[test]
fn payloads_need_boxes_and_texts() {
    let boxes = || Some(vec![BoxValue::Array(vec![corner(0.0, 0.0)])]);
    let without_boxes = OcrPayload { boxes: None, txts: None, scores: None };
    assert_eq!(
        observations_from_payload(&without_boxes, 10, 10),
        Err(OcrError::MissingBoxes)
    );
    let without_texts = OcrPayload { boxes: boxes(), txts: None, scores: None };
    assert_eq!(
        observations_from_payload(&without_texts, 10, 10),
        Err(OcrError::MissingTexts)
    );
    assert_eq!(OcrError::MissingBoxes.message(), "RapidOCR output missing boxes");
    assert_eq!(OcrError::MissingTexts.message(), "RapidOCR output missing txts");
}

#[test]
fn texts_without_place_or_letters_are_left_out() {
    let payload = OcrPayload {
        boxes: Some(vec![
            BoxValue::Array(vec![corner(1.0, 1.0), corner(5.0, 3.0)]),
            BoxValue::Other,
            BoxValue::Array(vec![corner(2.0, 2.0)]),
        ]),
        txts: Some(vec![
            Some("  kept \n".to_string()),
            Some("no rectangle".to_string()),
            Some("   ".to_string()),
            Some("no box".to_string()),
        ]),
        scores: Some(vec![Some(number(1.75))]),
    };
    let observations = observations_from_payload(&payload, 10, 10).unwrap();
    assert_eq!(observations.len(), 1);
    assert_eq!(observations[0].normalized_text, "kept");
    assert_eq!(observations[0].top_candidates[0].text, "kept");
    assert_eq!(
        observations[0].top_candidates[0].confidence,
        Confidence::Score(Real::one())
    );
}

#[test]
fn missing_scores_are_zero_and_others_are_clamped() {
    let payload = |scores: Option<Vec<Option<Real>>>| OcrPayload {
        boxes: Some(vec![BoxValue::Array(vec![corner(1.0, 1.0)])]),
        txts: Some(vec![Some("x".to_string())]),
        scores,
    };
    for (scores, expected) in [
        (None, 0.0),
        (Some(vec![]), 0.0),
        (Some(vec![None]), 0.0),
        (Some(vec![Some(number(-3.0))]), 0.0),
        (Some(vec![Some(number(0.25))]), 0.25),
        (Some(vec![Some(number(2.0))]), 1.0),
    ] {
        let observations = observations_from_payload(&payload(scores), 10, 10).unwrap();
        assert_eq!(
            observations[0].top_candidates[0].confidence,
            Confidence::Score(number(expected))
        );
    }
}

#[test]
fn rectangles_are_cut_to_the_frame() {
    let seen = observation_from_rect(
        number(-5.0),
        number(10.75),
        number(120.5),
        number(30.25),
        100,
        50,
        "wide",
        number(0.5),
    );
    let pixels = seen.pixel_bounding_box;
    assert_eq!((pixels.x, pixels.y, pixels.width, pixels.height), (0, 10, 100, 19));
    assert_eq!(pixels.coordinate_space, "pixel-top-left");
    assert_eq!(value_of(&seen.bounding_box.x), 0.0);
    assert_eq!(value_of(&seen.bounding_box.y), 1.0 - 30.25 / 50.0);
    assert_eq!(value_of(&seen.bounding_box.width), 1.0);
    assert_eq!(value_of(&seen.bounding_box.height), (30.25 - 10.75) / 50.0);
    assert_eq!(seen.bounding_box.coordinate_space, "vision-normalized-bottom-left");
    assert!(pixels.x + pixels.width <= 100 && pixels.y + pixels.height <= 50);
}

#[test]
fn fractions_need_a_side_and_numbers_that_are_not_negative() {
    let part = number(2.0);
    assert_eq!(Fraction::Ratio { part, whole: 0 }.value(), None);
    assert_eq!(Fraction::OneMinusRatio { part: number(-1.0), whole: 3 }.value(), None);
    assert_eq!(
        Fraction::SpanRatio { from: number(-1.0), to: part, whole: 3 }.value(),
        None
    );
    assert_eq!(value_of(&Fraction::Ratio { part, whole: 3 }), 2.0 / 3.0);
    assert_eq!(value_of(&Fraction::OneMinusRatio { part, whole: 1 }), -1.0);
    assert_eq!(
        value_of(&Fraction::SpanRatio { from: number(0.1), to: number(0.3), whole: 7 }),
        (0.3 - 0.1) / 7.0
    );
}

#[test]
fn frames_without_extent_set_no_limit() {
    let seen = observation_from_rect(
        number(7.5),
        number(-1.0),
        number(1e300),
        number(9.0),
        0,
        0,
        "far",
        number(0.5),
    );
    let pixels = seen.pixel_bounding_box;
    assert_eq!((pixels.x, pixels.y, pixels.width, pixels.height), (7, 0, u32::MAX, 9));
    assert_eq!(seen.bounding_box.x, Fraction::Zero);
    assert_eq!(seen.bounding_box.height, Fraction::Zero);
}

const HEADER: &str =
    "level\tpage_num\tblock_num\tpar_num\tline_num\tword_num\tleft\ttop\twidth\theight\tconf\ttext";

#[test]
fn tables_need_their_columns() {
    assert_eq!(observations_from_tsv("", 10, 10), Ok(vec![]));
    assert_eq!(observations_from_tsv(HEADER, 10, 10), Ok(vec![]));
    for name in [
        "level", "page_num", "block_num", "par_num", "line_num", "left", "top", "width", "height",
        "conf", "text",
    ] {
        let header: Vec<&str> = HEADER.split('\t').filter(|column| *column != name).collect();
        let error = OcrError::MissingColumn(name.to_string());
        assert_eq!(error.message(), format!("missing TSV column {name}"));
        assert_eq!(observations_from_tsv(&header.join("\t"), 10, 10), Err(error));
    }
    assert_eq!(
        observations_from_tsv("a\tb", 10, 10),
        Err(OcrError::MissingColumn("level".to_string()))
    );
}

#[test]
fn only_words_with_text_count() {
    let tsv = format!(
        "{HEADER}\n1\t1\t0\t0\t0\t0\t0\t0\t99\t99\t-1\tpage\n5\t1\t1\t1\t1\t1\t1\t2\t3\t4\t90\t  \n\
         5\t1\t1\t1\t1\t2\t1\t2\t3\t4\n5\t1\t1\t1\t1\t3\t5\t6\t7\t8\t90\t word \n"
    );
    assert!(rows_are_complete(&tsv));
    let observations = observations_from_tsv(&tsv, 100, 100).unwrap();
    assert_eq!(observations.len(), 1);
    assert_eq!(observations[0].normalized_text, "word");
    assert_eq!(
        observations[0].top_candidates[0].confidence,
        Confidence::Mean(vec!["90".to_string()])
    );
}

#[test]
fn rows_must_reach_every_column() {
    let tsv = "text\tlevel\tpage_num\tblock_num\tpar_num\tline_num\tleft\ttop\twidth\theight\tconf\nword\t5\t1\n";
    assert!(!rows_are_complete(tsv));
    assert!(rows_are_complete("text\tlevel\nword\t5"));
}

#[test]
fn lines_change_with_page_block_paragraph_or_line() {
    let row = |key: &str, text: &str| format!("5\t{key}\t1\t10\t20\t30\t40\t50\t{text}\n");
    let tsv = format!(
        "{HEADER}\n{}{}{}{}{}{}",
        row("1\t1\t1\t1", "a"),
        row("1\t1\t1\t1", "b"),
        row("1\t1\t1\t2", "c"),
        row("1\t1\t2\t2", "d"),
        row("1\t2\t2\t2", "e"),
        row("2\t2\t2\t2", "f"),
    );
    let observations = observations_from_tsv(&tsv, 100, 100).unwrap();
    let texts: Vec<&str> = observations
        .iter()
        .map(|seen| seen.normalized_text.as_str())
        .collect();
    assert_eq!(texts, vec!["a b", "c", "d", "e", "f"]);
}

fn word(left: u32, top: u32, width: u32, height: u32, text: &str) -> TsvWord {
    TsvWord {
        page: "1".to_string(),
        block: "1".to_string(),
        paragraph: "1".to_string(),
        line: "1".to_string(),
        left,
        top,
        width,
        height,
        confidence: "50".to_string(),
        text: text.to_string(),
    }
}

#[test]
fn lines_cover_their_words() {
    let seen = observation_from_words(
        &[word(55, 18, 30, 12, "OCR"), word(10, 20, 40, 12, "Codex")],
        200,
        100,
    );
    let pixels = seen.pixel_bounding_box;
    assert_eq!((pixels.x, pixels.y, pixels.width, pixels.height), (10, 18, 75, 14));
    assert_eq!(value_of(&seen.bounding_box.x), 10.0 / 200.0);
    assert_eq!(value_of(&seen.bounding_box.y), 1.0 - 32.0 / 100.0);
    assert_eq!(value_of(&seen.bounding_box.width), 75.0 / 200.0);
    assert_eq!(value_of(&seen.bounding_box.height), 14.0 / 100.0);
    assert_eq!(seen.normalized_text, "OCR Codex");
    let far = observation_from_words(&[word(u32::MAX, 1, 7, 1, "x")], 0, 0);
    assert_eq!(far.pixel_bounding_box.width, 0);
    assert_eq!(far.bounding_box.x, Fraction::Zero);
    let none = observation_from_words(&[], 10, 10);
    assert_eq!(none.normalized_text, "");
    assert_eq!(none.pixel_bounding_box.width, 0);
    assert_eq!(none.top_candidates[0].confidence, Confidence::Mean(vec![]));
}

#[test]
fn failed_runs_are_errors() {
    let policy = OcrPolicy::from_env(&Vec::new());
    let error = recognize_frame_rapidocr(&policy, &output(false, b""), 1, 10, 10).unwrap_err();
    assert_eq!(error.message(), "RapidOCR exited with exit status: 3");
    let error = recognize_frame_paddleocr(&policy, &output(false, b""), 1, 10, 10).unwrap_err();
    assert_eq!(error.message(), "PaddleOCR exited with exit status: 3");
    let error = recognize_frame_paddleocr(&policy, &output(true, b""), 1, 10, 10).unwrap_err();
    assert_eq!(error.message(), "PaddleOCR JSON payload was not found on stdout");
    let error = recognize_frame_rapidocr(
        &policy,
        &output(true, b"__CODEX_RAPIDOCR_JSON__{}"),
        1,
        10,
        10,
    )
    .unwrap_err();
    assert_eq!(error, OcrError::MissingBoxes);
    let error = recognize_frame_rapidocr(
        &policy,
        &output(true, b"__CODEX_RAPIDOCR_JSON__?"),
        1,
        10,
        10,
    )
    .unwrap_err();
    assert_eq!(error.message(), "failed to parse RapidOCR JSON payload");
    assert_eq!(tesseract_exit(true, &"exit status: 0".to_string()), Ok(()));
    assert_eq!(
        tesseract_exit(false, &"signal: 9 (SIGKILL)".to_string()).unwrap_err().message(),
        "tesseract exited with signal: 9 (SIGKILL)"
    );
    assert_eq!(
        timeout_error(OcrBackend::Tesseract, 250).message(),
        "tesseract timed out after 250 ms"
    );
    assert_eq!(
        timeout_error(OcrBackend::PaddleOcr, 10_000).message(),
        "OCR process timed out after 10000 ms"
    );
}

#[test]
fn other_errors_speak_for_themselves() {
    for (error, message) in [
        (OcrError::StartFailed("/t".to_string()), "failed to start /t"),
        (OcrError::ReadFailed("/f.tsv".to_string()), "failed to read /f.tsv"),
        (OcrError::CollectFailed, "failed to collect OCR output"),
        (
            OcrError::VersionsUnreadable(OcrBackend::PaddleOcr),
            "failed to parse PaddleOCR version payload",
        ),
        (OcrError::Other("broken pipe".to_string()), "broken pipe"),
    ] {
        assert_eq!(error.message(), message);
    }
}

#[test]
fn completed_frames_join_their_texts() {
    let policy = OcrPolicy::from_env(&Vec::new());
    let observations = vec![
        observation_from_words(&[word(1, 1, 1, 1, "a")], 10, 10),
        observation_from_words(&[word(1, 1, 1, 1, "b")], 10, 10),
    ];
    let frame = complete_frame(&policy, OcrBackend::Tesseract, observations, 12);
    assert_eq!(frame.status, "completed");
    assert_eq!(frame.backend, "tesseract-cli");
    assert_eq!(frame.language, "eng");
    assert_eq!(frame.normalized_text, "a\nb");
    assert_eq!(frame.duration_ms, 12);
    assert!(frame.runs_ocr && !frame.truncated);
}
