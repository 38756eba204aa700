//! The JSON line that records a frame.

use crate::confidence;
use crate::cut;
use crate::frame;
use crate::frame::{FrameModel, OcrFrameResult};
use crate::json;
use crate::json::{JsonModel, NumberModel};
use crate::observation;
use crate::observation::{
    CandidateModel, Confidence, ConfidenceModel, Fraction, FractionModel, NormalizedBoundingBox,
    NormalizedBoxModel, ObservationModel, OcrCandidate, OcrObservation, PixelBoundingBox,
    PixelBoxModel,
};
use crate::text;
use serde_json::Value;
use vstd::prelude::*;
use vstd::string::*;

verus! {

/// The version of the layout of a line.
pub const SCHEMA_VERSION: u64 = 1;

/// The measures of an observation as JSON numbers: its place in proportion to the frame, and how
/// sure the backend is of each candidate. For each candidate, `readings` holds what the fields
/// behind its mean read as: the bit patterns of the numbers, where they are numbers.
#[derive(Debug, PartialEq)]
pub struct Measures {
    pub x: Value,
    pub y: Value,
    pub width: Value,
    pub height: Value,
    pub confidences: Vec<Value>,
    pub readings: Vec<Vec<Option<u64>>>,
}

/// A `Measures`, its contents taken as what they hold.
#[verifier::ext_equal]
pub struct MeasuresModel {
    pub x: JsonModel,
    pub y: JsonModel,
    pub width: JsonModel,
    pub height: JsonModel,
    pub confidences: Seq<JsonModel>,
    pub readings: Seq<Seq<Option<u64>>>,
}

impl View for Measures {
    type V = MeasuresModel;

    open spec fn view(&self) -> MeasuresModel {
        MeasuresModel {
            x: json::json_model(self.x),
            y: json::json_model(self.y),
            width: json::json_model(self.width),
            height: json::json_model(self.height),
            confidences: json::json_models(self.confidences@),
            readings: self.readings@.map_values(|readings: Vec<Option<u64>>| readings@),
        }
    }
}

/// The views of some measures.
pub open spec fn measures_view(measures: Seq<Measures>) -> Seq<MeasuresModel> {
    measures.map_values(|measured: Measures| measured@)
}

/// Whether a number is the value of a fraction.
pub open spec fn is_place(number: JsonModel, place: FractionModel) -> bool {
    &&& observation::is_proper(place)
    &&& json::float_of(number) == Some(observation::measure_of(place))
}

/// Whether a number is how sure the backend is: the score that it gave, or the mean of what the
/// fields of a table read as.
pub open spec fn is_confidence(
    number: JsonModel,
    readings: Seq<Option<u64>>,
    confidence: ConfidenceModel,
) -> bool {
    match confidence {
        ConfidenceModel::Score(bits) => json::float_of(number) == Some(bits),
        ConfidenceModel::Mean(fields) => {
            &&& readings.len() == fields.len()
            &&& readings.len() <= u32::MAX
            &&& json::float_of(number) == Some(confidence::mean_of(readings))
        },
    }
}

/// Whether measures are those of an observation: its place, and one confidence for each candidate.
pub open spec fn is_measure_of(measured: MeasuresModel, seen: ObservationModel) -> bool {
    &&& is_place(measured.x, seen.bounding_box.x)
    &&& is_place(measured.y, seen.bounding_box.y)
    &&& is_place(measured.width, seen.bounding_box.width)
    &&& is_place(measured.height, seen.bounding_box.height)
    &&& measured.confidences.len() == seen.top_candidates.len()
    &&& measured.readings.len() == seen.top_candidates.len()
    &&& forall|j: int|
        0 <= j < seen.top_candidates.len() ==> is_confidence(
            #[trigger] measured.confidences[j],
            measured.readings[j],
            seen.top_candidates[j].confidence,
        )
}

/// Whether there are measures for each observation.
pub open spec fn are_measures_of(
    measures: Seq<MeasuresModel>,
    seen: Seq<ObservationModel>,
) -> bool {
    &&& measures.len() == seen.len()
    &&& forall|i: int| 0 <= i < seen.len() ==> is_measure_of(#[trigger] measures[i], seen[i])
}

/// The number `n` in JSON.
pub open spec fn whole_number(n: int) -> JsonModel {
    JsonModel::Number(NumberModel::Unsigned(n as u64))
}

/// A candidate in JSON.
pub open spec fn candidate_json(candidate: CandidateModel, confidence: JsonModel) -> JsonModel {
    JsonModel::Object(
        Map::empty().insert("text"@, JsonModel::Text(candidate.text)).insert(
            "confidence"@,
            confidence,
        ),
    )
}

/// The candidates in JSON.
pub open spec fn candidates_json(
    candidates: Seq<CandidateModel>,
    confidences: Seq<JsonModel>,
) -> Seq<JsonModel> {
    Seq::new(candidates.len(), |i: int| candidate_json(candidates[i], confidences[i]))
}

/// The place in proportion to the frame, in JSON.
pub open spec fn normalized_box_json(
    place: NormalizedBoxModel,
    measured: MeasuresModel,
) -> JsonModel {
    JsonModel::Object(
        Map::empty().insert("x"@, measured.x).insert("y"@, measured.y).insert(
            "width"@,
            measured.width,
        ).insert("height"@, measured.height).insert(
            "coordinate_space"@,
            JsonModel::Text(place.coordinate_space),
        ),
    )
}

/// The place in pixels, in JSON.
pub open spec fn pixel_box_json(place: PixelBoxModel) -> JsonModel {
    JsonModel::Object(
        Map::empty().insert("x"@, whole_number(place.x)).insert("y"@, whole_number(place.y)).insert(
            "width"@,
            whole_number(place.width),
        ).insert("height"@, whole_number(place.height)).insert(
            "coordinate_space"@,
            JsonModel::Text(place.coordinate_space),
        ),
    )
}

/// An observation in JSON.
pub open spec fn observation_json(seen: ObservationModel, measured: MeasuresModel) -> JsonModel {
    JsonModel::Object(
        Map::empty().insert(
            "boundingBox"@,
            normalized_box_json(seen.bounding_box, measured),
        ).insert("pixelBoundingBox"@, pixel_box_json(seen.pixel_bounding_box)).insert(
            "topCandidates"@,
            JsonModel::Array(candidates_json(seen.top_candidates, measured.confidences)),
        ).insert("normalized_text"@, JsonModel::Text(seen.normalized_text)),
    )
}

/// The observations in JSON.
pub open spec fn observations_json(
    seen: Seq<ObservationModel>,
    measures: Seq<MeasuresModel>,
) -> Seq<JsonModel> {
    Seq::new(seen.len(), |i: int| observation_json(seen[i], measures[i]))
}

/// Where and when a frame was taken.
pub struct CaptureModel {
    pub captured_at: Seq<char>,
    pub frame_index: u64,
    pub persisted_frame_path: Seq<char>,
    pub latest_frame_path: Seq<char>,
    pub display_id: Seq<char>,
}

/// The members that every line has.
pub open spec fn fixed_members(
    frame: FrameModel,
    capture: CaptureModel,
    measures: Seq<MeasuresModel>,
) -> Map<Seq<char>, JsonModel> {
    Map::empty().insert("schema_version"@, whole_number(SCHEMA_VERSION as int)).insert(
        "captured_at"@,
        JsonModel::Text(capture.captured_at),
    ).insert("frame_index"@, whole_number(capture.frame_index as int)).insert(
        "persisted_frame_path"@,
        JsonModel::Text(capture.persisted_frame_path),
    ).insert("latest_frame_path"@, JsonModel::Text(capture.latest_frame_path)).insert(
        "display_id"@,
        JsonModel::Text(capture.display_id),
    ).insert("normalized_text"@, JsonModel::Text(frame.normalized_text)).insert(
        "normalized_text_bytes"@,
        whole_number(cut::byte_len(frame.normalized_text) as int),
    ).insert("runs_ocr"@, JsonModel::Bool(frame.runs_ocr)).insert(
        "ocr_status"@,
        JsonModel::Text(frame.status),
    ).insert("ocr_backend"@, JsonModel::Text(frame.backend)).insert(
        "language"@,
        JsonModel::Text(frame.language),
    ).insert("duration_ms"@, whole_number(frame.duration_ms)).insert(
        "truncated"@,
        JsonModel::Bool(frame.truncated),
    ).insert(
        "observations"@,
        JsonModel::Array(observations_json(frame.observations, measures)),
    )
}

/// The members, with a text more where there is one.
pub open spec fn with_text(
    members: Map<Seq<char>, JsonModel>,
    key: Seq<char>,
    text: Option<Seq<char>>,
) -> Map<Seq<char>, JsonModel> {
    match text {
        Some(text) => members.insert(key, JsonModel::Text(text)),
        None => members,
    }
}

/// The members of the line of a frame.
pub open spec fn line_members(
    frame: FrameModel,
    capture: CaptureModel,
    measures: Seq<MeasuresModel>,
) -> Map<Seq<char>, JsonModel> {
    let members = with_text(
        with_text(
            with_text(
                fixed_members(frame, capture, measures),
                "ocr_backend_version"@,
                frame.backend_version,
            ),
            "dependency_hint"@,
            frame.dependency_hint,
        ),
        "error"@,
        frame.error,
    );
    if frame.suppressed_text_observation_count > 0 {
        members.insert(
            "suppressed_text_observation_count"@,
            whole_number(frame.suppressed_text_observation_count),
        )
    } else {
        members
    }
}

fn place_matches(number: &Value, place: &Fraction) -> (r: bool)
    ensures
        r == is_place(json::json_model(*number), place@),
{
    match (json::as_float(number), place.value()) {
        (Some(bits), Some(value)) => bits == value.to_bits(),
        _ => false,
    }
}

fn confidence_matches(
    number: &Value,
    readings: &Vec<Option<u64>>,
    confidence: &Confidence,
) -> (r: bool)
    ensures
        r == is_confidence(json::json_model(*number), readings@, confidence@),
{
    let bits: u64 = match json::as_float(number) {
        Some(bits) => bits,
        None => {
            return false;
        },
    };
    match confidence {
        Confidence::Score(score) => bits == score.to_bits(),
        Confidence::Mean(fields) => {
            assert(text::views(fields@).len() == fields@.len());
            if readings.len() != fields.len() || readings.len() > u32::MAX as usize {
                return false;
            }
            bits == confidence::mean_confidence(readings).to_bits()
        },
    }
}

/// Whether measures are those of an observation.
pub fn measures_match(measured: &Measures, seen: &OcrObservation) -> (r: bool)
    ensures
        r == is_measure_of(measured@, seen@),
{
    assert(seen.top_candidates@.len() == seen@.top_candidates.len());
    assert(measured.confidences@.len() == measured@.confidences.len());
    if !place_matches(&measured.x, &seen.bounding_box.x) || !place_matches(
        &measured.y,
        &seen.bounding_box.y,
    ) || !place_matches(&measured.width, &seen.bounding_box.width) || !place_matches(
        &measured.height,
        &seen.bounding_box.height,
    ) {
        return false;
    }
    assert(measured.readings@.len() == measured@.readings.len());
    if measured.confidences.len() != seen.top_candidates.len() || measured.readings.len()
        != seen.top_candidates.len() {
        return false;
    }
    for j in 0..seen.top_candidates.len()
        invariant
            seen.top_candidates@.len() == seen@.top_candidates.len(),
            measured.confidences@.len() == measured@.confidences.len(),
            measured.confidences@.len() == seen.top_candidates@.len(),
            measured.readings@.len() == measured@.readings.len(),
            measured.readings@.len() == seen.top_candidates@.len(),
            forall|k: int|
                0 <= k < j ==> is_confidence(
                    #[trigger] measured@.confidences[k],
                    measured@.readings[k],
                    seen@.top_candidates[k].confidence,
                ),
    {
        assert(measured@.confidences[j as int] == json::json_model(
            measured.confidences@[j as int],
        ));
        assert(measured@.readings[j as int] == measured.readings@[j as int]@);
        assert(seen@.top_candidates[j as int] == seen.top_candidates@[j as int]@);
        if !confidence_matches(
            &measured.confidences[j],
            &measured.readings[j],
            &seen.top_candidates[j].confidence,
        ) {
            return false;
        }
    }
    true
}

/// Whether measures are those of observations.
pub fn all_measures_match(measures: &Vec<Measures>, seen: &Vec<OcrObservation>) -> (r: bool)
    ensures
        r == are_measures_of(measures_view(measures@), observation::observations_view(seen@)),
{
    let ghost measured = measures_view(measures@);
    let ghost models = observation::observations_view(seen@);
    assert(measures@.len() == measured.len());
    assert(seen@.len() == models.len());
    if measures.len() != seen.len() {
        return false;
    }
    for i in 0..seen.len()
        invariant
            measured == measures_view(measures@),
            models == observation::observations_view(seen@),
            measures@.len() == seen@.len(),
            forall|k: int| 0 <= k < i ==> is_measure_of(#[trigger] measured[k], models[k]),
    {
        assert(measured[i as int] == measures@[i as int]@);
        assert(models[i as int] == seen@[i as int]@);
        if !measures_match(&measures[i], &seen[i]) {
            return false;
        }
    }
    true
}

fn candidate_value(candidate: &OcrCandidate, confidence: &Value) -> (value: Value)
    ensures
        json::json_model(value) == candidate_json(candidate@, json::json_model(*confidence)),
{
    let mut value = json::new_object();
    json::set(&mut value, "text", json::from_text(candidate.text.as_str()));
    json::set(&mut value, "confidence", json::copy(confidence));
    value
}

fn candidate_values(candidates: &Vec<OcrCandidate>, confidences: &Vec<Value>) -> (values: Vec<Value>)
    requires
        candidates@.len() == confidences@.len(),
    ensures
        json::json_models(values@) == candidates_json(
            observation::candidates_view(candidates@),
            json::json_models(confidences@),
        ),
{
    let ghost wanted = candidates_json(
        observation::candidates_view(candidates@),
        json::json_models(confidences@),
    );
    let mut values: Vec<Value> = Vec::new();
    for i in 0..candidates.len()
        invariant
            candidates@.len() == confidences@.len(),
            wanted == candidates_json(
                observation::candidates_view(candidates@),
                json::json_models(confidences@),
            ),
            json::json_models(values@) == wanted.take(i as int),
    {
        let ghost before = values@;
        values.push(candidate_value(&candidates[i], &confidences[i]));
        assert(json::json_models(values@) =~= json::json_models(before).push(wanted[i as int]));
        assert(json::json_models(values@) =~= wanted.take(i + 1));
    }
    assert(json::json_models(values@) =~= wanted);
    values
}

fn normalized_box_value(place: &NormalizedBoundingBox, measured: &Measures) -> (value: Value)
    ensures
        json::json_model(value) == normalized_box_json(place@, measured@),
{
    let mut value = json::new_object();
    json::set(&mut value, "x", json::copy(&measured.x));
    json::set(&mut value, "y", json::copy(&measured.y));
    json::set(&mut value, "width", json::copy(&measured.width));
    json::set(&mut value, "height", json::copy(&measured.height));
    json::set(&mut value, "coordinate_space", json::from_text(place.coordinate_space));
    value
}

fn pixel_box_value(place: &PixelBoundingBox) -> (value: Value)
    ensures
        json::json_model(value) == pixel_box_json(place@),
{
    let mut value = json::new_object();
    json::set(&mut value, "x", json::from_u64(place.x as u64));
    json::set(&mut value, "y", json::from_u64(place.y as u64));
    json::set(&mut value, "width", json::from_u64(place.width as u64));
    json::set(&mut value, "height", json::from_u64(place.height as u64));
    json::set(&mut value, "coordinate_space", json::from_text(place.coordinate_space));
    value
}

/// An observation in JSON.
pub fn observation_value(seen: &OcrObservation, measured: &Measures) -> (value: Value)
    requires
        is_measure_of(measured@, seen@),
    ensures
        json::json_model(value) == observation_json(seen@, measured@),
{
    assert(seen.top_candidates@.len() == seen@.top_candidates.len());
    assert(measured.confidences@.len() == measured@.confidences.len());
    let candidates = candidate_values(&seen.top_candidates, &measured.confidences);
    let mut value = json::new_object();
    json::set(&mut value, "boundingBox", normalized_box_value(&seen.bounding_box, measured));
    json::set(&mut value, "pixelBoundingBox", pixel_box_value(&seen.pixel_bounding_box));
    json::set(&mut value, "topCandidates", json::from_items(candidates));
    json::set(&mut value, "normalized_text", json::from_text(seen.normalized_text.as_str()));
    value
}

fn observation_values(seen: &Vec<OcrObservation>, measures: &Vec<Measures>) -> (values: Vec<Value>)
    requires
        are_measures_of(measures_view(measures@), observation::observations_view(seen@)),
    ensures
        json::json_models(values@) == observations_json(
            observation::observations_view(seen@),
            measures_view(measures@),
        ),
{
    let ghost models = observation::observations_view(seen@);
    let ghost measured = measures_view(measures@);
    let ghost wanted = observations_json(models, measured);
    assert(measures@.len() == measured.len());
    let mut values: Vec<Value> = Vec::new();
    for i in 0..seen.len()
        invariant
            models == observation::observations_view(seen@),
            measured == measures_view(measures@),
            wanted == observations_json(models, measured),
            are_measures_of(measured, models),
            seen@.len() == measures@.len(),
            json::json_models(values@) == wanted.take(i as int),
    {
        assert(models[i as int] == seen@[i as int]@);
        assert(measured[i as int] == measures@[i as int]@);
        let ghost before = values@;
        values.push(observation_value(&seen[i], &measures[i]));
        assert(json::json_models(values@) =~= json::json_models(before).push(wanted[i as int]));
        assert(json::json_models(values@) =~= wanted.take(i + 1));
    }
    assert(json::json_models(values@) =~= wanted);
    values
}

fn set_text(value: &mut Value, key: &str, text: &Option<String>)
    requires
        json::json_model(*old(value)) is Object,
    ensures
        json::json_model(*final(value)) == JsonModel::Object(
            with_text(json::json_model(*old(value))->Object_0, key@, text::option_view(*text)),
        ),
{
    if let Some(text) = text {
        json::set(value, key, json::from_text(text.as_str()));
    }
}

impl OcrFrameResult {
    /// The line that records the frame.
    pub fn to_json_line(
        &self,
        captured_at: &str,
        frame_index: u64,
        persisted_frame_path: &str,
        latest_frame_path: &str,
        display_id: &str,
        measures: &Vec<Measures>,
    ) -> (value: Value)
        requires
            self.duration_ms <= u64::MAX,
            are_measures_of(measures_view(measures@), self@.observations),
        ensures
            json::json_model(value) == JsonModel::Object(
                line_members(
                    self@,
                    (CaptureModel {
                        captured_at: captured_at@,
                        frame_index,
                        persisted_frame_path: persisted_frame_path@,
                        latest_frame_path: latest_frame_path@,
                        display_id: display_id@,
                    }),
                    measures_view(measures@),
                ),
            ),
    {
        let bytes: usize = self.normalized_text.as_str().as_bytes().len();
        let observations = observation_values(&self.observations, measures);
        let mut value = json::new_object();
        json::set(&mut value, "schema_version", json::from_u64(SCHEMA_VERSION));
        json::set(&mut value, "captured_at", json::from_text(captured_at));
        json::set(&mut value, "frame_index", json::from_u64(frame_index));
        json::set(&mut value, "persisted_frame_path", json::from_text(persisted_frame_path));
        json::set(&mut value, "latest_frame_path", json::from_text(latest_frame_path));
        json::set(&mut value, "display_id", json::from_text(display_id));
        json::set(
            &mut value,
            "normalized_text",
            json::from_text(self.normalized_text.as_str()),
        );
        json::set(&mut value, "normalized_text_bytes", json::from_u64(bytes as u64));
        json::set(&mut value, "runs_ocr", json::from_bool(self.runs_ocr));
        json::set(&mut value, "ocr_status", json::from_text(self.status.as_str()));
        json::set(&mut value, "ocr_backend", json::from_text(self.backend.as_str()));
        json::set(&mut value, "language", json::from_text(self.language.as_str()));
        json::set(&mut value, "duration_ms", json::from_u64(self.duration_ms as u64));
        json::set(&mut value, "truncated", json::from_bool(self.truncated));
        json::set(&mut value, "observations", json::from_items(observations));
        set_text(&mut value, "ocr_backend_version", &self.backend_version);
        set_text(&mut value, "dependency_hint", &self.dependency_hint);
        set_text(&mut value, "error", &self.error);
        if self.suppressed_text_observation_count > 0 {
            json::set(
                &mut value,
                "suppressed_text_observation_count",
                json::from_u64(self.suppressed_text_observation_count as u64),
            );
        }
        value
    }

    /// The line that records the frame, or nothing where the measures are not those of its
    /// observations or its duration is more than a JSON number holds.
    pub fn checked_json_line(
        &self,
        captured_at: &str,
        frame_index: u64,
        persisted_frame_path: &str,
        latest_frame_path: &str,
        display_id: &str,
        measures: &Vec<Measures>,
    ) -> (r: Option<Value>)
        ensures
            r is Some <==> self.duration_ms <= u64::MAX && are_measures_of(
                measures_view(measures@),
                self@.observations,
            ),
            r matches Some(value) ==> json::json_model(value) == JsonModel::Object(
                line_members(
                    self@,
                    (CaptureModel {
                        captured_at: captured_at@,
                        frame_index,
                        persisted_frame_path: persisted_frame_path@,
                        latest_frame_path: latest_frame_path@,
                        display_id: display_id@,
                    }),
                    measures_view(measures@),
                ),
            ),
    {
        if self.duration_ms > u64::MAX as u128 || !all_measures_match(
            measures,
            &self.observations,
        ) {
            return None;
        }
        Some(
            self.to_json_line(
                captured_at,
                frame_index,
                persisted_frame_path,
                latest_frame_path,
                display_id,
                measures,
            ),
        )
    }
}

proof fn lemma_keys_differ()
    ensures
        "ocr_backend_version"@.len() == 19,
        "dependency_hint"@.len() == 15 && "dependency_hint"@[0] == 'd',
        "error"@.len() == 5,
        "suppressed_text_observation_count"@.len() == 33,
        "normalized_text"@.len() == 15 && "normalized_text"@[0] == 'n',
        "normalized_text_bytes"@.len() == 21,
        "observations"@.len() == 12,
        "truncated"@.len() == 9,
        "schema_version"@.len() == 14,
        "captured_at"@.len() == 11,
        "frame_index"@.len() == 11,
        "persisted_frame_path"@.len() == 20,
        "latest_frame_path"@.len() == 17,
        "display_id"@.len() == 10,
        "runs_ocr"@.len() == 8,
        "ocr_status"@.len() == 10,
        "ocr_backend"@.len() == 11,
        "language"@.len() == 8,
        "duration_ms"@.len() == 11,
{
    reveal_strlit("ocr_backend_version");
    reveal_strlit("dependency_hint");
    reveal_strlit("error");
    reveal_strlit("suppressed_text_observation_count");
    reveal_strlit("normalized_text");
    reveal_strlit("normalized_text_bytes");
    reveal_strlit("observations");
    reveal_strlit("truncated");
    reveal_strlit("schema_version");
    reveal_strlit("captured_at");
    reveal_strlit("frame_index");
    reveal_strlit("persisted_frame_path");
    reveal_strlit("latest_frame_path");
    reveal_strlit("display_id");
    reveal_strlit("runs_ocr");
    reveal_strlit("ocr_status");
    reveal_strlit("ocr_backend");
    reveal_strlit("language");
    reveal_strlit("duration_ms");
}

/// A line names the version of the backend, what to install and what went wrong exactly where the
/// frame does, and it counts suppressed texts exactly where there were any.
pub proof fn law_line_has_what_frame_has(
    frame: FrameModel,
    capture: CaptureModel,
    measures: Seq<MeasuresModel>,
)
    ensures
        ({
            let line = JsonModel::Object(line_members(frame, capture, measures));
            &&& json::member(line, "ocr_backend_version"@) == optional_text(frame.backend_version)
            &&& json::member(line, "dependency_hint"@) == optional_text(frame.dependency_hint)
            &&& json::member(line, "error"@) == optional_text(frame.error)
            &&& json::member(line, "suppressed_text_observation_count"@) == (
            if frame.suppressed_text_observation_count > 0 {
                Some(whole_number(frame.suppressed_text_observation_count))
            } else {
                None
            })
        }),
{
    lemma_keys_differ();
}

/// A text in JSON, where there is one.
pub open spec fn optional_text(text: Option<Seq<char>>) -> Option<JsonModel> {
    match text {
        Some(text) => Some(JsonModel::Text(text)),
        None => None,
    }
}

/// A line holds the text of the frame, its length in bytes, its observations and whether it was
/// truncated.
pub proof fn law_line_holds_texts(
    frame: FrameModel,
    capture: CaptureModel,
    measures: Seq<MeasuresModel>,
)
    ensures
        ({
            let line = JsonModel::Object(line_members(frame, capture, measures));
            &&& json::member(line, "normalized_text"@) == Some(
                JsonModel::Text(frame.normalized_text),
            )
            &&& json::member(line, "normalized_text_bytes"@) == Some(
                whole_number(cut::byte_len(frame.normalized_text) as int),
            )
            &&& json::member(line, "observations"@) == Some(
                JsonModel::Array(observations_json(frame.observations, measures)),
            )
            &&& json::member(line, "truncated"@) == Some(JsonModel::Bool(frame.truncated))
        }),
{
    lemma_keys_differ();
}

proof fn lemma_box_keys_differ()
    ensures
        "text"@.len() == 4,
        "confidence"@.len() == 10,
        "x"@.len() == 1 && "x"@[0] == 'x',
        "y"@.len() == 1 && "y"@[0] == 'y',
        "width"@.len() == 5,
        "height"@.len() == 6,
        "coordinate_space"@.len() == 16 && "coordinate_space"@[0] == 'c',
        "boundingBox"@.len() == 11,
        "pixelBoundingBox"@.len() == 16 && "pixelBoundingBox"@[0] == 'p',
        "topCandidates"@.len() == 13,
        "normalized_text"@.len() == 15,
{
    reveal_strlit("text");
    reveal_strlit("confidence");
    reveal_strlit("x");
    reveal_strlit("y");
    reveal_strlit("width");
    reveal_strlit("height");
    reveal_strlit("coordinate_space");
    reveal_strlit("boundingBox");
    reveal_strlit("pixelBoundingBox");
    reveal_strlit("topCandidates");
    reveal_strlit("normalized_text");
}

/// The value of a fraction in JSON.
pub open spec fn measure_json(place: FractionModel) -> JsonModel {
    JsonModel::Number(NumberModel::Float(observation::measure_of(place)))
}

/// An observation is recorded with the values of its place and with its texts.
pub proof fn law_recorded_place_is_value(seen: ObservationModel, measured: MeasuresModel)
    requires
        is_measure_of(measured, seen),
    ensures
        ({
            let place = json::member(observation_json(seen, measured), "boundingBox"@)->Some_0;
            &&& json::member(place, "x"@) == Some(measure_json(seen.bounding_box.x))
            &&& json::member(place, "y"@) == Some(measure_json(seen.bounding_box.y))
            &&& json::member(place, "width"@) == Some(measure_json(seen.bounding_box.width))
            &&& json::member(place, "height"@) == Some(measure_json(seen.bounding_box.height))
        }),
        json::member(observation_json(seen, measured), "normalized_text"@) == Some(
            JsonModel::Text(seen.normalized_text),
        ),
{
    lemma_box_keys_differ();
}

/// A candidate is recorded with its text and with the score that the backend gave it, or with the
/// mean of what the fields of its words read as.
pub proof fn law_recorded_confidence_is_score_or_mean(
    seen: ObservationModel,
    measured: MeasuresModel,
    j: int,
)
    requires
        is_measure_of(measured, seen),
        0 <= j < seen.top_candidates.len(),
    ensures
        ({
            let candidates = json::items_of(
                json::member(observation_json(seen, measured), "topCandidates"@)->Some_0,
            )->Some_0;
            &&& candidates.len() == seen.top_candidates.len()
            &&& json::member(candidates[j], "text"@) == Some(
                JsonModel::Text(seen.top_candidates[j].text),
            )
            &&& json::member(candidates[j], "confidence"@) == Some(
                JsonModel::Number(
                    NumberModel::Float(
                        match seen.top_candidates[j].confidence {
                            ConfidenceModel::Score(bits) => bits,
                            ConfidenceModel::Mean(_) => confidence::mean_of(measured.readings[j]),
                        },
                    ),
                ),
            )
        }),
{
    lemma_box_keys_differ();
    assert(is_confidence(
        measured.confidences[j],
        measured.readings[j],
        seen.top_candidates[j].confidence,
    ));
}

/// The line of a frame in which an excluded value was found holds none of its texts.
pub proof fn law_suppressed_line_holds_no_text(
    frame: FrameModel,
    values: Seq<Seq<char>>,
    capture: CaptureModel,
    measures: Seq<MeasuresModel>,
)
    requires
        frame::excluded(frame, values) != frame,
    ensures
        ({
            let left = frame::limited(frame::excluded(frame, values));
            let line = JsonModel::Object(line_members(left, capture, measures));
            &&& json::member(line, "normalized_text"@) == Some(JsonModel::Text(Seq::empty()))
            &&& json::member(line, "observations"@) == Some(JsonModel::Array(Seq::empty()))
        }),
{
    let suppressed = frame::excluded(frame, values);
    let left = frame::limited(suppressed);
    law_line_holds_texts(left, capture, measures);
    cut::law_cut_is_longest_fitting_prefix(
        frame::whole_text(suppressed),
        frame::MAX_OCR_NORMALIZED_TEXT_BYTES as int,
    );
    assert(left.normalized_text =~= Seq::empty());
    assert(observations_json(left.observations, measures) =~= Seq::empty());
}

/// Each number of the pixel box of an observation is recorded under its own name, and either box with
/// its own coordinate space.
pub proof fn law_recorded_pixels_are_those_of_the_observation(
    seen: ObservationModel,
    measured: MeasuresModel,
)
    ensures
        ({
            let pixels = json::member(
                observation_json(seen, measured),
                "pixelBoundingBox"@,
            )->Some_0;
            let place = json::member(observation_json(seen, measured), "boundingBox"@)->Some_0;
            &&& json::member(pixels, "x"@) == Some(whole_number(seen.pixel_bounding_box.x))
            &&& json::member(pixels, "y"@) == Some(whole_number(seen.pixel_bounding_box.y))
            &&& json::member(pixels, "width"@) == Some(whole_number(seen.pixel_bounding_box.width))
            &&& json::member(pixels, "height"@) == Some(
                whole_number(seen.pixel_bounding_box.height),
            )
            &&& json::member(pixels, "coordinate_space"@) == Some(
                JsonModel::Text(seen.pixel_bounding_box.coordinate_space),
            )
            &&& json::member(place, "coordinate_space"@) == Some(
                JsonModel::Text(seen.bounding_box.coordinate_space),
            )
        }),
{
    lemma_box_keys_differ();
}

/// A line says where and when the frame was taken, each under its own name.
pub proof fn law_line_says_where_and_when(
    frame: FrameModel,
    capture: CaptureModel,
    measures: Seq<MeasuresModel>,
)
    ensures
        ({
            let line = JsonModel::Object(line_members(frame, capture, measures));
            &&& json::member(line, "schema_version"@) == Some(whole_number(1))
            &&& json::member(line, "captured_at"@) == Some(JsonModel::Text(capture.captured_at))
            &&& json::member(line, "frame_index"@) == Some(
                JsonModel::Number(NumberModel::Unsigned(capture.frame_index)),
            )
            &&& json::member(line, "persisted_frame_path"@) == Some(
                JsonModel::Text(capture.persisted_frame_path),
            )
            &&& json::member(line, "latest_frame_path"@) == Some(
                JsonModel::Text(capture.latest_frame_path),
            )
            &&& json::member(line, "display_id"@) == Some(JsonModel::Text(capture.display_id))
        }),
{
    lemma_keys_differ();
    lemma_same_length_keys_differ();
}

proof fn lemma_same_length_keys_differ()
    ensures
        "captured_at"@[0] == 'c' && "frame_index"@[0] == 'f' && "ocr_backend"@[0] == 'o'
            && "duration_ms"@[0] == 'd',
        "display_id"@[0] == 'd' && "ocr_status"@[0] == 'o',
        "runs_ocr"@[0] == 'r' && "language"@[0] == 'l',
{
    reveal_strlit("captured_at");
    reveal_strlit("frame_index");
    reveal_strlit("ocr_backend");
    reveal_strlit("duration_ms");
    reveal_strlit("display_id");
    reveal_strlit("ocr_status");
    reveal_strlit("runs_ocr");
    reveal_strlit("language");
}

/// A line says how the frame was recognised, each under its own name.
pub proof fn law_line_says_how(
    frame: FrameModel,
    capture: CaptureModel,
    measures: Seq<MeasuresModel>,
)
    ensures
        ({
            let line = JsonModel::Object(line_members(frame, capture, measures));
            &&& json::member(line, "runs_ocr"@) == Some(JsonModel::Bool(frame.runs_ocr))
            &&& json::member(line, "ocr_status"@) == Some(JsonModel::Text(frame.status))
            &&& json::member(line, "ocr_backend"@) == Some(JsonModel::Text(frame.backend))
            &&& json::member(line, "language"@) == Some(JsonModel::Text(frame.language))
            &&& json::member(line, "duration_ms"@) == Some(whole_number(frame.duration_ms))
        }),
{
    lemma_keys_differ();
    lemma_same_length_keys_differ();
}

/// A line holds one item for each observation, at its position: its text, its place, its pixels and,
/// at their positions, its candidates.
pub proof fn law_line_holds_each_observation(
    frame: FrameModel,
    capture: CaptureModel,
    measures: Seq<MeasuresModel>,
    i: int,
    j: int,
)
    requires
        are_measures_of(measures, frame.observations),
        0 <= i < frame.observations.len(),
    ensures
        ({
            let line = JsonModel::Object(line_members(frame, capture, measures));
            let seen = frame.observations[i];
            let items = json::items_of(json::member(line, "observations"@)->Some_0)->Some_0;
            let pixels = json::member(items[i], "pixelBoundingBox"@)->Some_0;
            let place = json::member(items[i], "boundingBox"@)->Some_0;
            let candidates = json::items_of(
                json::member(items[i], "topCandidates"@)->Some_0,
            )->Some_0;
            &&& items.len() == frame.observations.len()
            &&& candidates.len() == seen.top_candidates.len()
            &&& 0 <= j < candidates.len() ==> json::member(candidates[j], "text"@) == Some(
                JsonModel::Text(seen.top_candidates[j].text),
            )
            &&& 0 <= j < candidates.len() ==> (seen.top_candidates[j].confidence matches
                ConfidenceModel::Score(bits) ==> json::member(candidates[j], "confidence"@) == Some(
                JsonModel::Number(NumberModel::Float(bits)),
            ))
            &&& json::member(items[i], "normalized_text"@) == Some(
                JsonModel::Text(seen.normalized_text),
            )
            &&& json::member(pixels, "x"@) == Some(whole_number(seen.pixel_bounding_box.x))
            &&& json::member(pixels, "y"@) == Some(whole_number(seen.pixel_bounding_box.y))
            &&& json::member(pixels, "width"@) == Some(whole_number(seen.pixel_bounding_box.width))
            &&& json::member(pixels, "height"@) == Some(
                whole_number(seen.pixel_bounding_box.height),
            )
            &&& json::member(place, "x"@) == Some(measure_json(seen.bounding_box.x))
            &&& json::member(place, "y"@) == Some(measure_json(seen.bounding_box.y))
            &&& json::member(place, "width"@) == Some(measure_json(seen.bounding_box.width))
            &&& json::member(place, "height"@) == Some(measure_json(seen.bounding_box.height))
        }),
{
    law_line_holds_texts(frame, capture, measures);
    assert(is_measure_of(measures[i], frame.observations[i]));
    law_recorded_place_is_value(frame.observations[i], measures[i]);
    law_recorded_pixels_are_those_of_the_observation(frame.observations[i], measures[i]);
    lemma_box_keys_differ();
    if 0 <= j < frame.observations[i].top_candidates.len() {
        law_recorded_confidence_is_score_or_mean(frame.observations[i], measures[i], j);
    }
}

/// A whole number that a JSON number holds is recorded as itself: two such numbers are recorded alike
/// only where they are equal.
pub proof fn law_whole_numbers_are_recorded_as_themselves(n: int, m: int)
    requires
        0 <= n <= u64::MAX,
        0 <= m <= u64::MAX,
    ensures
        whole_number(n) matches JsonModel::Number(NumberModel::Unsigned(held)) && held == n,
        whole_number(n) == whole_number(m) <==> n == m,
{
}

/// Numbers that are the values of the place of an observation, with the score of its one candidate,
/// are taken as its measures; numbers that differ from these in one value are not.
pub proof fn law_values_are_taken_as_measures(
    seen: ObservationModel,
    measured: MeasuresModel,
    bits: u64,
)
    requires
        observation::is_proper_box(seen.bounding_box),
        seen.top_candidates.len() == 1,
        seen.top_candidates[0].confidence == ConfidenceModel::Score(bits),
        measured.confidences.len() == 1,
        measured.readings.len() == 1,
    ensures
        is_measure_of(measured, seen) <==> {
            &&& measured.x == measure_json(seen.bounding_box.x)
            &&& measured.y == measure_json(seen.bounding_box.y)
            &&& measured.width == measure_json(seen.bounding_box.width)
            &&& measured.height == measure_json(seen.bounding_box.height)
            &&& measured.confidences[0] == JsonModel::Number(NumberModel::Float(bits))
        },
{
    if is_measure_of(measured, seen) {
        assert(is_confidence(
            measured.confidences[0],
            measured.readings[0],
            seen.top_candidates[0].confidence,
        ));
    }
}

/// A line has no members but those that say where, when and how, its texts, and what the frame may
/// have besides.
pub proof fn law_line_has_no_other_member(
    frame: FrameModel,
    capture: CaptureModel,
    measures: Seq<MeasuresModel>,
    key: Seq<char>,
)
    requires
        json::member(JsonModel::Object(line_members(frame, capture, measures)), key) is Some,
    ensures
        ({
            ||| key == "schema_version"@ || key == "captured_at"@ || key == "frame_index"@
            ||| key == "persisted_frame_path"@ || key == "latest_frame_path"@ || key
                == "display_id"@
            ||| key == "normalized_text"@ || key == "normalized_text_bytes"@ || key == "truncated"@
            ||| key == "runs_ocr"@ || key == "ocr_status"@ || key == "ocr_backend"@
            ||| key == "language"@ || key == "duration_ms"@ || key == "observations"@
            ||| key == "ocr_backend_version"@ && frame.backend_version is Some
            ||| key == "dependency_hint"@ && frame.dependency_hint is Some
            ||| key == "error"@ && frame.error is Some
            ||| key == "suppressed_text_observation_count"@
                && frame.suppressed_text_observation_count > 0
        }),
{
}

} // verus!
