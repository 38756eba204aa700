//! What the Python backends report: the line of their output that holds it, and the texts in it.

use crate::double;
use crate::double::Real;
use crate::error::OcrError;
use crate::json;
use crate::json::JsonModel;
use crate::observation;
use crate::observation::{ConfidenceModel, ObservationModel, OcrObservation, RectModel};
use crate::policy::OcrBackend;
use crate::process;
use crate::process::ProcessOutput;
use crate::text;
use serde_json::Value;
use vstd::prelude::*;
use vstd::string::*;

verus! {

pub const RAPIDOCR_JSON_PREFIX: &'static str = "__CODEX_RAPIDOCR_JSON__";

pub const PADDLEOCR_JSON_PREFIX: &'static str = "__CODEX_PADDLEOCR_JSON__";

/// What follows the prefix in the last of some lines that start with it.
pub open spec fn last_with_prefix(lines: Seq<Seq<char>>, prefix: Seq<char>) -> Option<Seq<char>>
    decreases lines.len(),
{
    if lines.len() == 0 {
        None
    } else {
        match text::after_prefix(lines.last(), prefix) {
            Some(rest) => Some(rest),
            None => last_with_prefix(lines.drop_last(), prefix),
        }
    }
}

/// The payload in an output: what follows the prefix in the last line that starts with it.
pub open spec fn payload_in(stdout: Seq<char>, prefix: Seq<char>) -> Option<Seq<char>> {
    last_with_prefix(text::lines_of(stdout), prefix)
}

/// The payload in an output: what follows the prefix in the last line that starts with it.
pub fn payload_line(stdout: &str, prefix: &str) -> (r: Option<String>)
    ensures
        text::option_view(r) == payload_in(stdout@, prefix@),
{
    let lines = text::lines(stdout);
    let ghost model = text::lines_of(stdout@);
    assert(lines@.len() == text::views(lines@).len());
    let mut i: usize = lines.len();
    assert(model.take(i as int) =~= model);
    while i > 0
        invariant
            model == text::lines_of(stdout@),
            text::views(lines@) == model,
            i <= lines@.len(),
            lines@.len() == model.len(),
            last_with_prefix(model, prefix@) == last_with_prefix(model.take(i as int), prefix@),
        decreases i,
    {
        assert(model.take(i as int).drop_last() =~= model.take(i - 1));
        assert(text::views(lines@)[i - 1] == lines@[i - 1]@);
        assert(model.take(i as int).last() == lines@[i - 1]@);
        i = i - 1;
        let rest = text::strip_prefix(lines[i].as_str(), prefix);
        if rest.is_some() {
            return rest;
        }
    }
    None
}

/// Whether a result is what the payload in an output gives.
pub open spec fn is_payload_result(
    r: Result<Value, OcrError>,
    stdout: Seq<char>,
    prefix: Seq<char>,
    backend: OcrBackend,
) -> bool {
    match payload_in(stdout, prefix) {
        None => r == Err::<Value, OcrError>(OcrError::PayloadNotFound(backend)),
        Some(line) => match json::parsed_json(line) {
            None => r == Err::<Value, OcrError>(OcrError::PayloadUnreadable(backend)),
            Some(document) => r matches Ok(value) && json::json_model(value) == document,
        },
    }
}

fn parse_json_line(stdout: &str, prefix: &str, backend: OcrBackend) -> (r: Result<Value, OcrError>)
    ensures
        is_payload_result(r, stdout@, prefix@, backend),
{
    match payload_line(stdout, prefix) {
        None => Err(OcrError::PayloadNotFound(backend)),
        Some(line) => match json::parse(line.as_str()) {
            Ok(value) => Ok(value),
            Err(_) => Err(OcrError::PayloadUnreadable(backend)),
        },
    }
}

/// The document that RapidOCR wrote.
pub fn parse_rapidocr_json_line(output: &ProcessOutput) -> (r: Result<Value, OcrError>)
    ensures
        is_payload_result(
            r,
            process::utf8_lossy(output.stdout@),
            RAPIDOCR_JSON_PREFIX@,
            OcrBackend::RapidOcr,
        ),
{
    let stdout = process::text_of_bytes(&output.stdout);
    parse_json_line(stdout.as_str(), RAPIDOCR_JSON_PREFIX, OcrBackend::RapidOcr)
}

/// The document that PaddleOCR wrote.
pub fn parse_paddleocr_json_line(output: &ProcessOutput) -> (r: Result<Value, OcrError>)
    ensures
        is_payload_result(
            r,
            process::utf8_lossy(output.stdout@),
            PADDLEOCR_JSON_PREFIX@,
            OcrBackend::PaddleOcr,
        ),
{
    let stdout = process::text_of_bytes(&output.stdout);
    parse_json_line(stdout.as_str(), PADDLEOCR_JSON_PREFIX, OcrBackend::PaddleOcr)
}

/// What may stand in the place of a corner or of a coordinate of a box.
#[derive(Debug, PartialEq, Eq)]
pub enum PointValue {
    /// A single coordinate.
    Number(Real),
    /// A list, of which the first two should be coordinates.
    Array(Vec<Option<Real>>),
    /// Anything else.
    Other,
}

/// A `PointValue`, numbers taken as their bit patterns.
pub enum PointModel {
    Number(u64),
    Array(Seq<Option<u64>>),
    Other,
}

/// The bit patterns of some numbers, where there are numbers.
pub open spec fn optional_bits(numbers: Seq<Option<Real>>) -> Seq<Option<u64>> {
    numbers.map_values(
        |number: Option<Real>|
            match number {
                Some(number) => Some(number@),
                None => None,
            },
    )
}

impl View for PointValue {
    type V = PointModel;

    open spec fn view(&self) -> PointModel {
        match *self {
            PointValue::Number(number) => PointModel::Number(number@),
            PointValue::Array(numbers) => PointModel::Array(optional_bits(numbers@)),
            PointValue::Other => PointModel::Other,
        }
    }
}

/// What stands in the place of a box: a list of corners or coordinates, or anything else.
#[derive(Debug, PartialEq, Eq)]
pub enum BoxValue {
    Array(Vec<PointValue>),
    Other,
}

/// The views of some points.
pub open spec fn points_view(points: Seq<PointValue>) -> Seq<PointModel> {
    points.map_values(|point: PointValue| point@)
}

impl View for BoxValue {
    type V = Option<Seq<PointModel>>;

    open spec fn view(&self) -> Option<Seq<PointModel>> {
        match *self {
            BoxValue::Array(points) => Some(points_view(points@)),
            BoxValue::Other => None,
        }
    }
}

/// What a document says of the texts in a frame.
#[derive(Debug, PartialEq, Eq)]
pub struct OcrPayload {
    pub boxes: Option<Vec<BoxValue>>,
    pub txts: Option<Vec<Option<String>>>,
    pub scores: Option<Vec<Option<Real>>>,
}

/// An `OcrPayload`, its contents taken by their views.
#[verifier::ext_equal]
pub struct PayloadModel {
    pub boxes: Option<Seq<Option<Seq<PointModel>>>>,
    pub txts: Option<Seq<Option<Seq<char>>>>,
    pub scores: Option<Seq<Option<u64>>>,
}

/// The views of some boxes.
pub open spec fn boxes_view(boxes: Seq<BoxValue>) -> Seq<Option<Seq<PointModel>>> {
    boxes.map_values(|item: BoxValue| item@)
}

/// The views of some texts, where there are texts.
pub open spec fn optional_texts(texts: Seq<Option<String>>) -> Seq<Option<Seq<char>>> {
    texts.map_values(|item: Option<String>| text::option_view(item))
}

impl View for OcrPayload {
    type V = PayloadModel;

    open spec fn view(&self) -> PayloadModel {
        PayloadModel {
            boxes: match self.boxes {
                Some(boxes) => Some(boxes_view(boxes@)),
                None => None,
            },
            txts: match self.txts {
                Some(txts) => Some(optional_texts(txts@)),
                None => None,
            },
            scores: match self.scores {
                Some(scores) => Some(optional_bits(scores@)),
                None => None,
            },
        }
    }
}

/// The numbers in a list of documents, where they are numbers.
pub open spec fn numbers_in(items: Seq<JsonModel>) -> Seq<Option<u64>> {
    items.map_values(|item: JsonModel| json::bits_of(item))
}

/// The texts in a list of documents, where they are strings.
pub open spec fn texts_in(items: Seq<JsonModel>) -> Seq<Option<Seq<char>>> {
    items.map_values(|item: JsonModel| json::text_of(item))
}

/// What a document in the place of a corner or a coordinate says.
pub open spec fn point_in(document: JsonModel) -> PointModel {
    match document {
        JsonModel::Number(number) => PointModel::Number(json::number_bits(number)),
        JsonModel::Array(items) => PointModel::Array(numbers_in(items)),
        _ => PointModel::Other,
    }
}

/// What a document in the place of a box says.
pub open spec fn box_in(document: JsonModel) -> Option<Seq<PointModel>> {
    match json::items_of(document) {
        Some(items) => Some(items.map_values(|item: JsonModel| point_in(item))),
        None => None,
    }
}

/// The items of a member of a document.
pub open spec fn list_in(document: JsonModel, key: Seq<char>) -> Option<Seq<JsonModel>> {
    match json::member(document, key) {
        Some(found) => json::items_of(found),
        None => None,
    }
}

/// What a document says of the texts in a frame.
pub open spec fn payload_of(document: JsonModel) -> PayloadModel {
    PayloadModel {
        boxes: match list_in(document, "boxes"@) {
            Some(items) => Some(items.map_values(|item: JsonModel| box_in(item))),
            None => None,
        },
        txts: match list_in(document, "txts"@) {
            Some(items) => Some(texts_in(items)),
            None => None,
        },
        scores: match list_in(document, "scores"@) {
            Some(items) => Some(numbers_in(items)),
            None => None,
        },
    }
}

fn read_number(value: &Value) -> (r: Option<Real>)
    ensures
        match r {
            Some(number) => json::bits_of(json::json_model(*value)) == Some(number@),
            None => json::bits_of(json::json_model(*value)) is None,
        },
{
    match json::as_bits(value) {
        Some(bits) => Real::from_bits(bits),
        None => None,
    }
}

fn read_numbers(items: &Vec<Value>) -> (r: Vec<Option<Real>>)
    ensures
        optional_bits(r@) == numbers_in(json::json_models(items@)),
{
    let ghost models = json::json_models(items@);
    let mut numbers: Vec<Option<Real>> = Vec::new();
    for i in 0..items.len()
        invariant
            models == json::json_models(items@),
            optional_bits(numbers@) == numbers_in(models).take(i as int),
    {
        assert(models[i as int] == json::json_model(items@[i as int]));
        let ghost before = numbers@;
        let number = read_number(&items[i]);
        numbers.push(number);
        assert(optional_bits(numbers@) =~= optional_bits(before).push(
            json::bits_of(models[i as int]),
        ));
        assert(optional_bits(numbers@) =~= numbers_in(models).take(i + 1));
    }
    assert(optional_bits(numbers@) =~= numbers_in(models));
    numbers
}

fn read_texts(items: &Vec<Value>) -> (r: Vec<Option<String>>)
    ensures
        optional_texts(r@) == texts_in(json::json_models(items@)),
{
    let ghost models = json::json_models(items@);
    let mut texts: Vec<Option<String>> = Vec::new();
    for i in 0..items.len()
        invariant
            models == json::json_models(items@),
            optional_texts(texts@) == texts_in(models).take(i as int),
    {
        assert(models[i as int] == json::json_model(items@[i as int]));
        let ghost before = texts@;
        let found = match json::as_str(&items[i]) {
            Some(found) => Some(found.to_owned()),
            None => None,
        };
        texts.push(found);
        assert(optional_texts(texts@) =~= optional_texts(before).push(
            json::text_of(models[i as int]),
        ));
        assert(optional_texts(texts@) =~= texts_in(models).take(i + 1));
    }
    assert(optional_texts(texts@) =~= texts_in(models));
    texts
}

fn read_point(value: &Value) -> (r: PointValue)
    ensures
        r@ == point_in(json::json_model(*value)),
{
    if let Some(number) = read_number(value) {
        return PointValue::Number(number);
    }
    match json::as_array(value) {
        Some(items) => PointValue::Array(read_numbers(items)),
        None => PointValue::Other,
    }
}

fn read_box(value: &Value) -> (r: BoxValue)
    ensures
        r@ == box_in(json::json_model(*value)),
{
    match json::as_array(value) {
        Some(items) => {
            let ghost models = json::json_models(items@);
            let ghost wanted = models.map_values(|item: JsonModel| point_in(item));
            let mut points: Vec<PointValue> = Vec::new();
            for i in 0..items.len()
                invariant
                    models == json::json_models(items@),
                    wanted == models.map_values(|item: JsonModel| point_in(item)),
                    points_view(points@) == wanted.take(i as int),
            {
                assert(models[i as int] == json::json_model(items@[i as int]));
                let ghost before = points@;
                points.push(read_point(&items[i]));
                assert(points_view(points@) =~= points_view(before).push(wanted[i as int]));
                assert(points_view(points@) =~= wanted.take(i + 1));
            }
            assert(points_view(points@) =~= wanted);
            BoxValue::Array(points)
        },
        None => BoxValue::Other,
    }
}

fn read_boxes(items: &Vec<Value>) -> (r: Vec<BoxValue>)
    ensures
        boxes_view(r@) == json::json_models(items@).map_values(|item: JsonModel| box_in(item)),
{
    let ghost models = json::json_models(items@);
    let ghost wanted = models.map_values(|item: JsonModel| box_in(item));
    let mut boxes: Vec<BoxValue> = Vec::new();
    for i in 0..items.len()
        invariant
            models == json::json_models(items@),
            wanted == models.map_values(|item: JsonModel| box_in(item)),
            boxes_view(boxes@) == wanted.take(i as int),
    {
        assert(models[i as int] == json::json_model(items@[i as int]));
        let ghost before = boxes@;
        boxes.push(read_box(&items[i]));
        assert(boxes_view(boxes@) =~= boxes_view(before).push(wanted[i as int]));
        assert(boxes_view(boxes@) =~= wanted.take(i + 1));
    }
    assert(boxes_view(boxes@) =~= wanted);
    boxes
}

fn find_list<'a>(value: &'a Value, key: &str) -> (r: Option<&'a Vec<Value>>)
    ensures
        r is Some <==> list_in(json::json_model(*value), key@) is Some,
        r matches Some(items) ==> list_in(json::json_model(*value), key@) == Some(
            json::json_models(items@),
        ),
{
    match json::get(value, key) {
        Some(found) => json::as_array(found),
        None => None,
    }
}

/// What a document says of the texts in a frame.
pub fn read_payload(value: &Value) -> (r: OcrPayload)
    ensures
        r@ == payload_of(json::json_model(*value)),
{
    OcrPayload {
        boxes: match find_list(value, "boxes") {
            Some(items) => Some(read_boxes(items)),
            None => None,
        },
        txts: match find_list(value, "txts") {
            Some(items) => Some(read_texts(items)),
            None => None,
        },
        scores: match find_list(value, "scores") {
            Some(items) => Some(read_numbers(items)),
            None => None,
        },
    }
}

/// Whether all points are single coordinates.
pub open spec fn are_numbers(points: Seq<PointModel>) -> bool {
    forall|i: int| 0 <= i < points.len() ==> #[trigger] points[i] is Number
}

/// Whether a point is a list whose first two are coordinates.
pub open spec fn is_corner(point: PointModel) -> bool {
    point matches PointModel::Array(numbers) && numbers.len() >= 2 && numbers[0] is Some
        && numbers[1] is Some
}

/// Whether all points are lists whose first two are coordinates.
pub open spec fn are_corners(points: Seq<PointModel>) -> bool {
    forall|i: int| 0 <= i < points.len() ==> is_corner(#[trigger] points[i])
}

/// The horizontal coordinates of some corners.
pub open spec fn xs_of(points: Seq<PointModel>) -> Seq<u64> {
    points.map_values(|point: PointModel| point->Array_0[0]->Some_0)
}

/// The vertical coordinates of some corners.
pub open spec fn ys_of(points: Seq<PointModel>) -> Seq<u64> {
    points.map_values(|point: PointModel| point->Array_0[1]->Some_0)
}

/// The rectangle that a box spans: that of two opposite corners, given by four coordinates, or the
/// one around some corners. Anything else spans none.
pub open spec fn bounds_of(item: Option<Seq<PointModel>>) -> Option<RectModel> {
    match item {
        None => None,
        Some(points) => if points.len() == 4 && are_numbers(points) {
            let x1 = points[0]->Number_0;
            let y1 = points[1]->Number_0;
            let x2 = points[2]->Number_0;
            let y2 = points[3]->Number_0;
            Some(
                RectModel {
                    x1: double::lesser(x1, x2),
                    y1: double::lesser(y1, y2),
                    x2: double::greater(x1, x2),
                    y2: double::greater(y1, y2),
                },
            )
        } else if points.len() > 0 && are_corners(points) {
            Some(
                RectModel {
                    x1: double::least(xs_of(points)),
                    y1: double::least(ys_of(points)),
                    x2: double::greatest(xs_of(points)),
                    y2: double::greatest(ys_of(points)),
                },
            )
        } else {
            None
        },
    }
}

/// The rectangle of four numbers, as they come.
pub open spec fn rect_of(bounds: Option<(Real, Real, Real, Real)>) -> Option<RectModel> {
    match bounds {
        Some((x1, y1, x2, y2)) => Some(RectModel { x1: x1@, y1: y1@, x2: x2@, y2: y2@ }),
        None => None,
    }
}

fn number_of(point: &PointValue) -> (r: Option<Real>)
    ensures
        match r {
            Some(number) => point@ == PointModel::Number(number@),
            None => !(point@ is Number),
        },
{
    match point {
        PointValue::Number(number) => Some(*number),
        _ => None,
    }
}

fn corner_of(point: &PointValue) -> (r: Option<(Real, Real)>)
    ensures
        r is Some <==> is_corner(point@),
        r matches Some((x, y)) ==> point@->Array_0[0] == Some(x@) && point@->Array_0[1] == Some(y@),
{
    match point {
        PointValue::Array(numbers) => {
            if numbers.len() >= 2 {
                assert(optional_bits(numbers@)[0] == match numbers@[0] {
                    Some(number) => Some(number@),
                    None => None,
                });
                assert(optional_bits(numbers@)[1] == match numbers@[1] {
                    Some(number) => Some(number@),
                    None => None,
                });
                match (numbers[0], numbers[1]) {
                    (Some(x), Some(y)) => Some((x, y)),
                    _ => None,
                }
            } else {
                None
            }
        },
        _ => None,
    }
}

/// The rectangle of two opposite corners, given by four coordinates.
fn flat_bounds(points: &Vec<PointValue>) -> (r: Option<(Real, Real, Real, Real)>)
    ensures
        r is Some <==> points@.len() == 4 && are_numbers(points_view(points@)),
        r is Some ==> rect_of(r) == bounds_of(Some(points_view(points@))),
{
    if points.len() != 4 {
        return None;
    }
    let ghost models = points_view(points@);
    assert(forall|i: int| 0 <= i < 4 ==> models[i] == #[trigger] points@[i]@);
    match (
        number_of(&points[0]),
        number_of(&points[1]),
        number_of(&points[2]),
        number_of(&points[3]),
    ) {
        (Some(x1), Some(y1), Some(x2), Some(y2)) => {
            assert(are_numbers(models));
            Some((x1.min(x2), y1.min(y2), x1.max(x2), y1.max(y2)))
        },
        _ => {
            assert(!(models[0] is Number && models[1] is Number && models[2] is Number
                && models[3] is Number));
            None
        },
    }
}

/// The rectangle that a box spans.
pub fn rapidocr_box_bounds(value: &BoxValue) -> (r: Option<(Real, Real, Real, Real)>)
    ensures
        rect_of(r) == bounds_of(value@),
{
    let points = match value {
        BoxValue::Array(points) => points,
        BoxValue::Other => {
            return None;
        },
    };
    let ghost models = points_view(points@);
    let flat = flat_bounds(points);
    if flat.is_some() {
        return flat;
    }
    let mut xs: Vec<Real> = Vec::new();
    let mut ys: Vec<Real> = Vec::new();
    for i in 0..points.len()
        invariant
            value@ == Some(models),
            models == points_view(points@),
            !(models.len() == 4 && are_numbers(models)),
            forall|j: int| 0 <= j < i ==> is_corner(#[trigger] models[j]),
            double::bit_patterns(xs@) == xs_of(models).take(i as int),
            double::bit_patterns(ys@) == ys_of(models).take(i as int),
    {
        assert(models[i as int] == points@[i as int]@);
        match corner_of(&points[i]) {
            Some((x, y)) => {
                let ghost before_xs = xs@;
                let ghost before_ys = ys@;
                xs.push(x);
                ys.push(y);
                assert(double::bit_patterns(xs@) =~= double::bit_patterns(before_xs).push(x@));
                assert(double::bit_patterns(ys@) =~= double::bit_patterns(before_ys).push(y@));
                assert(double::bit_patterns(xs@) =~= xs_of(models).take(i + 1));
                assert(double::bit_patterns(ys@) =~= ys_of(models).take(i + 1));
            },
            None => {
                assert(!is_corner(models[i as int]));
                return None;
            },
        }
    }
    assert(are_corners(models));
    assert(double::bit_patterns(xs@) =~= xs_of(models));
    assert(double::bit_patterns(ys@) =~= ys_of(models));
    assert(double::bit_patterns(xs@).len() == xs@.len());
    assert(double::bit_patterns(ys@).len() == ys@.len());
    if xs.len() == 0 {
        return None;
    }
    Some(
        (
            double::least_of(&xs),
            double::least_of(&ys),
            double::greatest_of(&xs),
            double::greatest_of(&ys),
        ),
    )
}

/// How sure the backend is of a text: its score, kept between zero and one, and zero where there is
/// none.
pub open spec fn score_of(scores: Option<Seq<Option<u64>>>, index: int) -> u64 {
    match scores {
        Some(scores) => if index < scores.len() && scores[index] is Some {
            double::clamped(scores[index]->Some_0, 0, double::ONE_BITS)
        } else {
            0
        },
        None => 0,
    }
}

/// What a payload says of one of its texts: nothing, where the text is blank or its box is missing
/// or spans no rectangle.
pub open spec fn observation_at(
    boxes: Seq<Option<Seq<PointModel>>>,
    txts: Seq<Option<Seq<char>>>,
    scores: Option<Seq<Option<u64>>>,
    image_width: u32,
    image_height: u32,
    index: int,
) -> Option<ObservationModel> {
    if txts[index] is None || text::trimmed(txts[index]->Some_0).len() == 0 || index
        >= boxes.len() {
        None
    } else {
        match bounds_of(boxes[index]) {
            None => None,
            Some(rect) => Some(
                observation::observation_of_rect(
                    rect,
                    image_width,
                    image_height,
                    text::trimmed(txts[index]->Some_0),
                    score_of(scores, index),
                ),
            ),
        }
    }
}

/// What a payload says of its first texts.
pub open spec fn observations_up_to(
    boxes: Seq<Option<Seq<PointModel>>>,
    txts: Seq<Option<Seq<char>>>,
    scores: Option<Seq<Option<u64>>>,
    image_width: u32,
    image_height: u32,
    count: int,
) -> Seq<ObservationModel>
    decreases count,
{
    if count <= 0 {
        Seq::empty()
    } else {
        let before = observations_up_to(
            boxes,
            txts,
            scores,
            image_width,
            image_height,
            count - 1,
        );
        match observation_at(boxes, txts, scores, image_width, image_height, count - 1) {
            Some(seen) => before.push(seen),
            None => before,
        }
    }
}

/// What a payload says of the texts in a frame.
pub open spec fn observations_in(
    payload: PayloadModel,
    image_width: u32,
    image_height: u32,
) -> Result<Seq<ObservationModel>, OcrError> {
    if payload.boxes is None {
        Err(OcrError::MissingBoxes)
    } else if payload.txts is None {
        Err(OcrError::MissingTexts)
    } else {
        Ok(
            observations_up_to(
                payload.boxes->Some_0,
                payload.txts->Some_0,
                payload.scores,
                image_width,
                image_height,
                payload.txts->Some_0.len() as int,
            ),
        )
    }
}

/// A result of observations, those taken by their views.
pub open spec fn result_view(r: Result<Vec<OcrObservation>, OcrError>) -> Result<
    Seq<ObservationModel>,
    OcrError,
> {
    match r {
        Ok(observations) => Ok(observation::observations_view(observations@)),
        Err(error) => Err(error),
    }
}

/// Whether the pixels of all observations lie in the frame, where that has an extent.
pub open spec fn are_in_frame(
    seen: Seq<ObservationModel>,
    image_width: u32,
    image_height: u32,
) -> bool {
    forall|i: int|
        0 <= i < seen.len() ==> observation::is_in_frame(
            #[trigger] seen[i],
            image_width,
            image_height,
        )
}

fn read_score(scores: &Option<Vec<Option<Real>>>, index: usize) -> (r: Real)
    ensures
        r@ == score_of(
            match *scores {
                Some(scores) => Some(optional_bits(scores@)),
                None => None,
            },
            index as int,
        ),
{
    match scores {
        Some(scores) => {
            if index < scores.len() {
                assert(optional_bits(scores@)[index as int] == match scores@[index as int] {
                    Some(number) => Some(number@),
                    None => None,
                });
                match scores[index] {
                    Some(score) => score.clamp(Real::zero(), Real::one()),
                    None => Real::zero(),
                }
            } else {
                Real::zero()
            }
        },
        None => Real::zero(),
    }
}

/// What a payload says of one of its texts.
fn observe(
    boxes: &Vec<BoxValue>,
    txts: &Vec<Option<String>>,
    scores: &Option<Vec<Option<Real>>>,
    image_width: u32,
    image_height: u32,
    index: usize,
) -> (r: Option<OcrObservation>)
    requires
        index < txts@.len(),
    ensures
        match r {
            Some(seen) => Some(seen@),
            None => None,
        } == observation_at(
            boxes_view(boxes@),
            optional_texts(txts@),
            match *scores {
                Some(scores) => Some(optional_bits(scores@)),
                None => None,
            },
            image_width,
            image_height,
            index as int,
        ),
        r matches Some(seen) ==> observation::is_in_frame(seen@, image_width, image_height),
{
    assert(optional_texts(txts@)[index as int] == text::option_view(txts@[index as int]));
    let trimmed = match &txts[index] {
        Some(found) => text::trim(found.as_str()),
        None => {
            return None;
        },
    };
    if trimmed.as_str().is_empty() {
        return None;
    }
    if index >= boxes.len() {
        return None;
    }
    assert(boxes_view(boxes@)[index as int] == boxes@[index as int]@);
    match rapidocr_box_bounds(&boxes[index]) {
        Some((x1, y1, x2, y2)) => {
            let confidence = read_score(scores, index);
            Some(
                observation::observation_from_rect(
                    x1,
                    y1,
                    x2,
                    y2,
                    image_width,
                    image_height,
                    trimmed.as_str(),
                    confidence,
                ),
            )
        },
        None => None,
    }
}

/// What a payload says of the texts in a frame.
pub fn observations_from_payload(payload: &OcrPayload, image_width: u32, image_height: u32) -> (r:
    Result<Vec<OcrObservation>, OcrError>)
    ensures
        result_view(r) == observations_in(payload@, image_width, image_height),
        r matches Ok(observations) ==> are_in_frame(
            observation::observations_view(observations@),
            image_width,
            image_height,
        ),
{
    let boxes = match &payload.boxes {
        Some(boxes) => boxes,
        None => {
            return Err(OcrError::MissingBoxes);
        },
    };
    let txts = match &payload.txts {
        Some(txts) => txts,
        None => {
            return Err(OcrError::MissingTexts);
        },
    };
    let ghost model = payload@;
    let mut observations: Vec<OcrObservation> = Vec::new();
    assert(observation::observations_view(observations@) =~= Seq::empty());
    for index in 0..txts.len()
        invariant
            model == payload@,
            model.boxes == Some(boxes_view(boxes@)),
            model.txts == Some(optional_texts(txts@)),
            observation::observations_view(observations@) == observations_up_to(
                boxes_view(boxes@),
                optional_texts(txts@),
                model.scores,
                image_width,
                image_height,
                index as int,
            ),
            are_in_frame(
                observation::observations_view(observations@),
                image_width,
                image_height,
            ),
    {
        let ghost before = observations@;
        if let Some(seen) = observe(
            boxes,
            txts,
            &payload.scores,
            image_width,
            image_height,
            index,
        ) {
            observations.push(seen);
            assert(observation::observations_view(observations@)
                =~= observation::observations_view(before).push(seen@));
        }
    }
    Ok(observations)
}

/// What a document says of the texts in a frame.
pub fn observations_from_rapidocr_json(payload: &Value, image_width: u32, image_height: u32) -> (r:
    Result<Vec<OcrObservation>, OcrError>)
    ensures
        result_view(r) == observations_in(
            payload_of(json::json_model(*payload)),
            image_width,
            image_height,
        ),
        r matches Ok(observations) ==> are_in_frame(
            observation::observations_view(observations@),
            image_width,
            image_height,
        ),
{
    let payload = read_payload(payload);
    observations_from_payload(&payload, image_width, image_height)
}

/// A payload is found where a line starts with the prefix, and it is what follows the prefix in the
/// last such line.
pub proof fn law_payload_is_in_last_line(lines: Seq<Seq<char>>, prefix: Seq<char>)
    ensures
        match last_with_prefix(lines, prefix) {
            Some(rest) => exists|i: int|
                0 <= i < lines.len() && #[trigger] lines[i] == prefix + rest && forall|j: int|
                    i < j < lines.len() ==> !prefix.is_prefix_of(#[trigger] lines[j]),
            None => forall|j: int|
                0 <= j < lines.len() ==> !prefix.is_prefix_of(#[trigger] lines[j]),
        },
    decreases lines.len(),
{
    if lines.len() > 0 {
        let line = lines.last();
        match text::after_prefix(line, prefix) {
            Some(rest) => {
                assert(line =~= prefix + rest);
                assert(lines[lines.len() - 1] == prefix + rest);
            },
            None => {
                law_payload_is_in_last_line(lines.drop_last(), prefix);
                assert(!prefix.is_prefix_of(line)) by {
                    if prefix.is_prefix_of(line) {
                        assert(line.take(prefix.len() as int) =~= prefix);
                    }
                }
                if let Some(rest) = last_with_prefix(lines.drop_last(), prefix) {
                    let i = choose|i: int|
                        0 <= i < lines.drop_last().len() && #[trigger] lines.drop_last()[i]
                            == prefix + rest && forall|j: int|
                            i < j < lines.drop_last().len() ==> !prefix.is_prefix_of(
                                #[trigger] lines.drop_last()[j],
                            );
                    assert(lines[i] == prefix + rest);
                    assert forall|j: int| i < j < lines.len() implies !prefix.is_prefix_of(
                        #[trigger] lines[j],
                    ) by {
                        if j < lines.len() - 1 {
                            assert(lines.drop_last()[j] == lines[j]);
                        }
                    }
                } else {
                    assert forall|j: int| 0 <= j < lines.len() implies !prefix.is_prefix_of(
                        #[trigger] lines[j],
                    ) by {
                        if j < lines.len() - 1 {
                            assert(lines.drop_last()[j] == lines[j]);
                        }
                    }
                }
            },
        }
    }
}

/// The rectangle that a box spans has its left side left of its right side and its top above its
/// bottom.
pub proof fn law_bounds_are_ordered(item: Option<Seq<PointModel>>)
    ensures
        bounds_of(item) matches Some(rect) ==> double::key(rect.x1) <= double::key(rect.x2)
            && double::key(rect.y1) <= double::key(rect.y2),
{
    if let Some(points) = item {
        if points.len() > 0 && are_corners(points) {
            double::law_least_and_greatest(xs_of(points));
            double::law_least_and_greatest(ys_of(points));
            assert(xs_of(points)[0] == xs_of(points)[0]);
            assert(ys_of(points)[0] == ys_of(points)[0]);
        }
    }
}

/// Every corner of a box lies in the rectangle that the box spans.
pub proof fn law_bounds_cover_corners(points: Seq<PointModel>, i: int)
    requires
        are_corners(points),
        0 <= i < points.len(),
    ensures
        bounds_of(Some(points)) is Some,
        ({
            let rect = bounds_of(Some(points))->Some_0;
            let x = points[i]->Array_0[0]->Some_0;
            let y = points[i]->Array_0[1]->Some_0;
            &&& double::key(rect.x1) <= double::key(x) <= double::key(rect.x2)
            &&& double::key(rect.y1) <= double::key(y) <= double::key(rect.y2)
        }),
{
    assert(points[0] is Array);
    double::law_least_and_greatest(xs_of(points));
    double::law_least_and_greatest(ys_of(points));
    assert(xs_of(points)[i] == points[i]->Array_0[0]->Some_0);
    assert(ys_of(points)[i] == points[i]->Array_0[1]->Some_0);
}

/// What a payload says of a frame has a text, and that text is one of the payload's without the
/// white space around it.
pub proof fn law_observed_text_is_in_payload(
    boxes: Seq<Option<Seq<PointModel>>>,
    txts: Seq<Option<Seq<char>>>,
    scores: Option<Seq<Option<u64>>>,
    image_width: u32,
    image_height: u32,
    count: int,
    i: int,
)
    requires
        count <= txts.len(),
        0 <= i < observations_up_to(
            boxes,
            txts,
            scores,
            image_width,
            image_height,
            count,
        ).len(),
    ensures
        ({
            let seen = observations_up_to(boxes, txts, scores, image_width, image_height, count)[i];
            &&& seen.normalized_text.len() > 0
            &&& exists|j: int|
                0 <= j < count && #[trigger] txts[j] is Some && seen.normalized_text
                    == text::trimmed(txts[j]->Some_0)
        }),
    decreases count,
{
    if count > 0 {
        let before = observations_up_to(
            boxes,
            txts,
            scores,
            image_width,
            image_height,
            count - 1,
        );
        if i < before.len() {
            law_observed_text_is_in_payload(
                boxes,
                txts,
                scores,
                image_width,
                image_height,
                count - 1,
                i,
            );
        } else {
            assert(txts[count - 1] is Some);
        }
    }
}

/// Whether the coordinates of a point are finite.
pub open spec fn is_finite_point(point: PointModel) -> bool {
    match point {
        PointModel::Number(bits) => double::is_finite_bits(bits),
        PointModel::Array(numbers) => forall|i: int|
            0 <= i < numbers.len() && #[trigger] numbers[i] is Some ==> double::is_finite_bits(
                numbers[i]->Some_0,
            ),
        PointModel::Other => true,
    }
}

/// Whether the coordinates of a box are finite.
pub open spec fn is_finite_box(item: Option<Seq<PointModel>>) -> bool {
    item matches Some(points) ==> forall|i: int|
        0 <= i < points.len() ==> is_finite_point(#[trigger] points[i])
}

proof fn lemma_bounds_are_finite(item: Option<Seq<PointModel>>)
    requires
        is_finite_box(item),
    ensures
        bounds_of(item) matches Some(rect) ==> {
            &&& double::is_finite_bits(rect.x1)
            &&& double::is_finite_bits(rect.y1)
            &&& double::is_finite_bits(rect.x2)
            &&& double::is_finite_bits(rect.y2)
        },
{
    if let Some(points) = item {
        if points.len() == 4 && are_numbers(points) {
            assert(is_finite_point(points[0]) && is_finite_point(points[1]) && is_finite_point(
                points[2],
            ) && is_finite_point(points[3]));
            assert(points[0] is Number && points[1] is Number && points[2] is Number
                && points[3] is Number);
        } else if points.len() > 0 && are_corners(points) {
            let xs = xs_of(points);
            let ys = ys_of(points);
            assert forall|i: int| 0 <= i < points.len() implies double::is_finite_bits(
                #[trigger] xs[i],
            ) && double::is_finite_bits(ys[i]) by {
                assert(is_finite_point(points[i]) && is_corner(points[i]));
                assert(points[i]->Array_0[0] is Some && points[i]->Array_0[1] is Some);
            }
            double::law_least_and_greatest(xs);
            double::law_least_and_greatest(ys);
            let i = choose|i: int| 0 <= i < ys.len() && ys[i] == double::least(ys);
            let j = choose|j: int| 0 <= j < ys.len() && ys[j] == double::greatest(ys);
            assert(double::is_finite_bits(xs[i]) && double::is_finite_bits(xs[j]));
        }
    }
}

/// The pixels of what a payload says lie in the frame.
pub proof fn law_observed_pixels_lie_in_frame(
    boxes: Seq<Option<Seq<PointModel>>>,
    txts: Seq<Option<Seq<char>>>,
    scores: Option<Seq<Option<u64>>>,
    image_width: u32,
    image_height: u32,
    count: int,
)
    requires
        forall|j: int| 0 <= j < boxes.len() ==> is_finite_box(#[trigger] boxes[j]),
    ensures
        are_in_frame(
            observations_up_to(boxes, txts, scores, image_width, image_height, count),
            image_width,
            image_height,
        ),
    decreases count,
{
    if count > 0 {
        let index = count - 1;
        law_observed_pixels_lie_in_frame(
            boxes,
            txts,
            scores,
            image_width,
            image_height,
            count - 1,
        );
        if observation_at(boxes, txts, scores, image_width, image_height, index) is Some {
            lemma_bounds_are_finite(boxes[index]);
            observation::law_pixels_lie_in_frame(
                bounds_of(boxes[index])->Some_0,
                image_width,
                image_height,
                text::trimmed(txts[index]->Some_0),
                score_of(scores, index),
            );
        }
    }
}

/// The score of a text lies between zero and one.
pub proof fn law_score_between_zero_and_one(scores: Option<Seq<Option<u64>>>, index: int)
    ensures
        0 <= double::key(score_of(scores, index)) <= double::key(double::ONE_BITS),
{
}

/// What is seen at a position is made of the text, the box and the score at that very position: the
/// text without the white space around it, the score itself where it lies between zero and one, the
/// nearer of the two where it does not, and zero where there is none. Nothing is seen exactly where
/// the text is missing or blank or the box is missing or spans no rectangle.
pub proof fn law_seen_text_box_and_score_share_a_position(
    boxes: Seq<Option<Seq<PointModel>>>,
    txts: Seq<Option<Seq<char>>>,
    scores: Option<Seq<Option<u64>>>,
    image_width: u32,
    image_height: u32,
    j: int,
)
    requires
        0 <= j < txts.len(),
    ensures
        ({
            let seen = observation_at(boxes, txts, scores, image_width, image_height, j);
            let score = if scores is Some && j < scores->Some_0.len() {
                scores->Some_0[j]
            } else {
                None
            };
            &&& seen is Some <==> txts[j] is Some && !text::is_blank_text(txts[j]->Some_0) && j
                < boxes.len() && bounds_of(boxes[j]) is Some
            &&& seen matches Some(seen) ==> {
                let placed = observation::observation_of_rect(
                    bounds_of(boxes[j])->Some_0,
                    image_width,
                    image_height,
                    Seq::empty(),
                    0,
                );
                &&& seen.normalized_text == text::trimmed(txts[j]->Some_0)
                &&& seen.top_candidates.len() == 1
                &&& seen.top_candidates[0].text == text::trimmed(txts[j]->Some_0)
                &&& seen.pixel_bounding_box == placed.pixel_bounding_box
                &&& seen.bounding_box == placed.bounding_box
                &&& seen.top_candidates[0].confidence matches ConfidenceModel::Score(bits) && {
                    &&& score is None ==> bits == 0
                    &&& score matches Some(given) ==> {
                        &&& 0 <= double::key(given) <= double::key(double::ONE_BITS) ==> bits
                            == given
                        &&& double::key(given) < 0 ==> bits == 0
                        &&& double::key(given) > double::key(double::ONE_BITS) ==> bits
                            == double::ONE_BITS
                    }
                }
            }
        }),
{
    if txts[j] is Some {
        text::law_trimmed_empty_iff_blank(txts[j]->Some_0);
    }
    assert(double::key(0) == 0 && double::key(double::ONE_BITS) == double::ONE_BITS);
}

/// What the payload says at other positions does not matter for what is seen at one.
pub proof fn law_other_positions_do_not_matter(
    boxes: Seq<Option<Seq<PointModel>>>,
    txts: Seq<Option<Seq<char>>>,
    scores: Seq<Option<u64>>,
    other_boxes: Seq<Option<Seq<PointModel>>>,
    other_txts: Seq<Option<Seq<char>>>,
    other_scores: Seq<Option<u64>>,
    image_width: u32,
    image_height: u32,
    j: int,
)
    requires
        0 <= j < txts.len(),
        j < boxes.len(),
        j < scores.len(),
        j < other_txts.len(),
        j < other_boxes.len(),
        j < other_scores.len(),
        txts[j] == other_txts[j],
        boxes[j] == other_boxes[j],
        scores[j] == other_scores[j],
    ensures
        observation_at(boxes, txts, Some(scores), image_width, image_height, j) == observation_at(
            other_boxes,
            other_txts,
            Some(other_scores),
            image_width,
            image_height,
            j,
        ),
{
}

/// Two different scores between zero and one at a position give two different confidences.
pub proof fn law_scores_are_told_apart(
    boxes: Seq<Option<Seq<PointModel>>>,
    txts: Seq<Option<Seq<char>>>,
    scores: Seq<Option<u64>>,
    score: u64,
    image_width: u32,
    image_height: u32,
    j: int,
)
    requires
        0 <= j < txts.len(),
        j < scores.len(),
        0 <= double::key(score) <= double::key(double::ONE_BITS),
    ensures
        observation_at(
            boxes,
            txts,
            Some(scores.update(j, Some(score))),
            image_width,
            image_height,
            j,
        ) matches Some(seen) ==> seen.top_candidates[0].confidence == ConfidenceModel::Score(score),
{
    law_seen_text_box_and_score_share_a_position(
        boxes,
        txts,
        Some(scores.update(j, Some(score))),
        image_width,
        image_height,
        j,
    );
}

/// What is found at the first positions, in their order.
spec fn found_up_to(look: spec_fn(int) -> Option<ObservationModel>, count: int) -> Seq<
    ObservationModel,
>
    decreases count,
{
    if count <= 0 {
        Seq::empty()
    } else {
        match look(count - 1) {
            Some(seen) => found_up_to(look, count - 1).push(seen),
            None => found_up_to(look, count - 1),
        }
    }
}

proof fn lemma_found_positions(
    look: spec_fn(int) -> Option<ObservationModel>,
    count: int,
) -> (at: Seq<int>)
    requires
        0 <= count,
    ensures
        at.len() == found_up_to(look, count).len(),
        forall|i: int|
            0 <= i < at.len() ==> 0 <= #[trigger] at[i] < count && look(at[i]) == Some(
                found_up_to(look, count)[i],
            ),
        forall|i: int, k: int| 0 <= i < k < at.len() ==> #[trigger] at[i] < #[trigger] at[k],
        forall|p: int| 0 <= p < count && #[trigger] look(p) is Some ==> at.contains(p),
    decreases count,
{
    if count == 0 {
        Seq::empty()
    } else {
        let last = count - 1;
        let before = lemma_found_positions(look, last);
        let at = if look(last) is Some {
            before.push(last)
        } else {
            before
        };
        assert forall|p: int| 0 <= p < count && #[trigger] look(p) is Some implies at.contains(
            p,
        ) by {
            if p < last {
                assert(before.contains(p));
                let i = choose|i: int| 0 <= i < before.len() && before[i] == p;
                assert(at[i] == p);
            } else {
                assert(at[at.len() - 1] == p);
            }
        }
        at
    }
}

proof fn lemma_observations_are_found(
    boxes: Seq<Option<Seq<PointModel>>>,
    txts: Seq<Option<Seq<char>>>,
    scores: Option<Seq<Option<u64>>>,
    image_width: u32,
    image_height: u32,
    count: int,
)
    ensures
        observations_up_to(boxes, txts, scores, image_width, image_height, count) == found_up_to(
            |p: int| observation_at(boxes, txts, scores, image_width, image_height, p),
            count,
        ),
    decreases count,
{
    if count > 0 {
        lemma_observations_are_found(boxes, txts, scores, image_width, image_height, count - 1);
    }
}

proof fn lemma_seen_positions(
    boxes: Seq<Option<Seq<PointModel>>>,
    txts: Seq<Option<Seq<char>>>,
    scores: Option<Seq<Option<u64>>>,
    image_width: u32,
    image_height: u32,
    count: int,
) -> (at: Seq<int>)
    requires
        0 <= count,
    ensures
        is_seen_at(
            observations_up_to(boxes, txts, scores, image_width, image_height, count),
            at,
            boxes,
            txts,
            scores,
            image_width,
            image_height,
            count,
        ),
{
    let look = |p: int| observation_at(boxes, txts, scores, image_width, image_height, p);
    lemma_observations_are_found(boxes, txts, scores, image_width, image_height, count);
    let at = lemma_found_positions(look, count);
    assert forall|p: int|
        0 <= p < count && #[trigger] observation_at(
            boxes,
            txts,
            scores,
            image_width,
            image_height,
            p,
        ) is Some implies at.contains(p) by {
        assert(look(p) is Some);
    }
    at
}

/// Whether some observations are those seen at given positions, in their order, and at no other
/// position anything is seen.
pub open spec fn is_seen_at(
    seen: Seq<ObservationModel>,
    at: Seq<int>,
    boxes: Seq<Option<Seq<PointModel>>>,
    txts: Seq<Option<Seq<char>>>,
    scores: Option<Seq<Option<u64>>>,
    image_width: u32,
    image_height: u32,
    count: int,
) -> bool {
    &&& at.len() == seen.len()
    &&& forall|i: int|
        0 <= i < at.len() ==> 0 <= #[trigger] at[i] < count && observation_at(
            boxes,
            txts,
            scores,
            image_width,
            image_height,
            at[i],
        ) == Some(seen[i])
    &&& forall|i: int, k: int| 0 <= i < k < at.len() ==> #[trigger] at[i] < #[trigger] at[k]
    &&& forall|p: int|
        0 <= p < count && #[trigger] observation_at(
            boxes,
            txts,
            scores,
            image_width,
            image_height,
            p,
        ) is Some ==> at.contains(p)
}

/// A payload with boxes and texts gives what is seen at its positions, each once and in their order.
/// Without boxes, whatever else it lacks, it is an error that they are missing; with boxes but
/// without texts, that the texts are.
pub proof fn law_payload_gives_what_is_seen(
    payload: PayloadModel,
    image_width: u32,
    image_height: u32,
)
    ensures
        payload.boxes is None ==> observations_in(payload, image_width, image_height) == Err::<
            Seq<ObservationModel>,
            OcrError,
        >(OcrError::MissingBoxes),
        payload.boxes is Some && payload.txts is None ==> observations_in(
            payload,
            image_width,
            image_height,
        ) == Err::<Seq<ObservationModel>, OcrError>(OcrError::MissingTexts),
        payload.boxes is Some && payload.txts is Some ==> (observations_in(
            payload,
            image_width,
            image_height,
        ) matches Ok(seen) && exists|at: Seq<int>|
            #[trigger] is_seen_at(
                seen,
                at,
                payload.boxes->Some_0,
                payload.txts->Some_0,
                payload.scores,
                image_width,
                image_height,
                payload.txts->Some_0.len() as int,
            )),
{
    if payload.boxes is Some && payload.txts is Some {
        let at = lemma_seen_positions(
            payload.boxes->Some_0,
            payload.txts->Some_0,
            payload.scores,
            image_width,
            image_height,
            payload.txts->Some_0.len() as int,
        );
        let seen = observations_in(payload, image_width, image_height)->Ok_0;
        assert(is_seen_at(
            seen,
            at,
            payload.boxes->Some_0,
            payload.txts->Some_0,
            payload.scores,
            image_width,
            image_height,
            payload.txts->Some_0.len() as int,
        ));
    }
}

/// Four coordinates are two opposite corners: the first and the third are horizontal, the second and
/// the fourth vertical, and the rectangle runs from the smaller to the larger of each pair.
pub proof fn law_four_coordinates_are_two_corners(a: u64, b: u64, c: u64, d: u64)
    ensures
        ({
            let points = seq![
                PointModel::Number(a),
                PointModel::Number(b),
                PointModel::Number(c),
                PointModel::Number(d),
            ];
            bounds_of(Some(points)) matches Some(rect) && {
                &&& double::key(a) <= double::key(c) ==> double::key(rect.x1) == double::key(a)
                    && double::key(rect.x2) == double::key(c)
                &&& double::key(c) <= double::key(a) ==> double::key(rect.x1) == double::key(c)
                    && double::key(rect.x2) == double::key(a)
                &&& double::key(b) <= double::key(d) ==> double::key(rect.y1) == double::key(b)
                    && double::key(rect.y2) == double::key(d)
                &&& double::key(d) <= double::key(b) ==> double::key(rect.y1) == double::key(d)
                    && double::key(rect.y2) == double::key(b)
                &&& rect.x1 == a || rect.x1 == c
                &&& rect.x2 == a || rect.x2 == c
                &&& rect.y1 == b || rect.y1 == d
                &&& rect.y2 == b || rect.y2 == d
            }
        }),
{
    let points = seq![
        PointModel::Number(a),
        PointModel::Number(b),
        PointModel::Number(c),
        PointModel::Number(d),
    ];
    assert(are_numbers(points));
}

/// No smaller rectangle holds the corners of a box: its vertical sides go through the horizontal
/// coordinate of a corner, and its horizontal sides through the vertical one.
pub proof fn law_bounds_are_tight(points: Seq<PointModel>)
    requires
        are_corners(points),
        points.len() > 0,
    ensures
        bounds_of(Some(points)) matches Some(rect) && {
            &&& exists|i: int|
                0 <= i < points.len() && (#[trigger] points[i])->Array_0[0] == Some(rect.x1)
            &&& exists|i: int|
                0 <= i < points.len() && (#[trigger] points[i])->Array_0[1] == Some(rect.y1)
            &&& exists|i: int|
                0 <= i < points.len() && (#[trigger] points[i])->Array_0[0] == Some(rect.x2)
            &&& exists|i: int|
                0 <= i < points.len() && (#[trigger] points[i])->Array_0[1] == Some(rect.y2)
        },
{
    assert(points[0] is Array);
    let xs = xs_of(points);
    let ys = ys_of(points);
    double::law_least_and_greatest(xs);
    double::law_least_and_greatest(ys);
    let a = choose|i: int| 0 <= i < xs.len() && xs[i] == double::least(xs);
    let b = choose|i: int| 0 <= i < ys.len() && ys[i] == double::least(ys);
    let c = choose|i: int| 0 <= i < xs.len() && xs[i] == double::greatest(xs);
    let d = choose|i: int| 0 <= i < ys.len() && ys[i] == double::greatest(ys);
    assert(is_corner(points[a]) && is_corner(points[b]) && is_corner(points[c]) && is_corner(
        points[d],
    ));
}

/// A box spans a rectangle exactly where it is a list of four coordinates, or a list that is not
/// empty of lists that each begin with two.
pub proof fn law_box_spans_rectangle_or_nothing(item: Option<Seq<PointModel>>)
    ensures
        bounds_of(item) is Some <==> (item matches Some(points) && ((points.len() == 4 && forall|
            i: int,
        |
            0 <= i < points.len() ==> (#[trigger] points[i]) is Number) || (points.len() > 0
            && forall|i: int|
            0 <= i < points.len() ==> (#[trigger] points[i] matches PointModel::Array(numbers)
                && numbers.len() >= 2 && numbers[0] is Some && numbers[1] is Some)))),
{
    if let Some(points) = item {
        assert(are_numbers(points) <==> forall|i: int|
            0 <= i < points.len() ==> (#[trigger] points[i]) is Number);
        assert(are_corners(points) <==> forall|i: int|
            0 <= i < points.len() ==> (#[trigger] points[i] matches PointModel::Array(numbers)
                && numbers.len() >= 2 && numbers[0] is Some && numbers[1] is Some));
    }
}

/// The texts of a payload are the strings of the list `txts` of the document, each at its position.
pub proof fn law_texts_are_read_from_txts(document: JsonModel, items: Seq<JsonModel>, i: int)
    requires
        json::member(document, "txts"@) == Some(JsonModel::Array(items)),
        0 <= i < items.len(),
    ensures
        payload_of(document).txts matches Some(txts) && txts.len() == items.len() && match items[i] {
            JsonModel::Text(text) => txts[i] == Some(text),
            _ => txts[i] is None,
        },
{
}

/// The scores of a payload are the numbers of the list `scores` of the document, each at its position.
pub proof fn law_scores_are_read_from_scores(document: JsonModel, items: Seq<JsonModel>, i: int)
    requires
        json::member(document, "scores"@) == Some(JsonModel::Array(items)),
        0 <= i < items.len(),
    ensures
        payload_of(document).scores matches Some(scores) && scores.len() == items.len()
            && match items[i] {
            JsonModel::Number(number) => scores[i] == Some(json::number_bits(number)),
            _ => scores[i] is None,
        },
{
}

/// The boxes of a payload are the lists in the list `boxes` of the document, each at its position,
/// with their items at theirs: a number is a coordinate, a list has the numbers in it.
pub proof fn law_boxes_are_read_from_boxes(
    document: JsonModel,
    items: Seq<JsonModel>,
    i: int,
    k: int,
    n: int,
)
    requires
        json::member(document, "boxes"@) == Some(JsonModel::Array(items)),
        0 <= i < items.len(),
    ensures
        payload_of(document).boxes matches Some(boxes) && boxes.len() == items.len()
            && match items[i] {
            JsonModel::Array(points) => boxes[i] matches Some(read) && read.len() == points.len()
                && (0 <= k < points.len() ==> match points[k] {
                JsonModel::Number(number) => read[k] == PointModel::Number(
                    json::number_bits(number),
                ),
                JsonModel::Array(coordinates) => read[k] matches PointModel::Array(numbers)
                    && numbers.len() == coordinates.len() && (0 <= n < coordinates.len()
                    ==> match coordinates[n] {
                    JsonModel::Number(number) => numbers[n] == Some(json::number_bits(number)),
                    _ => numbers[n] is None,
                }),
                _ => read[k] == PointModel::Other,
            }),
            _ => boxes[i] is None,
        },
{
}

/// What a document lacks, or holds as anything but a list, its payload lacks.
pub proof fn law_payload_lacks_what_document_lacks(document: JsonModel)
    ensures
        payload_of(document).boxes is Some <==> json::member(document, "boxes"@) matches Some(
            JsonModel::Array(_),
        ),
        payload_of(document).txts is Some <==> json::member(document, "txts"@) matches Some(
            JsonModel::Array(_),
        ),
        payload_of(document).scores is Some <==> json::member(document, "scores"@) matches Some(
            JsonModel::Array(_),
        ),
{
}

proof fn lemma_last_with_prefix_in_front(line: Seq<char>, lines: Seq<Seq<char>>, prefix: Seq<char>)
    ensures
        last_with_prefix(seq![line] + lines, prefix) == match last_with_prefix(lines, prefix) {
            Some(rest) => Some(rest),
            None => text::after_prefix(line, prefix),
        },
    decreases lines.len(),
{
    let all = seq![line] + lines;
    if lines.len() == 0 {
        assert(all.drop_last() =~= Seq::empty());
        assert(last_with_prefix(all.drop_last(), prefix) is None);
    } else {
        assert(all.last() == lines.last());
        assert(all.drop_last() =~= seq![line] + lines.drop_last());
        lemma_last_with_prefix_in_front(line, lines.drop_last(), prefix);
    }
}

/// A line in front of an output matters only where the output itself holds no payload: then the
/// payload is what follows the prefix in that line, without the carriage return at its end. An output
/// of one line without an end holds what follows the prefix in it, to its last character, and an empty
/// output holds nothing.
pub proof fn law_later_payload_comes_first(
    line: Seq<char>,
    rest: Seq<char>,
    prefix: Seq<char>,
)
    requires
        !line.contains('\n'),
        prefix.len() > 0,
    ensures
        payload_in(line, prefix) == text::after_prefix(line, prefix),
        payload_in(rest, prefix) is Some ==> payload_in(line + seq!['\n'] + rest, prefix)
            == payload_in(rest, prefix),
        payload_in(rest, prefix) is None ==> payload_in(line + seq!['\n'] + rest, prefix)
            == text::after_prefix(
            if line.len() > 0 && line.last() == '\r' {
                line.drop_last()
            } else {
                line
            },
            prefix,
        ),
{
    text::law_lines_end_at_line_feeds(line, rest);
    lemma_last_with_prefix_in_front(line, Seq::empty(), prefix);
    assert(seq![line] + Seq::<Seq<char>>::empty() =~= seq![line]);
    lemma_last_with_prefix_in_front(
        if line.len() > 0 && line.last() == '\r' {
            line.drop_last()
        } else {
            line
        },
        text::lines_of(rest),
        prefix,
    );
}

/// What stands behind the mark of a Python backend is the payload of that backend and of no other.
pub proof fn law_payload_stands_behind_its_mark(document: Seq<char>)
    requires
        !document.contains('\n'),
    ensures
        payload_in("__CODEX_RAPIDOCR_JSON__"@ + document, RAPIDOCR_JSON_PREFIX@) == Some(document),
        payload_in("__CODEX_RAPIDOCR_JSON__"@ + document, PADDLEOCR_JSON_PREFIX@) is None,
        payload_in("__CODEX_PADDLEOCR_JSON__"@ + document, PADDLEOCR_JSON_PREFIX@) == Some(
            document,
        ),
        payload_in("__CODEX_PADDLEOCR_JSON__"@ + document, RAPIDOCR_JSON_PREFIX@) is None,
{
    reveal_strlit("__CODEX_RAPIDOCR_JSON__");
    reveal_strlit("__CODEX_PADDLEOCR_JSON__");
    let rapid = "__CODEX_RAPIDOCR_JSON__"@ + document;
    let paddle = "__CODEX_PADDLEOCR_JSON__"@ + document;
    assert forall|i: int| 0 <= i < rapid.len() implies #[trigger] rapid[i] != '\n' by {
        if i >= 23 {
            assert(document.contains(document[i - 23]));
        }
    }
    assert forall|i: int| 0 <= i < paddle.len() implies #[trigger] paddle[i] != '\n' by {
        if i >= 24 {
            assert(document.contains(document[i - 24]));
        }
    }
    law_later_payload_comes_first(rapid, Seq::empty(), RAPIDOCR_JSON_PREFIX@);
    law_later_payload_comes_first(rapid, Seq::empty(), PADDLEOCR_JSON_PREFIX@);
    law_later_payload_comes_first(paddle, Seq::empty(), PADDLEOCR_JSON_PREFIX@);
    law_later_payload_comes_first(paddle, Seq::empty(), RAPIDOCR_JSON_PREFIX@);
    text::law_prefix_is_taken_off(rapid, RAPIDOCR_JSON_PREFIX@, document);
    text::law_prefix_is_taken_off(paddle, PADDLEOCR_JSON_PREFIX@, document);
    assert(rapid[8] == 'R' && paddle[8] == 'P');
    if PADDLEOCR_JSON_PREFIX@.len() <= rapid.len() {
        assert(rapid.take(PADDLEOCR_JSON_PREFIX@.len() as int)[8] == rapid[8]);
    }
    if RAPIDOCR_JSON_PREFIX@.len() <= paddle.len() {
        assert(paddle.take(RAPIDOCR_JSON_PREFIX@.len() as int)[8] == paddle[8]);
    }
}

} // verus!
