//! Recognised texts and where they stand in the frame.

use crate::double;
use crate::double::Real;
use crate::text;
use vstd::arithmetic::div_mod::*;
use vstd::arithmetic::mul::*;
use vstd::arithmetic::power2::*;
use vstd::prelude::*;
use vstd::string::*;

verus! {

pub const NORMALIZED_SPACE: &'static str = "vision-normalized-bottom-left";

pub const PIXEL_SPACE: &'static str = "pixel-top-left";

/// A measure in proportion to the frame, left as the division that gives it.
#[derive(Debug, Clone, Copy, PartialEq, Eq, Structural)]
pub enum Fraction {
    /// Nothing: the frame has no extent.
    Zero,
    /// `part / whole`.
    Ratio { part: Real, whole: u32 },
    /// `1 - part / whole`.
    OneMinusRatio { part: Real, whole: u32 },
    /// `(to - from) / whole`.
    SpanRatio { from: Real, to: Real, whole: u32 },
}

/// A `Fraction`, numbers taken as their bit patterns.
pub enum FractionModel {
    Zero,
    Ratio { part: u64, whole: u32 },
    OneMinusRatio { part: u64, whole: u32 },
    SpanRatio { from: u64, to: u64, whole: u32 },
}

impl View for Fraction {
    type V = FractionModel;

    open spec fn view(&self) -> FractionModel {
        match *self {
            Fraction::Zero => FractionModel::Zero,
            Fraction::Ratio { part, whole } => FractionModel::Ratio { part: part@, whole },
            Fraction::OneMinusRatio { part, whole } => FractionModel::OneMinusRatio {
                part: part@,
                whole,
            },
            Fraction::SpanRatio { from, to, whole } => FractionModel::SpanRatio {
                from: from@,
                to: to@,
                whole,
            },
        }
    }
}

/// Whether a fraction has a value: it divides numbers that are not negative by a side that is not
/// zero.
pub open spec fn is_proper(place: FractionModel) -> bool {
    match place {
        FractionModel::Zero => true,
        FractionModel::Ratio { part, whole } => whole > 0 && double::key(part) >= 0,
        FractionModel::OneMinusRatio { part, whole } => whole > 0 && double::key(part) >= 0,
        FractionModel::SpanRatio { from, to, whole } => whole > 0 && double::key(from) >= 0
            && double::key(to) >= 0,
    }
}

/// The value of a fraction: every operation is rounded to the nearest number.
pub open spec fn measure_of(place: FractionModel) -> u64 {
    match place {
        FractionModel::Zero => 0,
        FractionModel::Ratio { part, whole } => double::quotient(part, whole),
        FractionModel::OneMinusRatio { part, whole } => double::difference(
            double::ONE_BITS,
            double::quotient(part, whole),
        ),
        FractionModel::SpanRatio { from, to, whole } => double::quotient(
            double::difference(to, from),
            whole,
        ),
    }
}

/// Whether the numbers of a fraction do not exceed the side that they are divided by, and its span
/// runs forward.
pub open spec fn is_share(place: FractionModel) -> bool {
    match place {
        FractionModel::Zero => true,
        FractionModel::Ratio { part, whole } => double::key(part) <= double::key(
            double::whole_bits(whole),
        ),
        FractionModel::OneMinusRatio { part, whole } => double::key(part) <= double::key(
            double::whole_bits(whole),
        ),
        FractionModel::SpanRatio { from, to, whole } => double::key(from) <= double::key(to)
            <= double::key(double::whole_bits(whole)),
    }
}

impl Fraction {
    /// The value of the fraction, where it has one. That of a share lies between zero and one.
    pub fn value(&self) -> (r: Option<Real>)
        ensures
            r is Some <==> is_proper(self@),
            r matches Some(number) ==> number@ == measure_of(self@),
            r matches Some(number) ==> (is_share(self@) ==> 0 <= double::key(number@)
                <= double::key(double::ONE_BITS)),
    {
        match *self {
            Fraction::Zero => {
                assert(double::key(0) == 0 && double::key(double::ONE_BITS) > 0);
                Some(Real::zero())
            },
            Fraction::Ratio { part, whole } => {
                if whole == 0 || part.is_less(Real::zero()) {
                    return None;
                }
                Some(share_of(part, whole))
            },
            Fraction::OneMinusRatio { part, whole } => {
                if whole == 0 || part.is_less(Real::zero()) {
                    return None;
                }
                let share = share_of(part, whole);
                let rest = Real::one().subtract(share);
                proof {
                    double::law_units_of_one();
                    if double::key(share@) <= double::key(double::ONE_BITS) {
                        assert(double::ONE_BITS < double::SIGN_BIT);
                        double::law_keys_order_by_value(share@, double::ONE_BITS);
                        double::law_rounded_keeps_bound(
                            double::units(double::ONE_BITS) - double::units(share@),
                            double::EXPONENT_UNIT as int,
                            1022,
                        );
                        double::law_keys_order_by_value(rest@, double::ONE_BITS);
                    }
                }
                Some(rest)
            },
            Fraction::SpanRatio { from, to, whole } => {
                if whole == 0 || from.is_less(Real::zero()) || to.is_less(Real::zero()) {
                    return None;
                }
                Some(span_of(from, to, whole))
            },
        }
    }
}

fn share_of(part: Real, whole: u32) -> (r: Real)
    requires
        whole > 0,
        double::key(part@) >= 0,
    ensures
        r@ == double::quotient(part@, whole),
        double::is_finite_bits(r@),
        double::key(r@) >= 0,
        double::key(part@) <= double::key(double::whole_bits(whole)) ==> double::key(r@)
            <= double::key(double::ONE_BITS),
{
    let bits: u64 = part.to_bits();
    let r = part.divide(whole);
    proof {
        double::law_whole_numbers_exist(whole);
        double::law_keys_order_by_value(part@, double::whole_bits(whole));
        double::law_keys_order_by_value(0, part@);
        assert(double::units(0) == 0 * pow2(0));
        if bits >= double::SIGN_BIT {
            double::law_keys_order_by_value(part@, 0);
        }
        if double::units(part@) <= whole * pow2(double::UNITS_IN_ONE as nat) {
            double::law_share_of_whole(
                r@,
                part@ >= double::SIGN_BIT,
                double::units(part@),
                whole,
            );
        }
    }
    r
}

fn span_of(from: Real, to: Real, whole: u32) -> (r: Real)
    requires
        whole > 0,
        double::key(from@) >= 0,
        double::key(to@) >= 0,
    ensures
        r@ == double::quotient(double::difference(to@, from@), whole),
        double::key(from@) <= double::key(to@) <= double::key(double::whole_bits(whole))
            ==> 0 <= double::key(r@) <= double::key(double::ONE_BITS),
{
    let low: u64 = from.to_bits();
    let high: u64 = to.to_bits();
    let span = to.subtract(from);
    let r = span.divide(whole);
    proof {
        if double::key(from@) <= double::key(to@) <= double::key(double::whole_bits(whole)) {
            double::law_whole_numbers_exist(whole);
            let limit = double::whole_bits(whole);
            double::law_keys_order_by_value(from@, to@);
            double::law_keys_order_by_value(to@, limit);
            double::law_keys_order_by_value(0, from@);
            assert(double::units(0) == 0 * pow2(0));
            double::law_rounded_keeps_bound(
                double::units(to@) - double::units(from@),
                whole as int,
                double::UNITS_IN_ONE as nat,
            );
            if double::units(to@) == double::units(from@) {
                double::law_rounded_keeps_bound(0, 0, 0);
                assert(0 * pow2(0) == 0);
            }
            double::law_share_of_whole(
                r@,
                span@ >= double::SIGN_BIT,
                double::units(span@),
                whole,
            );
        }
    }
    r
}

/// Where a text stands, in proportion to the frame and from its bottom left corner.
#[derive(Debug, Clone, Copy, PartialEq, Eq)]
pub struct NormalizedBoundingBox {
    pub x: Fraction,
    pub y: Fraction,
    pub width: Fraction,
    pub height: Fraction,
    pub coordinate_space: &'static str,
}

/// A `NormalizedBoundingBox`, its contents taken by their views.
#[verifier::ext_equal]
pub struct NormalizedBoxModel {
    pub x: FractionModel,
    pub y: FractionModel,
    pub width: FractionModel,
    pub height: FractionModel,
    pub coordinate_space: Seq<char>,
}

impl View for NormalizedBoundingBox {
    type V = NormalizedBoxModel;

    open spec fn view(&self) -> NormalizedBoxModel {
        NormalizedBoxModel {
            x: self.x@,
            y: self.y@,
            width: self.width@,
            height: self.height@,
            coordinate_space: self.coordinate_space@,
        }
    }
}

/// Where a text stands, in pixels and from the top left corner of the frame.
#[derive(Debug, Clone, Copy, PartialEq, Eq)]
pub struct PixelBoundingBox {
    pub x: u32,
    pub y: u32,
    pub width: u32,
    pub height: u32,
    pub coordinate_space: &'static str,
}

/// A `PixelBoundingBox`, its contents taken by their views.
#[verifier::ext_equal]
pub struct PixelBoxModel {
    pub x: int,
    pub y: int,
    pub width: int,
    pub height: int,
    pub coordinate_space: Seq<char>,
}

impl View for PixelBoundingBox {
    type V = PixelBoxModel;

    open spec fn view(&self) -> PixelBoxModel {
        PixelBoxModel {
            x: self.x as int,
            y: self.y as int,
            width: self.width as int,
            height: self.height as int,
            coordinate_space: self.coordinate_space@,
        }
    }
}

/// How sure the backend is of a text.
#[derive(Debug, PartialEq, Eq)]
pub enum Confidence {
    /// The mean of what the fields of a table say, in percent.
    Mean(Vec<String>),
    /// A score between zero and one.
    Score(Real),
}

/// A `Confidence`, its contents taken by their views.
pub enum ConfidenceModel {
    Mean(Seq<Seq<char>>),
    Score(u64),
}

impl View for Confidence {
    type V = ConfidenceModel;

    open spec fn view(&self) -> ConfidenceModel {
        match *self {
            Confidence::Mean(fields) => ConfidenceModel::Mean(text::views(fields@)),
            Confidence::Score(score) => ConfidenceModel::Score(score@),
        }
    }
}

/// A text that may stand in a place.
#[derive(Debug, PartialEq, Eq)]
pub struct OcrCandidate {
    pub text: String,
    pub confidence: Confidence,
}

/// An `OcrCandidate`, its contents taken by their views.
#[verifier::ext_equal]
pub struct CandidateModel {
    pub text: Seq<char>,
    pub confidence: ConfidenceModel,
}

impl View for OcrCandidate {
    type V = CandidateModel;

    open spec fn view(&self) -> CandidateModel {
        CandidateModel { text: self.text@, confidence: self.confidence@ }
    }
}

/// A recognised text and where it stands.
#[derive(Debug, PartialEq, Eq)]
pub struct OcrObservation {
    pub bounding_box: NormalizedBoundingBox,
    pub pixel_bounding_box: PixelBoundingBox,
    pub top_candidates: Vec<OcrCandidate>,
    pub normalized_text: String,
}

/// An `OcrObservation`, its contents taken by their views.
#[verifier::ext_equal]
pub struct ObservationModel {
    pub bounding_box: NormalizedBoxModel,
    pub pixel_bounding_box: PixelBoxModel,
    pub top_candidates: Seq<CandidateModel>,
    pub normalized_text: Seq<char>,
}

/// The views of some candidates.
pub open spec fn candidates_view(candidates: Seq<OcrCandidate>) -> Seq<CandidateModel> {
    candidates.map_values(|candidate: OcrCandidate| candidate@)
}

impl View for OcrObservation {
    type V = ObservationModel;

    open spec fn view(&self) -> ObservationModel {
        ObservationModel {
            bounding_box: self.bounding_box@,
            pixel_bounding_box: self.pixel_bounding_box@,
            top_candidates: candidates_view(self.top_candidates@),
            normalized_text: self.normalized_text@,
        }
    }
}

/// The views of some observations.
pub open spec fn observations_view(observations: Seq<OcrObservation>) -> Seq<ObservationModel> {
    observations.map_values(|observation: OcrObservation| observation@)
}

/// The texts of some observations.
pub open spec fn texts_of(observations: Seq<ObservationModel>) -> Seq<Seq<char>> {
    observations.map_values(|observation: ObservationModel| observation.normalized_text)
}

/// The texts of some observations, one under the other.
pub open spec fn joined_text(observations: Seq<ObservationModel>) -> Seq<char> {
    text::joined(texts_of(observations), "\n"@)
}

/// The texts of some observations, one under the other.
pub fn join_observations(observations: &Vec<OcrObservation>) -> (s: String)
    ensures
        s@ == joined_text(observations_view(observations@)),
{
    let mut texts: Vec<String> = Vec::new();
    for i in 0..observations.len()
        invariant
            text::views(texts@) == texts_of(observations_view(observations@)).take(i as int),
    {
        let ghost before = texts@;
        texts.push(observations[i].normalized_text.clone());
        assert(text::views(texts@) =~= text::views(before).push(
            observations@[i as int].normalized_text@,
        ));
        assert(text::views(texts@) =~= texts_of(observations_view(observations@)).take(i + 1));
    }
    assert(text::views(texts@) =~= texts_of(observations_view(observations@)));
    text::join(&texts, "\n")
}

/// The largest coordinate along a side of the frame; a side of no length sets no limit.
pub open spec fn side_limit(side: u32) -> u64 {
    if side == 0 {
        double::LARGEST_BITS
    } else {
        double::whole_bits(side)
    }
}

fn limit_of_side(side: u32) -> (limit: Real)
    ensures
        limit@ == side_limit(side),
        double::key(limit@) >= 0,
{
    if side == 0 {
        Real::largest()
    } else {
        Real::from_u32(side)
    }
}

/// A rectangle, its coordinates taken as their bit patterns.
pub struct RectModel {
    pub x1: u64,
    pub y1: u64,
    pub x2: u64,
    pub y2: u64,
}

/// The rectangle, cut to the frame.
pub open spec fn cut_to_frame(
    rect: RectModel,
    image_width: u32,
    image_height: u32,
) -> RectModel {
    let x1 = double::clamped(rect.x1, 0, side_limit(image_width));
    let y1 = double::clamped(rect.y1, 0, side_limit(image_height));
    RectModel {
        x1,
        y1,
        x2: double::clamped(rect.x2, x1, side_limit(image_width)),
        y2: double::clamped(rect.y2, y1, side_limit(image_height)),
    }
}

/// The observation of a text in a rectangle of the frame.
pub open spec fn observation_of_rect(
    rect: RectModel,
    image_width: u32,
    image_height: u32,
    text: Seq<char>,
    confidence: u64,
) -> ObservationModel {
    let cut = cut_to_frame(rect, image_width, image_height);
    ObservationModel {
        bounding_box: NormalizedBoxModel {
            x: if image_width == 0 {
                FractionModel::Zero
            } else {
                FractionModel::Ratio { part: cut.x1, whole: image_width }
            },
            y: if image_height == 0 {
                FractionModel::Zero
            } else {
                FractionModel::OneMinusRatio { part: cut.y2, whole: image_height }
            },
            width: if image_width == 0 {
                FractionModel::Zero
            } else {
                FractionModel::SpanRatio { from: cut.x1, to: cut.x2, whole: image_width }
            },
            height: if image_height == 0 {
                FractionModel::Zero
            } else {
                FractionModel::SpanRatio { from: cut.y1, to: cut.y2, whole: image_height }
            },
            coordinate_space: NORMALIZED_SPACE@,
        },
        pixel_bounding_box: PixelBoxModel {
            x: double::whole_part(double::units(cut.x1)),
            y: double::whole_part(double::units(cut.y1)),
            width: double::whole_part(
                double::rounded(double::units(cut.x2) - double::units(cut.x1)),
            ),
            height: double::whole_part(
                double::rounded(double::units(cut.y2) - double::units(cut.y1)),
            ),
            coordinate_space: PIXEL_SPACE@,
        },
        top_candidates: seq![
            CandidateModel { text, confidence: ConfidenceModel::Score(confidence) },
        ],
        normalized_text: text,
    }
}

/// The observation of a text in a rectangle of the frame.
pub fn observation_from_rect(
    x1: Real,
    y1: Real,
    x2: Real,
    y2: Real,
    image_width: u32,
    image_height: u32,
    text: &str,
    confidence: Real,
) -> (r: OcrObservation)
    ensures
        r@ == observation_of_rect(
            RectModel { x1: x1@, y1: y1@, x2: x2@, y2: y2@ },
            image_width,
            image_height,
            text@,
            confidence@,
        ),
        is_in_frame(r@, image_width, image_height),
{
    let ghost rect = RectModel { x1: x1@, y1: y1@, x2: x2@, y2: y2@ };
    let max_x = limit_of_side(image_width);
    let max_y = limit_of_side(image_height);
    let x1 = x1.clamp(Real::zero(), max_x);
    let y1 = y1.clamp(Real::zero(), max_y);
    let x2 = x2.clamp(x1, max_x);
    let y2 = y2.clamp(y1, max_y);
    proof {
        law_cut_rect_lies_in_frame(rect, image_width, image_height);
        if image_width > 0 {
            lemma_side_in_frame(x1@, x2@, image_width);
        }
        if image_height > 0 {
            lemma_side_in_frame(y1@, y2@, image_height);
        }
    }
    let mut candidates: Vec<OcrCandidate> = Vec::new();
    candidates.push(
        OcrCandidate { text: text.to_owned(), confidence: Confidence::Score(confidence) },
    );
    assert(candidates_view(candidates@) =~= seq![
        CandidateModel { text: text@, confidence: ConfidenceModel::Score(confidence@) },
    ]);
    OcrObservation {
        bounding_box: NormalizedBoundingBox {
            x: if image_width == 0 {
                Fraction::Zero
            } else {
                Fraction::Ratio { part: x1, whole: image_width }
            },
            y: if image_height == 0 {
                Fraction::Zero
            } else {
                Fraction::OneMinusRatio { part: y2, whole: image_height }
            },
            width: if image_width == 0 {
                Fraction::Zero
            } else {
                Fraction::SpanRatio { from: x1, to: x2, whole: image_width }
            },
            height: if image_height == 0 {
                Fraction::Zero
            } else {
                Fraction::SpanRatio { from: y1, to: y2, whole: image_height }
            },
            coordinate_space: NORMALIZED_SPACE,
        },
        pixel_bounding_box: PixelBoundingBox {
            x: x1.floor_to_u32(),
            y: y1.floor_to_u32(),
            width: x1.span_to_u32(x2),
            height: y1.span_to_u32(y2),
            coordinate_space: PIXEL_SPACE,
        },
        top_candidates: candidates,
        normalized_text: text.to_owned(),
    }
}

/// A rectangle cut to the frame lies in the frame.
pub proof fn law_cut_rect_lies_in_frame(rect: RectModel, image_width: u32, image_height: u32)
    ensures
        ({
            let cut = cut_to_frame(rect, image_width, image_height);
            &&& 0 <= double::key(cut.x1) <= double::key(cut.x2) <= double::key(
                side_limit(image_width),
            )
            &&& 0 <= double::key(cut.y1) <= double::key(cut.y2) <= double::key(
                side_limit(image_height),
            )
        }),
{
    double::law_whole_numbers_exist(image_width);
    double::law_whole_numbers_exist(image_height);
}

proof fn lemma_side_in_frame(from: u64, to: u64, side: u32)
    requires
        double::is_finite_bits(from),
        double::is_finite_bits(to),
        side > 0,
        0 <= double::key(from) <= double::key(to) <= double::key(side_limit(side)),
    ensures
        double::whole_part(double::units(from)) + double::whole_part(
            double::rounded(double::units(to) - double::units(from)),
        ) <= side,
{
    let limit = side_limit(side);
    double::law_whole_numbers_exist(side);
    double::law_keys_order_by_value(from, to);
    double::law_keys_order_by_value(to, limit);
    double::law_keys_order_by_value(0, from);
    double::law_span_within_whole_numbers(from, to, side);
}

/// Whether the pixels of an observation lie in the frame, where that has an extent.
pub open spec fn is_in_frame(seen: ObservationModel, image_width: u32, image_height: u32) -> bool {
    let pixels = seen.pixel_bounding_box;
    &&& image_width > 0 ==> pixels.x + pixels.width <= image_width
    &&& image_height > 0 ==> pixels.y + pixels.height <= image_height
}

/// The pixels of a rectangle lie in the frame.
pub proof fn law_pixels_lie_in_frame(
    rect: RectModel,
    image_width: u32,
    image_height: u32,
    text: Seq<char>,
    confidence: u64,
)
    requires
        double::is_finite_bits(rect.x1),
        double::is_finite_bits(rect.y1),
        double::is_finite_bits(rect.x2),
        double::is_finite_bits(rect.y2),
    ensures
        is_in_frame(
            observation_of_rect(rect, image_width, image_height, text, confidence),
            image_width,
            image_height,
        ),
{
    let cut = cut_to_frame(rect, image_width, image_height);
    double::law_whole_numbers_exist(image_width);
    double::law_whole_numbers_exist(image_height);
    law_cut_rect_lies_in_frame(rect, image_width, image_height);
    if image_width > 0 {
        lemma_side_in_frame(cut.x1, cut.x2, image_width);
    }
    if image_height > 0 {
        lemma_side_in_frame(cut.y1, cut.y2, image_height);
    }
}

/// A rectangle without area keeps no area in pixels.
pub proof fn law_zero_area_stays_zero(
    rect: RectModel,
    image_width: u32,
    image_height: u32,
    text: Seq<char>,
    confidence: u64,
)
    ensures
        ({
            let pixels = observation_of_rect(
                rect,
                image_width,
                image_height,
                text,
                confidence,
            ).pixel_bounding_box;
            &&& rect.x1 == rect.x2 ==> pixels.width == 0
            &&& rect.y1 == rect.y2 ==> pixels.height == 0
        }),
{
    let cut = cut_to_frame(rect, image_width, image_height);
    double::law_empty_span(cut.x1);
    double::law_empty_span(cut.y1);
}

/// Whether every measure of a place has a value.
pub open spec fn is_proper_box(place: NormalizedBoxModel) -> bool {
    &&& is_proper(place.x)
    &&& is_proper(place.y)
    &&& is_proper(place.width)
    &&& is_proper(place.height)
}

/// Whether every measure of a place is a share of the frame.
pub open spec fn is_share_box(place: NormalizedBoxModel) -> bool {
    &&& is_share(place.x)
    &&& is_share(place.y)
    &&& is_share(place.width)
    &&& is_share(place.height)
}

/// Whether the places of all observations have values.
pub open spec fn have_proper_boxes(seen: Seq<ObservationModel>) -> bool {
    forall|i: int| 0 <= i < seen.len() ==> is_proper_box((#[trigger] seen[i]).bounding_box)
}

/// Every measure of the place of a rectangle has a value, and is a share of the frame.
pub proof fn law_rect_is_share_of_frame(
    rect: RectModel,
    image_width: u32,
    image_height: u32,
    text: Seq<char>,
    confidence: u64,
)
    ensures
        ({
            let place = observation_of_rect(
                rect,
                image_width,
                image_height,
                text,
                confidence,
            ).bounding_box;
            is_proper_box(place) && is_share_box(place)
        }),
{
    law_cut_rect_lies_in_frame(rect, image_width, image_height);
}

/// A rectangle with corners on whole pixels of the frame has just these pixels: its left and top
/// edges are those of the rectangle, its sides the differences of the edges.
pub proof fn law_whole_rect_keeps_its_pixels(
    left: u32,
    top: u32,
    right: u32,
    bottom: u32,
    image_width: u32,
    image_height: u32,
    text: Seq<char>,
    confidence: u64,
)
    requires
        left <= right <= image_width,
        top <= bottom <= image_height,
        0 < image_width,
        0 < image_height,
    ensures
        ({
            let rect = RectModel {
                x1: double::whole_bits(left),
                y1: double::whole_bits(top),
                x2: double::whole_bits(right),
                y2: double::whole_bits(bottom),
            };
            let pixels = observation_of_rect(
                rect,
                image_width,
                image_height,
                text,
                confidence,
            ).pixel_bounding_box;
            &&& pixels.x == left
            &&& pixels.y == top
            &&& pixels.width == right - left
            &&& pixels.height == bottom - top
        }),
{
    lemma_whole_keys(left, right, image_width);
    lemma_whole_keys(top, bottom, image_height);
    double::law_whole_part_of_whole(double::whole_bits(left), left);
    double::law_whole_part_of_whole(double::whole_bits(top), top);
    double::law_span_of_whole_numbers(
        double::whole_bits(left),
        double::whole_bits(right),
        left,
        right,
    );
    double::law_span_of_whole_numbers(
        double::whole_bits(top),
        double::whole_bits(bottom),
        top,
        bottom,
    );
}

proof fn lemma_whole_keys(low: u32, high: u32, side: u32)
    requires
        low <= high <= side,
    ensures
        double::is_whole(double::whole_bits(low), low),
        double::is_whole(double::whole_bits(high), high),
        0 <= double::key(double::whole_bits(low)) <= double::key(double::whole_bits(high))
            <= double::key(double::whole_bits(side)),
{
    let a = double::whole_bits(low);
    let b = double::whole_bits(high);
    let c = double::whole_bits(side);
    double::law_whole_numbers_exist(low);
    double::law_whole_numbers_exist(high);
    double::law_whole_numbers_exist(side);
    let one = pow2(double::UNITS_IN_ONE as nat) as int;
    assert(low * one <= high * one <= side * one) by (nonlinear_arith)
        requires
            low <= high <= side,
            one >= 0,
    ;
    double::law_keys_order_by_value(a, b);
    double::law_keys_order_by_value(b, c);
}

/// The pixel at which a rectangle inside the frame begins is the one that its corner lies in: the
/// corner is not before it, and before the next one.
pub proof fn law_pixel_holds_the_corner(
    rect: RectModel,
    image_width: u32,
    image_height: u32,
    text: Seq<char>,
    confidence: u64,
)
    requires
        double::is_finite_bits(rect.x1),
        double::is_finite_bits(rect.y1),
        0 <= double::key(rect.x1) <= double::key(double::whole_bits(image_width)),
        0 <= double::key(rect.y1) <= double::key(double::whole_bits(image_height)),
        0 < image_width,
        0 < image_height,
    ensures
        ({
            let one = pow2(double::UNITS_IN_ONE as nat);
            let pixels = observation_of_rect(
                rect,
                image_width,
                image_height,
                text,
                confidence,
            ).pixel_bounding_box;
            &&& pixels.x * one <= double::units(rect.x1) < (pixels.x + 1) * one
            &&& pixels.y * one <= double::units(rect.y1) < (pixels.y + 1) * one
        }),
{
    lemma_pixel_of(rect.x1, image_width);
    lemma_pixel_of(rect.y1, image_height);
}

proof fn lemma_pixel_of(bits: u64, side: u32)
    requires
        double::is_finite_bits(bits),
        0 <= double::key(bits) <= double::key(double::whole_bits(side)),
        0 < side,
    ensures
        ({
            let one = pow2(double::UNITS_IN_ONE as nat);
            let pixel = double::whole_part(double::units(bits));
            pixel * one <= double::units(bits) < (pixel + 1) * one
        }),
{
    let one = pow2(double::UNITS_IN_ONE as nat) as int;
    let count = double::units(bits);
    double::law_whole_numbers_exist(side);
    double::law_keys_order_by_value(bits, double::whole_bits(side));
    double::law_keys_order_by_value(0, bits);
    assert(double::units(0) == 0 * pow2(0));
    lemma_pow2_pos(double::UNITS_IN_ONE as nat);
    let pixel = count / one;
    lemma_fundamental_div_mod(count, one);
    lemma_mul_is_commutative(one, pixel);
    assert((pixel + 1) * one == pixel * one + one) by (nonlinear_arith);
    assert(pixel <= side) by (nonlinear_arith)
        requires
            pixel * one <= side * one,
            one > 0,
    ;
}

/// A rectangle inside the frame is measured by its own coordinates: from the left edge to its left
/// side, from the bottom edge up to its bottom side, and its own sides, each divided by the side of
/// the frame in the same direction.
pub proof fn law_rect_in_frame_is_measured_by_its_edges(
    rect: RectModel,
    image_width: u32,
    image_height: u32,
    text: Seq<char>,
    confidence: u64,
)
    requires
        0 < image_width,
        0 < image_height,
        0 <= double::key(rect.x1) <= double::key(rect.x2) <= double::key(
            double::whole_bits(image_width),
        ),
        0 <= double::key(rect.y1) <= double::key(rect.y2) <= double::key(
            double::whole_bits(image_height),
        ),
    ensures
        ({
            let place = observation_of_rect(
                rect,
                image_width,
                image_height,
                text,
                confidence,
            ).bounding_box;
            &&& measure_of(place.x) == double::quotient(rect.x1, image_width)
            &&& measure_of(place.y) == double::difference(
                double::ONE_BITS,
                double::quotient(rect.y2, image_height),
            )
            &&& measure_of(place.width) == double::quotient(
                double::difference(rect.x2, rect.x1),
                image_width,
            )
            &&& measure_of(place.height) == double::quotient(
                double::difference(rect.y2, rect.y1),
                image_height,
            )
        }),
{
    assert(double::key(0) == 0);
}

/// What reaches beyond the frame counts as its edge: a coordinate that lies in the frame stays, one
/// before the first edge becomes zero, and one beyond the opposite edge becomes that edge.
pub proof fn law_coordinates_beyond_frame_become_edges(
    rect: RectModel,
    image_width: u32,
    image_height: u32,
)
    requires
        0 < image_width,
        0 < image_height,
        double::key(rect.x1) <= double::key(rect.x2),
        double::key(rect.y1) <= double::key(rect.y2),
    ensures
        ({
            let cut = cut_to_frame(rect, image_width, image_height);
            let right = double::whole_bits(image_width);
            let bottom = double::whole_bits(image_height);
            &&& is_moved_into(rect.x1, cut.x1, right)
            &&& is_moved_into(rect.x2, cut.x2, right)
            &&& is_moved_into(rect.y1, cut.y1, bottom)
            &&& is_moved_into(rect.y2, cut.y2, bottom)
        }),
{
    lemma_whole_keys(0, image_width, image_width);
    lemma_whole_keys(0, image_height, image_height);
    assert(double::key(0) == 0);
}

/// Whether a coordinate became another one by being moved between zero and an edge.
pub open spec fn is_moved_into(from: u64, to: u64, edge: u64) -> bool {
    &&& 0 <= double::key(from) <= double::key(edge) ==> double::key(to) == double::key(from)
    &&& double::key(from) < 0 ==> double::key(to) == 0
    &&& double::key(from) > double::key(edge) ==> double::key(to) == double::key(edge)
}

/// A rectangle is observed as its part inside the frame is.
pub proof fn law_only_the_part_in_the_frame_counts(
    rect: RectModel,
    image_width: u32,
    image_height: u32,
    text: Seq<char>,
    confidence: u64,
)
    ensures
        observation_of_rect(rect, image_width, image_height, text, confidence)
            == observation_of_rect(
            cut_to_frame(rect, image_width, image_height),
            image_width,
            image_height,
            text,
            confidence,
        ),
{
    let cut = cut_to_frame(rect, image_width, image_height);
    law_cut_rect_lies_in_frame(rect, image_width, image_height);
    assert(double::key(0) == 0);
    assert(cut_to_frame(cut, image_width, image_height) == cut);
}

/// An observation of a rectangle has the text and one candidate, with that text and that score; its
/// place is given from the bottom left and its pixels from the top left.
pub proof fn law_rect_has_its_text_and_score(
    rect: RectModel,
    image_width: u32,
    image_height: u32,
    text: Seq<char>,
    confidence: u64,
)
    ensures
        ({
            let seen = observation_of_rect(rect, image_width, image_height, text, confidence);
            &&& seen.normalized_text == text
            &&& seen.top_candidates.len() == 1
            &&& seen.top_candidates[0].text == text
            &&& seen.top_candidates[0].confidence == ConfidenceModel::Score(confidence)
            &&& seen.bounding_box.coordinate_space == "vision-normalized-bottom-left"@
            &&& seen.pixel_bounding_box.coordinate_space == "pixel-top-left"@
        }),
{
}

/// In a frame without extent a rectangle has no place in proportion to it.
pub proof fn law_rect_in_frame_without_extent(
    rect: RectModel,
    side: u32,
    text: Seq<char>,
    confidence: u64,
)
    ensures
        ({
            let place = observation_of_rect(rect, 0, side, text, confidence).bounding_box;
            measure_of(place.x) == 0 && measure_of(place.width) == 0
        }),
        ({
            let place = observation_of_rect(rect, side, 0, text, confidence).bounding_box;
            measure_of(place.y) == 0 && measure_of(place.height) == 0
        }),
{
}

/// The text of a frame grows by a line for each observation: a line feed and its text, but for the
/// first, which is its text alone.
pub proof fn law_text_grows_by_line(seen: Seq<ObservationModel>, next: ObservationModel)
    ensures
        joined_text(Seq::empty()).len() == 0,
        seen.len() == 0 ==> joined_text(seen.push(next)) == next.normalized_text,
        seen.len() > 0 ==> joined_text(seen.push(next)) == joined_text(seen) + seq!['\n']
            + next.normalized_text,
{
    reveal_strlit("\n");
    assert("\n"@ =~= seq!['\n']);
    assert(texts_of(seen.push(next)).drop_last() =~= texts_of(seen));
}

/// In a frame without extent nothing is cut: a rectangle with corners on whole pixels keeps its
/// pixels there, too.
pub proof fn law_nothing_is_cut_in_frame_without_extent(
    left: u32,
    top: u32,
    right: u32,
    bottom: u32,
    text: Seq<char>,
    confidence: u64,
)
    requires
        left <= right,
        top <= bottom,
    ensures
        ({
            let rect = RectModel {
                x1: double::whole_bits(left),
                y1: double::whole_bits(top),
                x2: double::whole_bits(right),
                y2: double::whole_bits(bottom),
            };
            let pixels = observation_of_rect(rect, 0, 0, text, confidence).pixel_bounding_box;
            &&& pixels.x == left
            &&& pixels.y == top
            &&& pixels.width == right - left
            &&& pixels.height == bottom - top
        }),
{
    lemma_whole_keys(left, right, right);
    lemma_whole_keys(top, bottom, bottom);
    assert(double::key(double::LARGEST_BITS) == double::LARGEST_BITS);
    double::law_whole_part_of_whole(double::whole_bits(left), left);
    double::law_whole_part_of_whole(double::whole_bits(top), top);
    double::law_span_of_whole_numbers(
        double::whole_bits(left),
        double::whole_bits(right),
        left,
        right,
    );
    double::law_span_of_whole_numbers(
        double::whole_bits(top),
        double::whole_bits(bottom),
        top,
        bottom,
    );
}

} // verus!
