//! What the recognition of a frame gives, and what of it may be kept.

use crate::cut;
use crate::observation;
use crate::observation::{CandidateModel, ObservationModel, OcrObservation};
use crate::readiness::{OcrReadiness, ReadinessModel};
use crate::text;
use vstd::prelude::*;
use vstd::string::*;

verus! {

pub const MAX_OCR_OBSERVATIONS: usize = 200;

pub const MAX_OCR_NORMALIZED_TEXT_BYTES: usize = 32 * 1024;

pub const MAX_OCR_CANDIDATE_TEXT_BYTES: usize = 512;

/// What the recognition of a frame gave.
#[derive(Debug, PartialEq, Eq)]
pub struct OcrFrameResult {
    pub runs_ocr: bool,
    pub status: String,
    pub backend: String,
    pub language: String,
    pub backend_version: Option<String>,
    pub normalized_text: String,
    pub dependency_hint: Option<String>,
    pub error: Option<String>,
    pub duration_ms: u128,
    pub truncated: bool,
    pub suppressed_text_observation_count: usize,
    pub observations: Vec<OcrObservation>,
}

/// An `OcrFrameResult`, its contents taken by their views.
#[verifier::ext_equal]
pub struct FrameModel {
    pub runs_ocr: bool,
    pub status: Seq<char>,
    pub backend: Seq<char>,
    pub language: Seq<char>,
    pub backend_version: Option<Seq<char>>,
    pub normalized_text: Seq<char>,
    pub dependency_hint: Option<Seq<char>>,
    pub error: Option<Seq<char>>,
    pub duration_ms: int,
    pub truncated: bool,
    pub suppressed_text_observation_count: int,
    pub observations: Seq<ObservationModel>,
}

impl View for OcrFrameResult {
    type V = FrameModel;

    open spec fn view(&self) -> FrameModel {
        FrameModel {
            runs_ocr: self.runs_ocr,
            status: self.status@,
            backend: self.backend@,
            language: self.language@,
            backend_version: text::option_view(self.backend_version),
            normalized_text: self.normalized_text@,
            dependency_hint: text::option_view(self.dependency_hint),
            error: text::option_view(self.error),
            duration_ms: self.duration_ms as int,
            truncated: self.truncated,
            suppressed_text_observation_count: self.suppressed_text_observation_count as int,
            observations: observation::observations_view(self.observations@),
        }
    }
}

/// A frame that was not looked at, for the reason that the readiness gives.
pub open spec fn skipped_frame(readiness: ReadinessModel) -> FrameModel {
    FrameModel {
        runs_ocr: false,
        status: readiness.status,
        backend: readiness.backend,
        language: readiness.language,
        backend_version: readiness.version,
        normalized_text: Seq::empty(),
        dependency_hint: readiness.dependency_hint,
        error: readiness.error,
        duration_ms: 0,
        truncated: false,
        suppressed_text_observation_count: 0,
        observations: Seq::empty(),
    }
}

/// A frame whose recognition failed.
pub open spec fn failed_frame(
    readiness: ReadinessModel,
    status: Seq<char>,
    duration_ms: int,
    error: Seq<char>,
) -> FrameModel {
    FrameModel {
        runs_ocr: true,
        status,
        backend: readiness.backend,
        language: readiness.language,
        backend_version: readiness.version,
        normalized_text: Seq::empty(),
        dependency_hint: None,
        error: Some(error),
        duration_ms,
        truncated: false,
        suppressed_text_observation_count: 0,
        observations: Seq::empty(),
    }
}

/// A frame that had to be recognised when no backend could.
pub open spec fn required_unavailable_frame(readiness: ReadinessModel) -> FrameModel {
    FrameModel {
        status: "required_backend_unavailable"@,
        error: Some(
            match readiness.error {
                Some(error) => error,
                None => "required OCR backend is unavailable"@,
            },
        ),
        ..skipped_frame(readiness)
    }
}

/// Whether a value that is not blank stands in the text, whatever the case of its ASCII letters.
pub open spec fn is_excluded(text: Seq<char>, values: Seq<Seq<char>>) -> bool {
    exists|i: int|
        0 <= i < values.len() && !text::is_blank_text(#[trigger] values[i]) && text::occurs(
            text::lowered(text),
            text::lowered(values[i]),
        )
}

/// The frame without its texts, if an excluded value stands in them.
pub open spec fn excluded(frame: FrameModel, values: Seq<Seq<char>>) -> FrameModel {
    if !text::is_blank_text(frame.normalized_text) && is_excluded(frame.normalized_text, values) {
        FrameModel {
            status: "suppressed_by_exclusion_text"@,
            normalized_text: Seq::empty(),
            suppressed_text_observation_count: frame.observations.len() as int,
            observations: Seq::empty(),
            ..frame
        }
    } else {
        frame
    }
}

/// A candidate with its text cut to the limit.
pub open spec fn limited_candidate(candidate: CandidateModel) -> CandidateModel {
    CandidateModel {
        text: cut::cut_to(candidate.text, MAX_OCR_CANDIDATE_TEXT_BYTES as int),
        ..candidate
    }
}

/// An observation with its texts cut to the limit.
pub open spec fn limited_observation(seen: ObservationModel) -> ObservationModel {
    ObservationModel {
        top_candidates: seen.top_candidates.map_values(
            |candidate: CandidateModel| limited_candidate(candidate),
        ),
        normalized_text: cut::cut_to(seen.normalized_text, MAX_OCR_CANDIDATE_TEXT_BYTES as int),
        ..seen
    }
}

/// Whether the text of a candidate exceeds the limit.
pub open spec fn is_long_candidate(candidate: CandidateModel) -> bool {
    cut::byte_len(candidate.text) > MAX_OCR_CANDIDATE_TEXT_BYTES
}

/// Whether a text of an observation exceeds the limit.
pub open spec fn is_long_observation(seen: ObservationModel) -> bool {
    ||| cut::byte_len(seen.normalized_text) > MAX_OCR_CANDIDATE_TEXT_BYTES
    ||| exists|i: int|
        0 <= i < seen.top_candidates.len() && is_long_candidate(#[trigger] seen.top_candidates[i])
}

/// The first observations, as many as may be kept.
pub open spec fn kept_observations(seen: Seq<ObservationModel>) -> Seq<ObservationModel> {
    if seen.len() > MAX_OCR_OBSERVATIONS {
        seen.take(MAX_OCR_OBSERVATIONS as int)
    } else {
        seen
    }
}

/// The observations that may be kept, each cut to the limit.
pub open spec fn limited_observations(seen: Seq<ObservationModel>) -> Seq<ObservationModel> {
    kept_observations(seen).map_values(|seen: ObservationModel| limited_observation(seen))
}

/// Whether an observation exceeds the limit.
pub open spec fn has_long_observation(seen: Seq<ObservationModel>) -> bool {
    exists|i: int| 0 <= i < seen.len() && is_long_observation(#[trigger] seen[i])
}

/// The text of a frame before it is cut: that of its observations, where there are any left.
pub open spec fn whole_text(frame: FrameModel) -> Seq<char> {
    let seen = limited_observations(frame.observations);
    if seen.len() > 0 {
        observation::joined_text(seen)
    } else {
        frame.normalized_text
    }
}

/// The frame, cut to what may be kept.
pub open spec fn limited(frame: FrameModel) -> FrameModel {
    FrameModel {
        normalized_text: cut::cut_to(whole_text(frame), MAX_OCR_NORMALIZED_TEXT_BYTES as int),
        truncated: frame.truncated || frame.observations.len() > MAX_OCR_OBSERVATIONS
            || has_long_observation(kept_observations(frame.observations)) || cut::byte_len(
            whole_text(frame),
        ) > MAX_OCR_NORMALIZED_TEXT_BYTES,
        observations: limited_observations(frame.observations),
        ..frame
    }
}

/// Cuts the texts of an observation to the limit and tells whether that took anything away.
fn limit_observation(seen: &mut OcrObservation) -> (cut: bool)
    ensures
        final(seen)@ == limited_observation(old(seen)@),
        cut == is_long_observation(old(seen)@),
{
    let ghost before = seen@;
    let mut cut = cut::truncate_string_to_bytes(
        &mut seen.normalized_text,
        MAX_OCR_CANDIDATE_TEXT_BYTES,
    );
    let total: usize = seen.top_candidates.len();
    let mut i: usize = 0;
    while i < total
        invariant
            i <= total,
            total == seen.top_candidates@.len(),
            total == before.top_candidates.len(),
            seen.bounding_box@ == before.bounding_box,
            seen.pixel_bounding_box@ == before.pixel_bounding_box,
            seen.normalized_text@ == cut::cut_to(
                before.normalized_text,
                MAX_OCR_CANDIDATE_TEXT_BYTES as int,
            ),
            forall|j: int|
                0 <= j < i ==> (#[trigger] seen.top_candidates@[j])@ == limited_candidate(
                    before.top_candidates[j],
                ),
            forall|j: int|
                i <= j < total ==> (#[trigger] seen.top_candidates@[j])@
                    == before.top_candidates[j],
            cut == (cut::byte_len(before.normalized_text) > MAX_OCR_CANDIDATE_TEXT_BYTES || exists|
                j: int,
            |
                0 <= j < i && is_long_candidate(#[trigger] before.top_candidates[j])),
        decreases total - i,
    {
        assert(seen.top_candidates@[i as int]@ == before.top_candidates[i as int]);
        let shortened = cut::truncate_string_to_bytes(
            &mut seen.top_candidates[i].text,
            MAX_OCR_CANDIDATE_TEXT_BYTES,
        );
        if shortened {
            assert(is_long_candidate(before.top_candidates[i as int]));
            cut = true;
        }
        i = i + 1;
    }
    assert(observation::candidates_view(seen.top_candidates@) =~= limited_observation(
        before,
    ).top_candidates);
    cut
}

impl OcrFrameResult {
    /// A frame that was not looked at, for the reason that the readiness gives.
    pub fn skipped(readiness: &OcrReadiness) -> (frame: OcrFrameResult)
        ensures
            frame@ == skipped_frame(readiness@),
    {
        OcrFrameResult {
            runs_ocr: false,
            status: readiness.status.clone(),
            backend: readiness.backend.clone(),
            language: readiness.language.clone(),
            backend_version: text::copy_option(&readiness.version),
            normalized_text: String::new(),
            dependency_hint: text::copy_option(&readiness.dependency_hint),
            error: text::copy_option(&readiness.error),
            duration_ms: 0,
            truncated: false,
            suppressed_text_observation_count: 0,
            observations: Vec::new(),
        }
    }

    /// A frame whose recognition failed.
    pub fn failure(readiness: &OcrReadiness, status: &str, duration_ms: u128, error: String) -> (frame:
        OcrFrameResult)
        ensures
            frame@ == failed_frame(readiness@, status@, duration_ms as int, error@),
    {
        OcrFrameResult {
            runs_ocr: true,
            status: status.to_owned(),
            backend: readiness.backend.clone(),
            language: readiness.language.clone(),
            backend_version: text::copy_option(&readiness.version),
            normalized_text: String::new(),
            dependency_hint: None,
            error: Some(error),
            duration_ms,
            truncated: false,
            suppressed_text_observation_count: 0,
            observations: Vec::new(),
        }
    }

    /// A frame that had to be recognised when no backend could.
    pub fn required_unavailable(readiness: &OcrReadiness) -> (frame: OcrFrameResult)
        ensures
            frame@ == required_unavailable_frame(readiness@),
    {
        OcrFrameResult {
            runs_ocr: false,
            status: "required_backend_unavailable".to_owned(),
            backend: readiness.backend.clone(),
            language: readiness.language.clone(),
            backend_version: text::copy_option(&readiness.version),
            normalized_text: String::new(),
            dependency_hint: text::copy_option(&readiness.dependency_hint),
            error: match &readiness.error {
                Some(error) => Some(error.clone()),
                None => Some("required OCR backend is unavailable".to_owned()),
            },
            duration_ms: 0,
            truncated: false,
            suppressed_text_observation_count: 0,
            observations: Vec::new(),
        }
    }

    /// Takes the texts out of the frame, if one of the values stands in them.
    pub fn apply_text_exclusions(&mut self, exclusion_values: &[String])
        ensures
            final(self)@ == excluded(old(self)@, text::views(exclusion_values@)),
    {
        let ghost before = self@;
        let ghost values = text::views(exclusion_values@);
        if text::is_blank(self.normalized_text.as_str()) {
            return;
        }
        let mut found = false;
        for i in 0..exclusion_values.len()
            invariant
                self@ == before,
                values == text::views(exclusion_values@),
                found == exists|j: int|
                    0 <= j < i && !text::is_blank_text(#[trigger] values[j]) && text::occurs(
                        text::lowered(before.normalized_text),
                        text::lowered(values[j]),
                    ),
        {
            assert(values[i as int] == exclusion_values@[i as int]@);
            let value = exclusion_values[i].as_str();
            if !text::is_blank(value) && text::contains_case_insensitive(
                self.normalized_text.as_str(),
                value,
            ) {
                found = true;
            }
        }
        if !found {
            return;
        }
        self.status = "suppressed_by_exclusion_text".to_owned();
        self.suppressed_text_observation_count = self.observations.len();
        self.normalized_text = String::new();
        self.observations = Vec::new();
        assert(self@ =~= excluded(before, values));
    }

    /// Cuts the frame to what may be kept.
    pub fn apply_persistence_limits(&mut self)
        ensures
            final(self)@ == limited(old(self)@),
    {
        let ghost before = self@;
        let ghost kept = kept_observations(before.observations);
        let mut truncated = false;
        if self.observations.len() > MAX_OCR_OBSERVATIONS {
            self.observations.truncate(MAX_OCR_OBSERVATIONS);
            truncated = true;
        }
        assert(observation::observations_view(self.observations@) =~= kept);
        let total: usize = self.observations.len();
        let mut i: usize = 0;
        while i < total
            invariant
                i <= total,
                total == self.observations@.len(),
                total == kept.len(),
                kept == kept_observations(before.observations),
                self@ == (FrameModel { observations: self@.observations, ..before }),
                forall|j: int|
                    0 <= j < i ==> (#[trigger] self.observations@[j])@ == limited_observation(
                        kept[j],
                    ),
                forall|j: int| i <= j < total ==> (#[trigger] self.observations@[j])@ == kept[j],
                truncated == (before.observations.len() > MAX_OCR_OBSERVATIONS || exists|j: int|
                    0 <= j < i && is_long_observation(#[trigger] kept[j])),
            decreases total - i,
        {
            assert(self.observations@[i as int]@ == kept[i as int]);
            let shortened = limit_observation(&mut self.observations[i]);
            if shortened {
                assert(is_long_observation(kept[i as int]));
                truncated = true;
            }
            i = i + 1;
        }
        assert(self@.observations =~= limited_observations(before.observations));
        if total > 0 {
            self.normalized_text = observation::join_observations(&self.observations);
        }
        assert(self.normalized_text@ == whole_text(before));
        if cut::truncate_string_to_bytes(
            &mut self.normalized_text,
            MAX_OCR_NORMALIZED_TEXT_BYTES,
        ) {
            truncated = true;
        }
        if truncated {
            self.truncated = true;
        }
        assert(self@ =~= limited(before));
    }
}

/// What is kept of a frame stays within the limits.
pub proof fn law_limits_are_kept(frame: FrameModel)
    ensures
        limited(frame).observations.len() <= MAX_OCR_OBSERVATIONS,
        cut::byte_len(limited(frame).normalized_text) <= MAX_OCR_NORMALIZED_TEXT_BYTES,
        forall|i: int|
            0 <= i < limited(frame).observations.len() ==> !is_long_observation(
                #[trigger] limited(frame).observations[i],
            ),
{
    cut::law_cut_is_longest_fitting_prefix(
        whole_text(frame),
        MAX_OCR_NORMALIZED_TEXT_BYTES as int,
    );
    let kept = kept_observations(frame.observations);
    assert forall|i: int| 0 <= i < limited(frame).observations.len() implies !is_long_observation(
        #[trigger] limited(frame).observations[i],
    ) by {
        lemma_limited_observation_is_short(kept[i]);
    }
}

proof fn lemma_limited_observation_is_short(seen: ObservationModel)
    ensures
        !is_long_observation(limited_observation(seen)),
{
    let max = MAX_OCR_CANDIDATE_TEXT_BYTES as int;
    cut::law_cut_is_longest_fitting_prefix(seen.normalized_text, max);
    assert forall|i: int| 0 <= i < seen.top_candidates.len() implies !is_long_candidate(
        #[trigger] limited_observation(seen).top_candidates[i],
    ) by {
        cut::law_cut_is_longest_fitting_prefix(seen.top_candidates[i].text, max);
    }
}

proof fn lemma_short_observation_is_kept(seen: ObservationModel)
    requires
        !is_long_observation(seen),
    ensures
        limited_observation(seen) == seen,
{
    let max = MAX_OCR_CANDIDATE_TEXT_BYTES as int;
    cut::law_cut_keeps_what_fits(seen.normalized_text, max);
    assert forall|i: int| 0 <= i < seen.top_candidates.len() implies #[trigger] limited_observation(
        seen,
    ).top_candidates[i] == seen.top_candidates[i] by {
        assert(!is_long_candidate(seen.top_candidates[i]));
        cut::law_cut_keeps_what_fits(seen.top_candidates[i].text, max);
    }
    assert(limited_observation(seen).top_candidates =~= seen.top_candidates);
}

proof fn lemma_short_observations_are_kept(seen: Seq<ObservationModel>)
    requires
        seen.len() <= MAX_OCR_OBSERVATIONS,
        !has_long_observation(seen),
    ensures
        limited_observations(seen) == seen,
{
    assert forall|i: int| 0 <= i < seen.len() implies #[trigger] limited_observations(seen)[i]
        == seen[i] by {
        assert(!is_long_observation(seen[i]));
        lemma_short_observation_is_kept(seen[i]);
    }
    assert(limited_observations(seen) =~= seen);
}

/// Cutting a frame to what may be kept twice is doing it once.
pub proof fn law_limits_twice(frame: FrameModel)
    ensures
        limited(limited(frame)) == limited(frame),
{
    let once = limited(frame);
    law_limits_are_kept(frame);
    assert(!has_long_observation(once.observations));
    lemma_short_observations_are_kept(once.observations);
    cut::law_cut_twice(whole_text(frame), MAX_OCR_NORMALIZED_TEXT_BYTES as int);
    assert(limited(once) =~= once);
}

/// Whether the text of a frame is that of its observations, one under the other.
pub open spec fn is_text_of_observations(frame: FrameModel) -> bool {
    frame.normalized_text == observation::joined_text(frame.observations)
}

/// A frame that is not marked as truncated was kept as it was; one that exceeds no limit is not
/// marked.
pub proof fn law_unmarked_frame_is_whole(frame: FrameModel)
    requires
        is_text_of_observations(frame),
    ensures
        !limited(frame).truncated ==> limited(frame) == frame,
        limited(frame).truncated <==> frame.truncated || frame.observations.len()
            > MAX_OCR_OBSERVATIONS || has_long_observation(frame.observations) || cut::byte_len(
            frame.normalized_text,
        ) > MAX_OCR_NORMALIZED_TEXT_BYTES,
{
    let seen = frame.observations;
    if seen.len() <= MAX_OCR_OBSERVATIONS && !has_long_observation(seen) {
        lemma_short_observations_are_kept(seen);
        assert(whole_text(frame) == frame.normalized_text);
        cut::law_cut_keeps_what_fits(
            frame.normalized_text,
            MAX_OCR_NORMALIZED_TEXT_BYTES as int,
        );
        if !limited(frame).truncated {
            assert(limited(frame) =~= frame);
        }
    }
}

proof fn lemma_blank_text_holds_no_value(text: Seq<char>, value: Seq<char>)
    requires
        text::is_blank_text(text),
        !text::is_blank_text(value),
    ensures
        !text::occurs(text::lowered(text), text::lowered(value)),
{
    if text::occurs(text::lowered(text), text::lowered(value)) {
        let at = choose|at: int|
            text::occurs_at(text::lowered(text), text::lowered(value), at);
        let i = choose|i: int| 0 <= i < value.len() && !text::is_white(#[trigger] value[i]);
        assert(text::lowered(text).subrange(at, at + value.len())[i] == text::lowered(value)[i]);
        assert(text::is_white(text[at + i]));
        assert(text::lower_char(text[at + i]) == text::lower_char(value[i]));
    }
}

/// Where the texts of a frame stay, no excluded value stands in them.
pub proof fn law_exclusion_leaves_no_value(frame: FrameModel, values: Seq<Seq<char>>, k: int)
    requires
        0 <= k < values.len(),
        !text::is_blank_text(values[k]),
    ensures
        !text::occurs(
            text::lowered(excluded(frame, values).normalized_text),
            text::lowered(values[k]),
        ),
{
    if text::is_blank_text(excluded(frame, values).normalized_text) {
        lemma_blank_text_holds_no_value(excluded(frame, values).normalized_text, values[k]);
    }
}

/// A frame loses all its texts or none; where it loses them, it tells how many there were.
pub proof fn law_exclusion_is_all_or_nothing(frame: FrameModel, values: Seq<Seq<char>>)
    ensures
        ({
            let left = excluded(frame, values);
            ||| left == frame
            ||| {
                &&& left.normalized_text.len() == 0
                &&& left.observations.len() == 0
                &&& left.suppressed_text_observation_count == frame.observations.len()
                &&& left.status == "suppressed_by_exclusion_text"@
            }
        }),
        excluded(excluded(frame, values), values) == excluded(frame, values),
{
}

/// The case of the ASCII letters of the excluded values does not matter.
pub proof fn law_exclusion_ignores_case(
    frame: FrameModel,
    values: Seq<Seq<char>>,
    others: Seq<Seq<char>>,
)
    requires
        values.len() == others.len(),
        forall|i: int|
            0 <= i < values.len() ==> text::lowered(#[trigger] values[i]) == text::lowered(
                others[i],
            ),
    ensures
        excluded(frame, values) == excluded(frame, others),
{
    assert forall|i: int| 0 <= i < values.len() implies text::is_blank_text(#[trigger] values[i])
        == text::is_blank_text(others[i]) by {
        let a = values[i];
        let b = others[i];
        assert(text::lowered(a).len() == a.len() && text::lowered(b).len() == b.len());
        assert forall|j: int| 0 <= j < a.len() implies text::is_white(#[trigger] a[j])
            == text::is_white(b[j]) by {
            assert(text::lowered(a)[j] == text::lowered(b)[j]);
        }
        if text::is_blank_text(a) {
            assert forall|j: int| 0 <= j < b.len() implies text::is_white(#[trigger] b[j]) by {
                assert(text::is_white(a[j]));
            }
        }
    }
    if is_excluded(frame.normalized_text, values) {
        let i = choose|i: int|
            0 <= i < values.len() && !text::is_blank_text(#[trigger] values[i]) && text::occurs(
                text::lowered(frame.normalized_text),
                text::lowered(values[i]),
            );
        assert(!text::is_blank_text(others[i]));
    }
    if is_excluded(frame.normalized_text, others) {
        let i = choose|i: int|
            0 <= i < others.len() && !text::is_blank_text(#[trigger] others[i]) && text::occurs(
                text::lowered(frame.normalized_text),
                text::lowered(others[i]),
            );
        assert(!text::is_blank_text(values[i]));
    }
}

proof fn lemma_prefix_holds_less(part: Seq<char>, whole: Seq<char>, value: Seq<char>)
    requires
        part.is_prefix_of(whole),
        text::occurs(text::lowered(part), text::lowered(value)),
    ensures
        text::occurs(text::lowered(whole), text::lowered(value)),
{
    let rest = whole.skip(part.len() as int);
    assert(whole =~= part + rest);
    text::law_occurs_in_whole(
        Seq::empty(),
        text::lowered(part),
        text::lowered(rest),
        text::lowered(value),
    );
    assert(Seq::empty() + text::lowered(part) + text::lowered(rest) =~= text::lowered(whole));
}

proof fn lemma_text_holds_what_observations_hold(
    seen: Seq<ObservationModel>,
    i: int,
    value: Seq<char>,
)
    requires
        0 <= i < seen.len(),
        text::occurs(text::lowered(seen[i].normalized_text), text::lowered(value)),
    ensures
        text::occurs(text::lowered(observation::joined_text(seen)), text::lowered(value)),
{
    let texts = observation::texts_of(seen);
    text::law_occurs_in_some_case(seen[i].normalized_text, value);
    let found = choose|found: Seq<char>| #[trigger]
        text::occurs(seen[i].normalized_text, found) && text::lowered(found) == text::lowered(value);
    assert(texts[i] == seen[i].normalized_text);
    text::law_occurs_in_joined(texts, "\n"@, i, found);
    text::law_occurs_in_some_case(observation::joined_text(seen), value);
}

/// What is kept of a frame, once the excluded values were looked for, has no observation in whose
/// text an excluded value stands.
pub proof fn law_no_kept_observation_holds_value(
    frame: FrameModel,
    values: Seq<Seq<char>>,
    k: int,
    i: int,
)
    requires
        is_text_of_observations(frame),
        0 <= k < values.len(),
        !text::is_blank_text(values[k]),
        0 <= i < limited(excluded(frame, values)).observations.len(),
    ensures
        !text::occurs(
            text::lowered(limited(excluded(frame, values)).observations[i].normalized_text),
            text::lowered(values[k]),
        ),
{
    let value = values[k];
    let kept = limited(excluded(frame, values)).observations[i].normalized_text;
    let whole = frame.observations[i].normalized_text;
    assert(excluded(frame, values) == frame);
    assert(kept == cut::cut_to(whole, MAX_OCR_CANDIDATE_TEXT_BYTES as int));
    if text::occurs(text::lowered(kept), text::lowered(value)) {
        cut::law_cut_is_longest_fitting_prefix(whole, MAX_OCR_CANDIDATE_TEXT_BYTES as int);
        lemma_prefix_holds_less(kept, whole, value);
        lemma_text_holds_what_observations_hold(frame.observations, i, value);
        law_exclusion_leaves_no_value(frame, values, k);
    }
}

/// Whether the candidates of an observation have its text.
pub open spec fn candidates_agree(seen: ObservationModel) -> bool {
    forall|j: int|
        0 <= j < seen.top_candidates.len() ==> (#[trigger] seen.top_candidates[j]).text
            == seen.normalized_text
}

/// What is kept of a frame, once the excluded values were looked for, has no candidate in whose text
/// an excluded value stands.
pub proof fn law_no_kept_candidate_holds_value(
    frame: FrameModel,
    values: Seq<Seq<char>>,
    k: int,
    i: int,
    j: int,
)
    requires
        is_text_of_observations(frame),
        0 <= k < values.len(),
        !text::is_blank_text(values[k]),
        0 <= i < limited(excluded(frame, values)).observations.len(),
        candidates_agree(frame.observations[i]),
        0 <= j < limited(excluded(frame, values)).observations[i].top_candidates.len(),
    ensures
        !text::occurs(
            text::lowered(
                limited(excluded(frame, values)).observations[i].top_candidates[j].text,
            ),
            text::lowered(values[k]),
        ),
{
    law_no_kept_observation_holds_value(frame, values, k, i);
    assert(frame.observations[i].top_candidates[j].text == frame.observations[i].normalized_text);
}

/// What is kept of the text of a frame, once the excluded values were looked for, holds no excluded
/// value. (A value that runs over several lines may come about where the text of an observation was
/// cut.)
pub proof fn law_no_kept_text_holds_value(frame: FrameModel, values: Seq<Seq<char>>, k: int)
    requires
        is_text_of_observations(frame),
        0 <= k < values.len(),
        !text::is_blank_text(values[k]),
        !values[k].contains('\n') || !has_long_observation(kept_observations(frame.observations)),
    ensures
        !text::occurs(
            text::lowered(limited(excluded(frame, values)).normalized_text),
            text::lowered(values[k]),
        ),
{
    let value = values[k];
    let left = excluded(frame, values);
    let kept = limited(left).normalized_text;
    let whole = whole_text(left);
    if text::occurs(text::lowered(kept), text::lowered(value)) {
        cut::law_cut_is_longest_fitting_prefix(whole, MAX_OCR_NORMALIZED_TEXT_BYTES as int);
        lemma_prefix_holds_less(kept, whole, value);
        law_exclusion_leaves_no_value(frame, values, k);
        let seen = limited(left).observations;
        assert(seen.len() > 0);
        assert(left == frame);
        if value.contains('\n') {
            lemma_uncut_text_is_beginning(frame);
            lemma_prefix_holds_less(whole, frame.normalized_text, value);
        } else {
            lemma_value_on_one_line_is_in_observation(seen, value);
            let i = choose|i: int|
                0 <= i < seen.len() && text::occurs(
                    text::lowered((#[trigger] seen[i]).normalized_text),
                    text::lowered(value),
                );
            law_no_kept_observation_holds_value(frame, values, k, i);
        }
    }
}

proof fn lemma_uncut_text_is_beginning(frame: FrameModel)
    requires
        frame.observations.len() > 0,
        is_text_of_observations(frame),
        !has_long_observation(kept_observations(frame.observations)),
    ensures
        whole_text(frame).is_prefix_of(frame.normalized_text),
{
    let kept = kept_observations(frame.observations);
    lemma_short_observations_are_kept(kept);
    assert(limited_observations(frame.observations) =~= limited_observations(kept));
    let texts = observation::texts_of(frame.observations);
    assert(observation::texts_of(kept) =~= texts.take(kept.len() as int));
    text::law_joined_beginning(texts, "\n"@, kept.len() as int);
}

proof fn lemma_value_on_one_line_is_in_observation(
    seen: Seq<ObservationModel>,
    value: Seq<char>,
)
    requires
        value.len() > 0,
        !value.contains('\n'),
        text::occurs(text::lowered(observation::joined_text(seen)), text::lowered(value)),
    ensures
        exists|i: int|
            0 <= i < seen.len() && text::occurs(
                text::lowered((#[trigger] seen[i]).normalized_text),
                text::lowered(value),
            ),
{
    let whole = observation::joined_text(seen);
    text::law_occurs_in_some_case(whole, value);
    let found = choose|found: Seq<char>| #[trigger]
        text::occurs(whole, found) && text::lowered(found) == text::lowered(value);
    assert(text::lowered(found).len() == text::lowered(value).len());
    assert forall|j: int| 0 <= j < found.len() implies #[trigger] found[j] != '\n' by {
        assert(text::lowered(found)[j] == text::lowered(value)[j]);
        assert(value.contains(value[j]));
    }
    reveal_strlit("\n");
    assert("\n"@ =~= seq!['\n']);
    let texts = observation::texts_of(seen);
    text::law_occurs_in_a_piece(texts, '\n', found);
    let i = choose|i: int| 0 <= i < texts.len() && text::occurs(#[trigger] texts[i], found);
    assert(texts[i] == seen[i].normalized_text);
    text::law_occurs_in_some_case(seen[i].normalized_text, value);
}

/// A frame that was not looked at repeats what the readiness says, and has no texts.
pub proof fn law_skipped_frame_repeats_readiness(readiness: ReadinessModel)
    ensures
        ({
            let frame = skipped_frame(readiness);
            &&& !frame.runs_ocr && !frame.truncated
            &&& frame.status == readiness.status
            &&& frame.backend == readiness.backend
            &&& frame.language == readiness.language
            &&& frame.backend_version == readiness.version
            &&& frame.dependency_hint == readiness.dependency_hint
            &&& frame.error == readiness.error
            &&& frame.duration_ms == 0 && frame.suppressed_text_observation_count == 0
            &&& frame.normalized_text.len() == 0 && frame.observations.len() == 0
        }),
{
}

/// A frame that had to be recognised when no backend could repeats what the readiness says, but for
/// its status; where the readiness has no error, it has one of its own.
pub proof fn law_required_frame_repeats_readiness(readiness: ReadinessModel)
    ensures
        ({
            let frame = required_unavailable_frame(readiness);
            &&& !frame.runs_ocr && !frame.truncated
            &&& frame.status == "required_backend_unavailable"@
            &&& frame.backend == readiness.backend
            &&& frame.language == readiness.language
            &&& frame.backend_version == readiness.version
            &&& frame.dependency_hint == readiness.dependency_hint
            &&& readiness.error is Some ==> frame.error == readiness.error
            &&& readiness.error is None ==> frame.error == Some(
                "required OCR backend is unavailable"@,
            )
            &&& frame.duration_ms == 0 && frame.suppressed_text_observation_count == 0
            &&& frame.normalized_text.len() == 0 && frame.observations.len() == 0
        }),
{
}

/// A failed frame has the backend, the language and the version of the readiness, the status, the
/// duration and the error that it is given, no remedy and no texts.
pub proof fn law_failed_frame_says_what_failed(
    readiness: ReadinessModel,
    status: Seq<char>,
    duration_ms: int,
    error: Seq<char>,
)
    ensures
        ({
            let frame = failed_frame(readiness, status, duration_ms, error);
            &&& frame.runs_ocr && !frame.truncated
            &&& frame.status == status
            &&& frame.backend == readiness.backend
            &&& frame.language == readiness.language
            &&& frame.backend_version == readiness.version
            &&& frame.dependency_hint is None
            &&& frame.error == Some(error)
            &&& frame.duration_ms == duration_ms
            &&& frame.suppressed_text_observation_count == 0
            &&& frame.normalized_text.len() == 0 && frame.observations.len() == 0
        }),
{
}

/// A frame loses its texts exactly where a value that is not blank stands in its text, whatever the
/// case of the letters; it then says so and counts what it lost. Everything else stays as it was.
pub proof fn law_excluded_exactly_where_a_value_stands(frame: FrameModel, values: Seq<Seq<char>>)
    ensures
        ({
            let left = excluded(frame, values);
            let found = exists|k: int|
                0 <= k < values.len() && !text::is_blank_text(#[trigger] values[k])
                    && text::occurs(
                    text::lowered(frame.normalized_text),
                    text::lowered(values[k]),
                );
            &&& !found ==> left == frame
            &&& found ==> left.normalized_text.len() == 0 && left.observations.len() == 0
                && left.status == "suppressed_by_exclusion_text"@
                && left.suppressed_text_observation_count == frame.observations.len()
            &&& left.runs_ocr == frame.runs_ocr
            &&& left.backend == frame.backend
            &&& left.language == frame.language
            &&& left.backend_version == frame.backend_version
            &&& left.dependency_hint == frame.dependency_hint
            &&& left.error == frame.error
            &&& left.duration_ms == frame.duration_ms
            &&& left.truncated == frame.truncated
        }),
{
    if text::is_blank_text(frame.normalized_text) {
        assert forall|k: int|
            0 <= k < values.len() && !text::is_blank_text(#[trigger] values[k]) implies !text::occurs(
            text::lowered(frame.normalized_text),
            text::lowered(values[k]),
        ) by {
            lemma_blank_text_holds_no_value(frame.normalized_text, values[k]);
        }
    }
}

/// Whether a text is the longest beginning of another one that fits into a number of bytes.
pub open spec fn is_longest_beginning(part: Seq<char>, whole: Seq<char>, max: int) -> bool {
    &&& part.is_prefix_of(whole)
    &&& cut::byte_len(part) <= max
    &&& forall|n: int|
        part.len() < n <= whole.len() ==> cut::byte_len(#[trigger] whole.take(n)) > max
}

/// What is kept of an observation is that observation, at the same position among the first two
/// hundred, with its text and the texts of its candidates cut to 512 bytes and nothing else changed.
pub proof fn law_kept_observation_is_the_cut_one(frame: FrameModel, i: int, j: int)
    requires
        0 <= i < limited(frame).observations.len(),
    ensures
        limited(frame).observations.len() == if frame.observations.len() <= 200 {
            frame.observations.len() as int
        } else {
            200
        },
        i < frame.observations.len(),
        ({
            let kept = limited(frame).observations[i];
            let whole = frame.observations[i];
            &&& kept.bounding_box == whole.bounding_box
            &&& kept.pixel_bounding_box == whole.pixel_bounding_box
            &&& is_longest_beginning(kept.normalized_text, whole.normalized_text, 512)
            &&& kept.top_candidates.len() == whole.top_candidates.len()
            &&& 0 <= j < whole.top_candidates.len() ==> kept.top_candidates[j].confidence
                == whole.top_candidates[j].confidence && is_longest_beginning(
                kept.top_candidates[j].text,
                whole.top_candidates[j].text,
                512,
            )
        }),
{
    let whole = frame.observations[i];
    cut::law_cut_is_longest_fitting_prefix(whole.normalized_text, 512);
    if 0 <= j < whole.top_candidates.len() {
        cut::law_cut_is_longest_fitting_prefix(whole.top_candidates[j].text, 512);
    }
}

/// The kept text of a frame is the longest beginning, of at most 32768 bytes, of the kept texts of
/// its observations one under the other, or, where there are none, of its own text. Everything but
/// the texts, the observations and the mark stays as it was, and the mark is never taken away.
pub proof fn law_kept_text_is_that_of_kept_observations(frame: FrameModel)
    ensures
        ({
            let kept = limited(frame);
            &&& frame.observations.len() > 0 ==> is_longest_beginning(
                kept.normalized_text,
                observation::joined_text(kept.observations),
                32768,
            )
            &&& frame.observations.len() == 0 ==> is_longest_beginning(
                kept.normalized_text,
                frame.normalized_text,
                32768,
            )
            &&& kept.runs_ocr == frame.runs_ocr
            &&& kept.status == frame.status
            &&& kept.backend == frame.backend
            &&& kept.language == frame.language
            &&& kept.backend_version == frame.backend_version
            &&& kept.dependency_hint == frame.dependency_hint
            &&& kept.error == frame.error
            &&& kept.duration_ms == frame.duration_ms
            &&& kept.suppressed_text_observation_count
                == frame.suppressed_text_observation_count
            &&& frame.truncated ==> kept.truncated
        }),
{
    cut::law_cut_is_longest_fitting_prefix(whole_text(frame), 32768);
}

/// A frame that was not marked is marked exactly where something was cut: an observation, a text of
/// one, or the text of the frame.
pub proof fn law_marked_exactly_where_something_was_cut(frame: FrameModel)
    requires
        !frame.truncated,
    ensures
        limited(frame).truncated <==> {
            ||| frame.observations.len() > 200
            ||| exists|i: int|
                0 <= i < frame.observations.len() && i < 200 && has_text_over(
                    #[trigger] frame.observations[i],
                    512,
                )
            ||| cut::byte_len(
                if frame.observations.len() > 0 {
                    observation::joined_text(limited(frame).observations)
                } else {
                    frame.normalized_text
                },
            ) > 32768
        },
{
    let kept = kept_observations(frame.observations);
    assert forall|i: int| 0 <= i < kept.len() implies kept[i] == #[trigger] frame.observations[i]
        && is_long_observation(kept[i]) == has_text_over(frame.observations[i], 512) by {
        let seen = frame.observations[i];
        if has_text_over(seen, 512) && !(cut::byte_len(seen.normalized_text) > 512) {
            let j = choose|j: int|
                0 <= j < seen.top_candidates.len() && cut::byte_len(
                    (#[trigger] seen.top_candidates[j]).text,
                ) > 512;
            assert(is_long_candidate(seen.top_candidates[j]));
        }
    }
    if has_long_observation(kept) {
        let i = choose|i: int| 0 <= i < kept.len() && is_long_observation(#[trigger] kept[i]);
        assert(has_text_over(frame.observations[i], 512));
    }
    if exists|i: int|
        0 <= i < frame.observations.len() && i < 200 && has_text_over(
            #[trigger] frame.observations[i],
            512,
        ) {
        let i = choose|i: int|
            0 <= i < frame.observations.len() && i < 200 && has_text_over(
                #[trigger] frame.observations[i],
                512,
            );
        assert(is_long_observation(kept[i]));
    }
}

/// Whether a text of an observation, its own or that of a candidate, takes more than some bytes.
pub open spec fn has_text_over(seen: ObservationModel, max: int) -> bool {
    ||| cut::byte_len(seen.normalized_text) > max
    ||| exists|j: int|
        0 <= j < seen.top_candidates.len() && cut::byte_len((#[trigger] seen.top_candidates[j]).text)
            > max
}

} // verus!
