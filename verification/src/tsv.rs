//! The table of words that Tesseract writes, and the lines of text in it.

use crate::double;
use crate::double::Real;
use crate::error::OcrError;
use crate::number;
use crate::observation;
use crate::observation::{
    CandidateModel, Confidence, ConfidenceModel, Fraction, FractionModel, NormalizedBoundingBox,
    NormalizedBoxModel, ObservationModel, OcrCandidate, OcrObservation, PixelBoundingBox,
    PixelBoxModel, NORMALIZED_SPACE, PIXEL_SPACE,
};
use crate::text;
use vstd::prelude::*;
use vstd::slice::slice_subrange;
use vstd::string::*;

verus! {

/// A word of the table.
#[derive(Debug, PartialEq, Eq)]
pub struct TsvWord {
    pub page: String,
    pub block: String,
    pub paragraph: String,
    pub line: String,
    pub left: u32,
    pub top: u32,
    pub width: u32,
    pub height: u32,
    pub confidence: String,
    pub text: String,
}

/// A `TsvWord`, strings taken as their characters.
#[verifier::ext_equal]
pub struct WordModel {
    pub page: Seq<char>,
    pub block: Seq<char>,
    pub paragraph: Seq<char>,
    pub line: Seq<char>,
    pub left: int,
    pub top: int,
    pub width: int,
    pub height: int,
    pub confidence: Seq<char>,
    pub text: Seq<char>,
}

impl View for TsvWord {
    type V = WordModel;

    open spec fn view(&self) -> WordModel {
        WordModel {
            page: self.page@,
            block: self.block@,
            paragraph: self.paragraph@,
            line: self.line@,
            left: self.left as int,
            top: self.top as int,
            width: self.width as int,
            height: self.height as int,
            confidence: self.confidence@,
            text: self.text@,
        }
    }
}

/// The views of some words.
pub open spec fn words_view(words: Seq<TsvWord>) -> Seq<WordModel> {
    words.map_values(|word: TsvWord| word@)
}

/// The sum of two coordinates, at most the largest `u32`.
pub open spec fn capped_sum(a: int, b: int) -> int {
    if a + b > u32::MAX {
        u32::MAX as int
    } else {
        a + b
    }
}

/// The least coordinate in a list that is not empty.
pub open spec fn least(values: Seq<int>) -> int
    decreases values.len(),
{
    if values.len() <= 1 {
        values[0]
    } else if values.last() < least(values.drop_last()) {
        values.last()
    } else {
        least(values.drop_last())
    }
}

/// The greatest coordinate in a list that is not empty.
pub open spec fn greatest(values: Seq<int>) -> int
    decreases values.len(),
{
    if values.len() <= 1 {
        values[0]
    } else if values.last() > greatest(values.drop_last()) {
        values.last()
    } else {
        greatest(values.drop_last())
    }
}

/// The left edges of some words.
pub open spec fn lefts(words: Seq<WordModel>) -> Seq<int> {
    words.map_values(|word: WordModel| word.left)
}

/// The top edges of some words.
pub open spec fn tops(words: Seq<WordModel>) -> Seq<int> {
    words.map_values(|word: WordModel| word.top)
}

/// The right edges of some words.
pub open spec fn rights(words: Seq<WordModel>) -> Seq<int> {
    words.map_values(|word: WordModel| capped_sum(word.left, word.width))
}

/// The bottom edges of some words.
pub open spec fn bottoms(words: Seq<WordModel>) -> Seq<int> {
    words.map_values(|word: WordModel| capped_sum(word.top, word.height))
}

/// The texts of some words.
pub open spec fn word_texts(words: Seq<WordModel>) -> Seq<Seq<char>> {
    words.map_values(|word: WordModel| word.text)
}

/// What the table says of the confidence in some words.
pub open spec fn word_confidences(words: Seq<WordModel>) -> Seq<Seq<char>> {
    words.map_values(|word: WordModel| word.confidence)
}

/// The edges of the smallest rectangle around some words.
pub struct EdgesModel {
    pub x1: int,
    pub y1: int,
    pub x2: int,
    pub y2: int,
}

/// The edges of the smallest rectangle around some words.
pub open spec fn edges_of(words: Seq<WordModel>) -> EdgesModel {
    if words.len() == 0 {
        EdgesModel { x1: 0, y1: 0, x2: 0, y2: 0 }
    } else {
        EdgesModel {
            x1: least(lefts(words)),
            y1: least(tops(words)),
            x2: greatest(rights(words)),
            y2: greatest(bottoms(words)),
        }
    }
}

/// The observation of a line of words.
pub open spec fn observation_of_words(
    words: Seq<WordModel>,
    image_width: u32,
    image_height: u32,
) -> ObservationModel {
    let edges = edges_of(words);
    let width = edges.x2 - edges.x1;
    let height = edges.y2 - edges.y1;
    let line = text::joined(word_texts(words), " "@);
    ObservationModel {
        bounding_box: NormalizedBoxModel {
            x: if image_width == 0 {
                FractionModel::Zero
            } else {
                FractionModel::Ratio {
                    part: double::whole_bits(edges.x1 as u32),
                    whole: image_width,
                }
            },
            y: if image_height == 0 {
                FractionModel::Zero
            } else {
                FractionModel::OneMinusRatio {
                    part: double::whole_bits(edges.y2 as u32),
                    whole: image_height,
                }
            },
            width: if image_width == 0 {
                FractionModel::Zero
            } else {
                FractionModel::Ratio { part: double::whole_bits(width as u32), whole: image_width }
            },
            height: if image_height == 0 {
                FractionModel::Zero
            } else {
                FractionModel::Ratio {
                    part: double::whole_bits(height as u32),
                    whole: image_height,
                }
            },
            coordinate_space: NORMALIZED_SPACE@,
        },
        pixel_bounding_box: PixelBoxModel {
            x: edges.x1,
            y: edges.y1,
            width,
            height,
            coordinate_space: PIXEL_SPACE@,
        },
        top_candidates: seq![
            CandidateModel {
                text: line,
                confidence: ConfidenceModel::Mean(word_confidences(words)),
            },
        ],
        normalized_text: line,
    }
}

fn ratio_of(part: u32, whole: u32) -> (r: Fraction)
    ensures
        r@ == if whole == 0 {
            FractionModel::Zero
        } else {
            FractionModel::Ratio { part: double::whole_bits(part), whole }
        },
{
    if whole == 0 {
        Fraction::Zero
    } else {
        Fraction::Ratio { part: Real::from_u32(part), whole }
    }
}

fn one_minus_ratio_of(part: u32, whole: u32) -> (r: Fraction)
    ensures
        r@ == if whole == 0 {
            FractionModel::Zero
        } else {
            FractionModel::OneMinusRatio { part: double::whole_bits(part), whole }
        },
{
    if whole == 0 {
        Fraction::Zero
    } else {
        Fraction::OneMinusRatio { part: Real::from_u32(part), whole }
    }
}

fn capped_add(a: u32, b: u32) -> (r: u32)
    ensures
        r == capped_sum(a as int, b as int),
{
    if a > u32::MAX - b {
        u32::MAX
    } else {
        a + b
    }
}

/// The edges of the smallest rectangle around some words.
fn edges_around(words: &[TsvWord]) -> (r: (u32, u32, u32, u32))
    ensures
        ({
            let edges = edges_of(words_view(words@));
            &&& r.0 == edges.x1
            &&& r.1 == edges.y1
            &&& r.2 == edges.x2
            &&& r.3 == edges.y2
            &&& r.0 <= r.2
            &&& r.1 <= r.3
        }),
{
    let ghost all = words_view(words@);
    if words.len() == 0 {
        return (0, 0, 0, 0);
    }
    let mut x1: u32 = words[0].left;
    let mut y1: u32 = words[0].top;
    let mut x2: u32 = capped_add(words[0].left, words[0].width);
    let mut y2: u32 = capped_add(words[0].top, words[0].height);
    assert(all.take(1)[0] == words@[0]@);
    for i in 1..words.len()
        invariant
            all == words_view(words@),
            x1 == least(lefts(all.take(i as int))),
            y1 == least(tops(all.take(i as int))),
            x2 == greatest(rights(all.take(i as int))),
            y2 == greatest(bottoms(all.take(i as int))),
            x1 <= x2,
            y1 <= y2,
    {
        let ghost done = all.take(i + 1);
        assert(done.last() == words@[i as int]@);
        assert(lefts(done).drop_last() =~= lefts(all.take(i as int)));
        assert(tops(done).drop_last() =~= tops(all.take(i as int)));
        assert(rights(done).drop_last() =~= rights(all.take(i as int)));
        assert(bottoms(done).drop_last() =~= bottoms(all.take(i as int)));
        let right: u32 = capped_add(words[i].left, words[i].width);
        let bottom: u32 = capped_add(words[i].top, words[i].height);
        if words[i].left < x1 {
            x1 = words[i].left;
        }
        if words[i].top < y1 {
            y1 = words[i].top;
        }
        if right > x2 {
            x2 = right;
        }
        if bottom > y2 {
            y2 = bottom;
        }
    }
    assert(all.take(words@.len() as int) =~= all);
    (x1, y1, x2, y2)
}

/// The observation of a line of words.
pub fn observation_from_words(words: &[TsvWord], image_width: u32, image_height: u32) -> (r:
    OcrObservation)
    ensures
        r@ == observation_of_words(words_view(words@), image_width, image_height),
{
    let ghost all = words_view(words@);
    let (x1, y1, x2, y2) = edges_around(words);
    let width: u32 = x2 - x1;
    let height: u32 = y2 - y1;
    let mut texts: Vec<String> = Vec::new();
    let mut confidences: Vec<String> = Vec::new();
    for i in 0..words.len()
        invariant
            all == words_view(words@),
            texts@.len() == i,
            confidences@.len() == i,
            forall|j: int| 0 <= j < i ==> (#[trigger] texts@[j])@ == all[j].text,
            forall|j: int| 0 <= j < i ==> (#[trigger] confidences@[j])@ == all[j].confidence,
    {
        texts.push(words[i].text.clone());
        confidences.push(words[i].confidence.clone());
    }
    assert(text::views(texts@) =~= word_texts(all));
    assert(text::views(confidences@) =~= word_confidences(all));
    let line = text::join(&texts, " ");
    let mut candidates: Vec<OcrCandidate> = Vec::new();
    candidates.push(
        OcrCandidate { text: line.clone(), confidence: Confidence::Mean(confidences) },
    );
    assert(observation::candidates_view(candidates@) =~= seq![
        CandidateModel {
            text: line@,
            confidence: ConfidenceModel::Mean(word_confidences(all)),
        },
    ]);
    OcrObservation {
        bounding_box: NormalizedBoundingBox {
            x: ratio_of(x1, image_width),
            y: one_minus_ratio_of(y2, image_height),
            width: ratio_of(width, image_width),
            height: ratio_of(height, image_height),
            coordinate_space: NORMALIZED_SPACE,
        },
        pixel_bounding_box: PixelBoundingBox {
            x: x1,
            y: y1,
            width,
            height,
            coordinate_space: PIXEL_SPACE,
        },
        top_candidates: candidates,
        normalized_text: line,
    }
}

/// Where the columns that matter stand in the table.
pub struct ColumnsModel {
    pub level: int,
    pub page: int,
    pub block: int,
    pub paragraph: int,
    pub line: int,
    pub left: int,
    pub top: int,
    pub width: int,
    pub height: int,
    pub confidence: int,
    pub text: int,
}

/// The names of the columns that matter, in the order in which they are looked for.
pub open spec fn column_names() -> Seq<Seq<char>> {
    seq![
        "level"@,
        "page_num"@,
        "block_num"@,
        "par_num"@,
        "line_num"@,
        "left"@,
        "top"@,
        "width"@,
        "height"@,
        "conf"@,
        "text"@,
    ]
}

/// The first of some names that the header lacks.
pub open spec fn first_missing(header: Seq<Seq<char>>, names: Seq<Seq<char>>) -> Option<Seq<char>>
    decreases names.len(),
{
    if names.len() == 0 {
        None
    } else if !header.contains(names[0]) {
        Some(names[0])
    } else {
        first_missing(header, names.drop_first())
    }
}

/// The first place of a name in the header.
pub open spec fn column_of(header: Seq<Seq<char>>, name: Seq<char>) -> int {
    choose|i: int| is_first_place(header, name, i)
}

/// Whether a name stands at a place in the header and at none before it.
pub open spec fn is_first_place(header: Seq<Seq<char>>, name: Seq<char>, place: int) -> bool {
    &&& 0 <= place < header.len()
    &&& header[place] == name
    &&& forall|j: int| 0 <= j < place ==> #[trigger] header[j] != name
}

/// Where the columns that matter stand, given the names in the header.
pub open spec fn columns_of(header: Seq<Seq<char>>) -> ColumnsModel {
    ColumnsModel {
        level: column_of(header, "level"@),
        page: column_of(header, "page_num"@),
        block: column_of(header, "block_num"@),
        paragraph: column_of(header, "par_num"@),
        line: column_of(header, "line_num"@),
        left: column_of(header, "left"@),
        top: column_of(header, "top"@),
        width: column_of(header, "width"@),
        height: column_of(header, "height"@),
        confidence: column_of(header, "conf"@),
        text: column_of(header, "text"@),
    }
}

/// Whether a row holds a word: it is of the level of words and its text is not blank.
pub open spec fn is_word_row(fields: Seq<Seq<char>>, columns: ColumnsModel) -> bool {
    &&& columns.text < fields.len()
    &&& columns.level < fields.len()
    &&& fields[columns.level] == "5"@
    &&& text::trimmed(fields[columns.text]).len() > 0
}

/// Whether a row reaches all the columns that matter.
pub open spec fn is_complete_row(fields: Seq<Seq<char>>, columns: ColumnsModel) -> bool {
    let n = fields.len();
    &&& columns.page < n
    &&& columns.block < n
    &&& columns.paragraph < n
    &&& columns.line < n
    &&& columns.left < n
    &&& columns.top < n
    &&& columns.width < n
    &&& columns.height < n
    &&& columns.confidence < n
}

/// The word in a row.
pub open spec fn word_of_row(fields: Seq<Seq<char>>, columns: ColumnsModel) -> WordModel {
    WordModel {
        page: fields[columns.page],
        block: fields[columns.block],
        paragraph: fields[columns.paragraph],
        line: fields[columns.line],
        left: number::parsed_u32(fields[columns.left]),
        top: number::parsed_u32(fields[columns.top]),
        width: number::parsed_u32(fields[columns.width]),
        height: number::parsed_u32(fields[columns.height]),
        confidence: fields[columns.confidence],
        text: text::trimmed(fields[columns.text]),
    }
}

/// The words in some lines of the table.
pub open spec fn words_of_lines(lines: Seq<Seq<char>>, columns: ColumnsModel) -> Seq<WordModel>
    decreases lines.len(),
{
    if lines.len() == 0 {
        Seq::empty()
    } else {
        let words = words_of_lines(lines.drop_last(), columns);
        let fields = text::split_on(lines.last(), '\t');
        if is_word_row(fields, columns) {
            words.push(word_of_row(fields, columns))
        } else {
            words
        }
    }
}

/// The names in the header of a table.
pub open spec fn header_of(tsv: Seq<char>) -> Seq<Seq<char>> {
    text::split_on(text::lines_of(tsv)[0], '\t')
}

/// The column that the table lacks, if it has a header that lacks one.
pub open spec fn missing_column(tsv: Seq<char>) -> Option<Seq<char>> {
    if text::lines_of(tsv).len() == 0 {
        None
    } else {
        first_missing(header_of(tsv), column_names())
    }
}

/// Whether every row that holds a word reaches all the columns that matter.
pub open spec fn has_complete_rows(tsv: Seq<char>) -> bool {
    let lines = text::lines_of(tsv);
    let columns = columns_of(header_of(tsv));
    forall|i: int|
        1 <= i < lines.len() && is_word_row(#[trigger] text::split_on(lines[i], '\t'), columns)
            ==> is_complete_row(text::split_on(lines[i], '\t'), columns)
}

/// The words of a table.
pub open spec fn words_of(tsv: Seq<char>) -> Seq<WordModel> {
    let lines = text::lines_of(tsv);
    if lines.len() == 0 {
        Seq::empty()
    } else {
        words_of_lines(lines.drop_first(), columns_of(header_of(tsv)))
    }
}

/// Whether two words belong to one line of text.
pub open spec fn same_line(a: WordModel, b: WordModel) -> bool {
    &&& a.page == b.page
    &&& a.block == b.block
    &&& a.paragraph == b.paragraph
    &&& a.line == b.line
}

/// The words in runs of neighbours that belong to one line of text.
pub open spec fn runs_of(words: Seq<WordModel>) -> Seq<Seq<WordModel>>
    decreases words.len(),
{
    if words.len() == 0 {
        Seq::empty()
    } else {
        let runs = runs_of(words.drop_last());
        if words.len() > 1 && same_line(words[words.len() - 2], words.last()) {
            runs.drop_last().push(runs.last().push(words.last()))
        } else {
            runs.push(seq![words.last()])
        }
    }
}

/// The observations of the lines of text in a list of words.
pub open spec fn observations_of_words(
    words: Seq<WordModel>,
    image_width: u32,
    image_height: u32,
) -> Seq<ObservationModel> {
    runs_of(words).map_values(
        |run: Seq<WordModel>| observation_of_words(run, image_width, image_height),
    )
}

/// Where the columns that matter stand in the table.
struct Columns {
    level: usize,
    page: usize,
    block: usize,
    paragraph: usize,
    line: usize,
    left: usize,
    top: usize,
    width: usize,
    height: usize,
    confidence: usize,
    text: usize,
}

impl Columns {
    spec fn model(self) -> ColumnsModel {
        ColumnsModel {
            level: self.level as int,
            page: self.page as int,
            block: self.block as int,
            paragraph: self.paragraph as int,
            line: self.line as int,
            left: self.left as int,
            top: self.top as int,
            width: self.width as int,
            height: self.height as int,
            confidence: self.confidence as int,
            text: self.text as int,
        }
    }
}

fn find_column(header: &Vec<String>, name: &str) -> (r: Result<usize, OcrError>)
    ensures
        match r {
            Ok(place) => text::views(header@).contains(name@) && place == column_of(
                text::views(header@),
                name@,
            ),
            Err(error) => !text::views(header@).contains(name@) && (
            error matches OcrError::MissingColumn(missing) && missing@ == name@),
        },
{
    let ghost names = text::views(header@);
    for i in 0..header.len()
        invariant
            names == text::views(header@),
            forall|j: int| 0 <= j < i ==> #[trigger] names[j] != name@,
    {
        assert(names[i as int] == header@[i as int]@);
        if text::same_text(header[i].as_str(), name) {
            proof {
                assert(is_first_place(names, name@, i as int));
                let chosen = column_of(names, name@);
                assert(is_first_place(names, name@, chosen));
                if chosen < i {
                    assert(names[chosen] != name@);
                } else if chosen > i {
                    assert(names[i as int] != name@);
                }
            }
            return Ok(i);
        }
    }
    Err(OcrError::MissingColumn(name.to_owned()))
}

fn find_columns(header: &Vec<String>) -> (r: Result<Columns, OcrError>)
    ensures
        match r {
            Ok(columns) => first_missing(text::views(header@), column_names()) is None
                && columns.model() == columns_of(text::views(header@)),
            Err(error) => error matches OcrError::MissingColumn(missing) && first_missing(
                text::views(header@),
                column_names(),
            ) == Some(missing@),
        },
{
    proof {
        lemma_first_missing(text::views(header@));
    }
    let level = find_column(header, "level")?;
    let page = find_column(header, "page_num")?;
    let block = find_column(header, "block_num")?;
    let paragraph = find_column(header, "par_num")?;
    let line = find_column(header, "line_num")?;
    let left = find_column(header, "left")?;
    let top = find_column(header, "top")?;
    let width = find_column(header, "width")?;
    let height = find_column(header, "height")?;
    let confidence = find_column(header, "conf")?;
    let text = find_column(header, "text")?;
    Ok(
        Columns {
            level,
            page,
            block,
            paragraph,
            line,
            left,
            top,
            width,
            height,
            confidence,
            text,
        },
    )
}

/// The first name that the header lacks, name by name.
proof fn lemma_first_missing(header: Seq<Seq<char>>)
    ensures
        first_missing(header, column_names()) == if !header.contains("level"@) {
            Some("level"@)
        } else if !header.contains("page_num"@) {
            Some("page_num"@)
        } else if !header.contains("block_num"@) {
            Some("block_num"@)
        } else if !header.contains("par_num"@) {
            Some("par_num"@)
        } else if !header.contains("line_num"@) {
            Some("line_num"@)
        } else if !header.contains("left"@) {
            Some("left"@)
        } else if !header.contains("top"@) {
            Some("top"@)
        } else if !header.contains("width"@) {
            Some("width"@)
        } else if !header.contains("height"@) {
            Some("height"@)
        } else if !header.contains("conf"@) {
            Some("conf"@)
        } else if !header.contains("text"@) {
            Some("text"@)
        } else {
            None
        },
{
    reveal_with_fuel(first_missing, 13);
}

/// The word in a row, if it holds one.
fn read_row(line: &str, columns: &Columns) -> (r: Option<TsvWord>)
    requires
        is_word_row(text::split_on(line@, '\t'), columns.model()) ==> is_complete_row(
            text::split_on(line@, '\t'),
            columns.model(),
        ),
    ensures
        match r {
            Some(word) => is_word_row(text::split_on(line@, '\t'), columns.model()) && word@
                == word_of_row(text::split_on(line@, '\t'), columns.model()),
            None => !is_word_row(text::split_on(line@, '\t'), columns.model()),
        },
{
    let fields = text::split(line, '\t');
    let ghost model = text::split_on(line@, '\t');
    assert(text::views(fields@) == model);
    assert(fields@.len() == model.len());
    assert(forall|i: int| 0 <= i < model.len() ==> (#[trigger] fields@[i])@ == model[i]) by {
        assert(forall|i: int|
            0 <= i < model.len() ==> #[trigger] text::views(fields@)[i] == fields@[i]@);
    }
    if fields.len() <= columns.text || fields.len() <= columns.level {
        return None;
    }
    if !text::same_text(fields[columns.level].as_str(), "5") {
        return None;
    }
    let word = text::trim(fields[columns.text].as_str());
    if word.as_str().is_empty() {
        return None;
    }
    Some(
        TsvWord {
            page: fields[columns.page].clone(),
            block: fields[columns.block].clone(),
            paragraph: fields[columns.paragraph].clone(),
            line: fields[columns.line].clone(),
            left: number::parse_u32(fields[columns.left].as_str()),
            top: number::parse_u32(fields[columns.top].as_str()),
            width: number::parse_u32(fields[columns.width].as_str()),
            height: number::parse_u32(fields[columns.height].as_str()),
            confidence: fields[columns.confidence].clone(),
            text: word,
        },
    )
}

/// Whether a row reaches all the columns that matter, or holds no word.
fn row_is_complete(line: &str, columns: &Columns) -> (r: bool)
    ensures
        r == (is_word_row(text::split_on(line@, '\t'), columns.model()) ==> is_complete_row(
            text::split_on(line@, '\t'),
            columns.model(),
        )),
{
    let fields = text::split(line, '\t');
    let ghost model = text::split_on(line@, '\t');
    assert(text::views(fields@) == model);
    assert(fields@.len() == model.len());
    let n: usize = fields.len();
    if n <= columns.text || n <= columns.level {
        return true;
    }
    assert(text::views(fields@)[columns.level as int] == fields@[columns.level as int]@);
    assert(text::views(fields@)[columns.text as int] == fields@[columns.text as int]@);
    if !text::same_text(fields[columns.level].as_str(), "5") {
        return true;
    }
    if text::trim(fields[columns.text].as_str()).as_str().is_empty() {
        return true;
    }
    columns.page < n && columns.block < n && columns.paragraph < n && columns.line < n
        && columns.left < n && columns.top < n && columns.width < n && columns.height < n
        && columns.confidence < n
}

/// Whether every row that holds a word reaches all the columns that matter. A table without a
/// column that matters has no such rows.
pub fn rows_are_complete(tsv: &str) -> (r: bool)
    ensures
        r == (missing_column(tsv@) is None ==> has_complete_rows(tsv@)),
{
    let lines = text::lines(tsv);
    let ghost model = text::lines_of(tsv@);
    assert(text::views(lines@) == model);
    assert(lines@.len() == model.len());
    if lines.len() == 0 {
        return true;
    }
    assert(text::views(lines@)[0] == lines@[0]@);
    let header = text::split(lines[0].as_str(), '\t');
    let columns = match find_columns(&header) {
        Ok(columns) => columns,
        Err(_) => {
            return true;
        },
    };
    for i in 1..lines.len()
        invariant
            text::views(lines@) == model,
            lines@.len() == model.len(),
            model == text::lines_of(tsv@),
            missing_column(tsv@) is None,
            columns.model() == columns_of(header_of(tsv@)),
            forall|j: int|
                1 <= j < i && is_word_row(
                    #[trigger] text::split_on(model[j], '\t'),
                    columns.model(),
                ) ==> is_complete_row(text::split_on(model[j], '\t'), columns.model()),
    {
        assert(text::views(lines@)[i as int] == lines@[i as int]@);
        if !row_is_complete(lines[i].as_str(), &columns) {
            assert(is_word_row(text::split_on(model[i as int], '\t'), columns.model()));
            return false;
        }
    }
    true
}

/// Whether two words belong to one line of text.
fn on_same_line(a: &TsvWord, b: &TsvWord) -> (r: bool)
    ensures
        r == same_line(a@, b@),
{
    text::same_text(a.page.as_str(), b.page.as_str()) && text::same_text(
        a.block.as_str(),
        b.block.as_str(),
    ) && text::same_text(a.paragraph.as_str(), b.paragraph.as_str()) && text::same_text(
        a.line.as_str(),
        b.line.as_str(),
    )
}

/// The last run of a list of words is a run of its last words, and what comes before it is the
/// runs of the words before it.
proof fn lemma_last_run(words: Seq<WordModel>, start: int)
    requires
        0 <= start < words.len(),
        start > 0 ==> !same_line(words[start - 1], words[start]),
        forall|i: int| start < i < words.len() ==> same_line(words[i - 1], #[trigger] words[i]),
    ensures
        runs_of(words) == runs_of(words.take(start)).push(
            words.subrange(start, words.len() as int),
        ),
    decreases words.len(),
{
    let n = words.len();
    if n - 1 > start {
        let before = words.drop_last();
        assert forall|i: int| start < i < before.len() implies same_line(
            before[i - 1],
            #[trigger] before[i],
        ) by {
            assert(same_line(words[i - 1], words[i]));
        }
        lemma_last_run(before, start);
        assert(before.take(start) =~= words.take(start));
        assert(same_line(words[n - 2], words[n - 1]));
        let run = before.subrange(start, n - 1);
        assert(run.push(words.last()) =~= words.subrange(start, n as int));
        assert(runs_of(before).drop_last() =~= runs_of(words.take(start)));
    } else {
        assert(words.drop_last() =~= words.take(start));
        assert(seq![words.last()] =~= words.subrange(start, n as int));
    }
}

/// The observations of the lines of text in a list of words.
fn observe_lines(words: &Vec<TsvWord>, image_width: u32, image_height: u32) -> (r: Vec<
    OcrObservation,
>)
    ensures
        observation::observations_view(r@) == observations_of_words(
            words_view(words@),
            image_width,
            image_height,
        ),
{
    let ghost all = words_view(words@);
    let mut observations: Vec<OcrObservation> = Vec::new();
    if words.len() == 0 {
        assert(observation::observations_view(observations@) =~= observations_of_words(
            all,
            image_width,
            image_height,
        ));
        return observations;
    }
    let mut start: usize = 0;
    assert(observation::observations_view(observations@) =~= observations_of_words(
        all.take(0),
        image_width,
        image_height,
    ));
    for i in 1..words.len()
        invariant
            all == words_view(words@),
            start < i <= words@.len(),
            start > 0 ==> !same_line(all[start - 1], all[start as int]),
            forall|j: int| start < j < i ==> same_line(all[j - 1], #[trigger] all[j]),
            observation::observations_view(observations@) == observations_of_words(
                all.take(start as int),
                image_width,
                image_height,
            ),
    {
        assert(all[i as int] == words@[i as int]@);
        assert(all[i - 1] == words@[i - 1]@);
        if !on_same_line(&words[i - 1], &words[i]) {
            push_run(&mut observations, words, start, i, image_width, image_height);
            start = i;
        }
    }
    push_run(&mut observations, words, start, words.len(), image_width, image_height);
    assert(all.take(words@.len() as int) =~= all);
    observations
}

/// Appends the observation of a run of words.
fn push_run(
    observations: &mut Vec<OcrObservation>,
    words: &Vec<TsvWord>,
    start: usize,
    end: usize,
    image_width: u32,
    image_height: u32,
)
    requires
        start < end <= words@.len(),
        start > 0 ==> !same_line(
            words_view(words@)[start - 1],
            words_view(words@)[start as int],
        ),
        forall|j: int|
            start < j < end ==> same_line(
                words_view(words@)[j - 1],
                #[trigger] words_view(words@)[j],
            ),
        observation::observations_view(old(observations)@) == observations_of_words(
            words_view(words@).take(start as int),
            image_width,
            image_height,
        ),
    ensures
        observation::observations_view(final(observations)@) == observations_of_words(
            words_view(words@).take(end as int),
            image_width,
            image_height,
        ),
{
    let ghost all = words_view(words@);
    let ghost done = all.take(end as int);
    let run = slice_subrange(words.as_slice(), start, end);
    let observation = observation_from_words(run, image_width, image_height);
    proof {
        assert(words_view(run@) =~= done.subrange(start as int, end as int));
        assert forall|j: int| start < j < done.len() implies same_line(
            done[j - 1],
            #[trigger] done[j],
        ) by {
            assert(same_line(all[j - 1], all[j]));
        }
        lemma_last_run(done, start as int);
        assert(done.take(start as int) =~= all.take(start as int));
    }
    let ghost before = observations@;
    observations.push(observation);
    assert(observation::observations_view(observations@) =~= observation::observations_view(
        before,
    ).push(observation@));
    assert(observations_of_words(done, image_width, image_height) =~= observations_of_words(
        all.take(start as int),
        image_width,
        image_height,
    ).push(observation@));
}

/// The observations in the table that Tesseract wrote: one for every run of words that belong to
/// one line of text.
pub fn observations_from_tsv(tsv: &str, image_width: u32, image_height: u32) -> (r: Result<
    Vec<OcrObservation>,
    OcrError,
>)
    requires
        missing_column(tsv@) is None ==> has_complete_rows(tsv@),
    ensures
        match r {
            Ok(observations) => missing_column(tsv@) is None && observation::observations_view(
                observations@,
            ) == observations_of_words(words_of(tsv@), image_width, image_height),
            Err(error) => error matches OcrError::MissingColumn(name) && missing_column(tsv@)
                == Some(name@),
        },
{
    let lines = text::lines(tsv);
    let ghost model = text::lines_of(tsv@);
    assert(text::views(lines@) == model);
    assert(lines@.len() == model.len());
    let mut words: Vec<TsvWord> = Vec::new();
    if lines.len() == 0 {
        assert(words_view(words@) =~= words_of(tsv@));
        return Ok(observe_lines(&words, image_width, image_height));
    }
    assert(text::views(lines@)[0] == lines@[0]@);
    let header = text::split(lines[0].as_str(), '\t');
    let columns = match find_columns(&header) {
        Ok(columns) => columns,
        Err(error) => {
            return Err(error);
        },
    };
    let ghost rows = model.drop_first();
    assert(words_view(words@) =~= words_of_lines(rows.take(0), columns.model()));
    for i in 1..lines.len()
        invariant
            text::views(lines@) == model,
            lines@.len() == model.len(),
            rows == model.drop_first(),
            forall|j: int|
                1 <= j < model.len() && is_word_row(
                    #[trigger] text::split_on(model[j], '\t'),
                    columns.model(),
                ) ==> is_complete_row(text::split_on(model[j], '\t'), columns.model()),
            words_view(words@) == words_of_lines(rows.take(i - 1), columns.model()),
    {
        assert(text::views(lines@)[i as int] == lines@[i as int]@);
        let ghost done = rows.take(i as int);
        assert(done.drop_last() =~= rows.take(i - 1));
        assert(done.last() == model[i as int]);
        let ghost before = words@;
        match read_row(lines[i].as_str(), &columns) {
            Some(word) => {
                words.push(word);
                assert(words_view(words@) =~= words_view(before).push(word@));
            },
            None => {},
        }
    }
    assert(rows.take(model.len() - 1) =~= rows);
    Ok(observe_lines(&words, image_width, image_height))
}

/// Some runs of words, one after the other.
pub open spec fn concatenated(runs: Seq<Seq<WordModel>>) -> Seq<WordModel>
    decreases runs.len(),
{
    if runs.len() == 0 {
        Seq::empty()
    } else {
        concatenated(runs.drop_last()) + runs.last()
    }
}

/// The runs hold every word once and in its order.
pub proof fn law_runs_keep_words(words: Seq<WordModel>)
    ensures
        concatenated(runs_of(words)) == words,
        words.len() > 0 ==> runs_of(words).len() > 0 && runs_of(words).last().len() > 0
            && runs_of(words).last().last() == words.last(),
    decreases words.len(),
{
    if words.len() > 0 {
        let before = words.drop_last();
        law_runs_keep_words(before);
        let runs = runs_of(before);
        assert(words =~= before.push(words.last()));
        if words.len() > 1 && same_line(words[words.len() - 2], words.last()) {
            assert(runs_of(words).drop_last() =~= runs.drop_last());
            let head = concatenated(runs.drop_last());
            assert(head + runs.last().push(words.last()) =~= (head + runs.last()).push(
                words.last(),
            ));
        } else {
            assert(runs_of(words).drop_last() =~= runs);
            assert(concatenated(runs) + seq![words.last()] =~= words);
        }
    }
}

/// A run is never empty and its words belong to one line of text; the words where two runs meet do
/// not.
pub proof fn law_runs_are_lines(words: Seq<WordModel>)
    ensures
        forall|i: int| 0 <= i < runs_of(words).len() ==> (#[trigger] runs_of(words)[i]).len() > 0,
        forall|i: int, j: int, k: int|
            0 <= i < runs_of(words).len() && 0 <= j < runs_of(words)[i].len() && 0 <= k
                < runs_of(words)[i].len() ==> same_line(
                #[trigger] runs_of(words)[i][j],
                #[trigger] runs_of(words)[i][k],
            ),
        forall|i: int|
            0 < i < runs_of(words).len() ==> !same_line(
                runs_of(words)[i - 1].last(),
                (#[trigger] runs_of(words)[i])[0],
            ),
    decreases words.len(),
{
    if words.len() > 0 {
        let before = words.drop_last();
        let earlier = runs_of(before);
        let runs = runs_of(words);
        let word = words.last();
        law_runs_are_lines(before);
        law_runs_keep_words(before);
        if words.len() > 1 && same_line(words[words.len() - 2], word) {
            let n = earlier.len() - 1;
            assert(earlier.last().last() == before.last());
            assert forall|i: int| 0 <= i < runs.len() implies (#[trigger] runs[i]).len() > 0 by {
                if i < n {
                    assert(runs[i] == earlier[i]);
                }
            }
            assert forall|i: int, j: int, k: int|
                0 <= i < runs.len() && 0 <= j < runs[i].len() && 0 <= k
                    < runs[i].len() implies same_line(
                #[trigger] runs[i][j],
                #[trigger] runs[i][k],
            ) by {
                if i < n {
                    assert(same_line(earlier[i][j], earlier[i][k]));
                } else {
                    let last = earlier[n].len() - 1;
                    if j <= last && k <= last {
                        assert(same_line(earlier[n][j], earlier[n][k]));
                    } else if j <= last {
                        assert(same_line(earlier[n][j], earlier[n][last]));
                    } else if k <= last {
                        assert(same_line(earlier[n][k], earlier[n][last]));
                    }
                }
            }
            assert forall|i: int| 0 < i < runs.len() implies !same_line(
                runs[i - 1].last(),
                (#[trigger] runs[i])[0],
            ) by {
                assert(!same_line(earlier[i - 1].last(), earlier[i][0]));
                assert(runs[i][0] == earlier[i][0]);
                assert(runs[i - 1] == earlier[i - 1]);
            }
        } else {
            let n = earlier.len();
            assert forall|i: int| 0 <= i < runs.len() implies (#[trigger] runs[i]).len() > 0 by {
                if i < n {
                    assert(runs[i] == earlier[i]);
                }
            }
            assert forall|i: int, j: int, k: int|
                0 <= i < runs.len() && 0 <= j < runs[i].len() && 0 <= k
                    < runs[i].len() implies same_line(
                #[trigger] runs[i][j],
                #[trigger] runs[i][k],
            ) by {
                if i < n {
                    assert(same_line(earlier[i][j], earlier[i][k]));
                }
            }
            assert forall|i: int| 0 < i < runs.len() implies !same_line(
                runs[i - 1].last(),
                (#[trigger] runs[i])[0],
            ) by {
                if i < n {
                    assert(!same_line(earlier[i - 1].last(), earlier[i][0]));
                } else {
                    assert(runs[i - 1] == earlier.last());
                }
            }
        }
    }
}

proof fn lemma_least(values: Seq<int>, i: int)
    requires
        0 <= i < values.len(),
    ensures
        least(values) <= values[i],
    decreases values.len(),
{
    if values.len() > 1 {
        if i < values.len() - 1 {
            lemma_least(values.drop_last(), i);
        }
    }
}

proof fn lemma_greatest(values: Seq<int>, i: int)
    requires
        0 <= i < values.len(),
    ensures
        values[i] <= greatest(values),
    decreases values.len(),
{
    if values.len() > 1 {
        if i < values.len() - 1 {
            lemma_greatest(values.drop_last(), i);
        }
    }
}

/// The pixels of a line of words cover every word in it.
pub proof fn law_line_covers_its_words(
    words: Seq<WordModel>,
    image_width: u32,
    image_height: u32,
    i: int,
)
    requires
        0 <= i < words.len(),
    ensures
        ({
            let pixels = observation_of_words(words, image_width, image_height).pixel_bounding_box;
            let word = words[i];
            &&& pixels.x <= word.left
            &&& pixels.y <= word.top
            &&& capped_sum(word.left, word.width) <= pixels.x + pixels.width
            &&& capped_sum(word.top, word.height) <= pixels.y + pixels.height
        }),
{
    lemma_least(lefts(words), i);
    lemma_least(tops(words), i);
    lemma_greatest(rights(words), i);
    lemma_greatest(bottoms(words), i);
}

/// Every word of a table has a text that is not blank.
pub proof fn law_words_have_text(lines: Seq<Seq<char>>, columns: ColumnsModel, i: int)
    requires
        0 <= i < words_of_lines(lines, columns).len(),
    ensures
        words_of_lines(lines, columns)[i].text.len() > 0,
    decreases lines.len(),
{
    if lines.len() > 0 {
        if i < words_of_lines(lines.drop_last(), columns).len() {
            law_words_have_text(lines.drop_last(), columns, i);
        }
    }
}

/// Every measure of the place of a line of words has a value.
pub proof fn law_line_has_measures(words: Seq<WordModel>, image_width: u32, image_height: u32)
    ensures
        observation::is_proper_box(
            observation_of_words(words, image_width, image_height).bounding_box,
        ),
{
    let edges = edges_of(words);
    double::law_whole_numbers_exist(edges.x1 as u32);
    double::law_whole_numbers_exist(edges.y2 as u32);
    double::law_whole_numbers_exist((edges.x2 - edges.x1) as u32);
    double::law_whole_numbers_exist((edges.y2 - edges.y1) as u32);
}

proof fn lemma_column(header: Seq<Seq<char>>, name: Seq<char>, place: int)
    requires
        0 <= place < header.len(),
        header[place] == name,
        forall|j: int| 0 <= j < place ==> #[trigger] header[j] != name,
    ensures
        column_of(header, name) == place,
{
    assert(is_first_place(header, name, place));
    let found = column_of(header, name);
    assert(is_first_place(header, name, found));
    if found < place {
        assert(header[found] != name);
    } else if place < found {
        assert(header[place] != name);
    }
}

/// What a row says under the first heading of a name is what the word has under that name: the
/// numbers as they are written there, the marks of page, block, paragraph and line letter by letter,
/// the text without the white space around it.
pub proof fn law_word_is_read_under_its_headings(
    header: Seq<Seq<char>>,
    fields: Seq<Seq<char>>,
    name: Seq<char>,
    place: int,
)
    requires
        0 <= place < header.len(),
        header[place] == name,
        forall|j: int| 0 <= j < place ==> #[trigger] header[j] != name,
    ensures
        ({
            let word = word_of_row(fields, columns_of(header));
            &&& name == "left"@ ==> word.left == number::parsed_u32(fields[place])
            &&& name == "top"@ ==> word.top == number::parsed_u32(fields[place])
            &&& name == "width"@ ==> word.width == number::parsed_u32(fields[place])
            &&& name == "height"@ ==> word.height == number::parsed_u32(fields[place])
            &&& name == "page_num"@ ==> word.page == fields[place]
            &&& name == "block_num"@ ==> word.block == fields[place]
            &&& name == "par_num"@ ==> word.paragraph == fields[place]
            &&& name == "line_num"@ ==> word.line == fields[place]
            &&& name == "conf"@ ==> word.confidence == fields[place]
            &&& name == "text"@ ==> word.text == text::trimmed(fields[place])
        }),
{
    lemma_column(header, name, place);
}

/// A row counts as a word exactly where it reaches the headings `level` and `text`, says `5` under
/// the first of them and something that is not blank under the other.
pub proof fn law_rows_of_level_five_are_words(
    header: Seq<Seq<char>>,
    fields: Seq<Seq<char>>,
    level: int,
    text: int,
)
    requires
        0 <= level < header.len(),
        header[level] == "level"@,
        forall|j: int| 0 <= j < level ==> #[trigger] header[j] != "level"@,
        0 <= text < header.len(),
        header[text] == "text"@,
        forall|j: int| 0 <= j < text ==> #[trigger] header[j] != "text"@,
    ensures
        is_word_row(fields, columns_of(header)) <==> level < fields.len() && text < fields.len()
            && fields[level] == seq!['5'] && !text::is_blank_text(fields[text]),
{
    lemma_column(header, "level"@, level);
    lemma_column(header, "text"@, text);
    reveal_strlit("5");
    assert("5"@ =~= seq!['5']);
    if text < fields.len() {
        text::law_trimmed_empty_iff_blank(fields[text]);
    }
}

/// A line of a single word stands where its row says: its left edge is the number under `left`, its
/// top edge the one under `top`, and its sides are those under `width` and `height`.
pub proof fn law_single_word_stands_where_its_row_says(
    header: Seq<Seq<char>>,
    fields: Seq<Seq<char>>,
    left: int,
    top: int,
    width: int,
    height: int,
    image_width: u32,
    image_height: u32,
)
    requires
        0 <= left < header.len(),
        header[left] == "left"@,
        forall|j: int| 0 <= j < left ==> #[trigger] header[j] != "left"@,
        0 <= top < header.len(),
        header[top] == "top"@,
        forall|j: int| 0 <= j < top ==> #[trigger] header[j] != "top"@,
        0 <= width < header.len(),
        header[width] == "width"@,
        forall|j: int| 0 <= j < width ==> #[trigger] header[j] != "width"@,
        0 <= height < header.len(),
        header[height] == "height"@,
        forall|j: int| 0 <= j < height ==> #[trigger] header[j] != "height"@,
        number::parsed_u32(fields[left]) + number::parsed_u32(fields[width]) <= u32::MAX,
        number::parsed_u32(fields[top]) + number::parsed_u32(fields[height]) <= u32::MAX,
    ensures
        ({
            let word = word_of_row(fields, columns_of(header));
            let pixels = observation_of_words(
                seq![word],
                image_width,
                image_height,
            ).pixel_bounding_box;
            &&& pixels.x == number::parsed_u32(fields[left])
            &&& pixels.y == number::parsed_u32(fields[top])
            &&& pixels.width == number::parsed_u32(fields[width])
            &&& pixels.height == number::parsed_u32(fields[height])
        }),
{
    law_word_is_read_under_its_headings(header, fields, "left"@, left);
    law_word_is_read_under_its_headings(header, fields, "top"@, top);
    law_word_is_read_under_its_headings(header, fields, "width"@, width);
    law_word_is_read_under_its_headings(header, fields, "height"@, height);
}

proof fn lemma_least_is_one(values: Seq<int>) -> (i: int)
    requires
        values.len() > 0,
    ensures
        0 <= i < values.len(),
        values[i] == least(values),
    decreases values.len(),
{
    if values.len() == 1 || values.last() < least(values.drop_last()) {
        values.len() - 1
    } else {
        lemma_least_is_one(values.drop_last())
    }
}

proof fn lemma_greatest_is_one(values: Seq<int>) -> (i: int)
    requires
        values.len() > 0,
    ensures
        0 <= i < values.len(),
        values[i] == greatest(values),
    decreases values.len(),
{
    if values.len() == 1 || values.last() > greatest(values.drop_last()) {
        values.len() - 1
    } else {
        lemma_greatest_is_one(values.drop_last())
    }
}

/// The smaller of the largest `u32` and a sum.
pub open spec fn at_most_largest(n: int) -> int {
    if n > 0xffff_ffff {
        0xffff_ffff
    } else {
        n
    }
}

/// No smaller rectangle covers a line of words: each of its edges is the edge of a word.
pub proof fn law_line_is_tight(words: Seq<WordModel>, image_width: u32, image_height: u32)
    requires
        words.len() > 0,
    ensures
        ({
            let pixels = observation_of_words(words, image_width, image_height).pixel_bounding_box;
            &&& exists|i: int| 0 <= i < words.len() && (#[trigger] words[i]).left == pixels.x
            &&& exists|i: int| 0 <= i < words.len() && (#[trigger] words[i]).top == pixels.y
            &&& exists|i: int|
                0 <= i < words.len() && at_most_largest(
                    (#[trigger] words[i]).left + words[i].width,
                ) == pixels.x + pixels.width
            &&& exists|i: int|
                0 <= i < words.len() && at_most_largest(
                    (#[trigger] words[i]).top + words[i].height,
                ) == pixels.y + pixels.height
        }),
{
    let a = lemma_least_is_one(lefts(words));
    let b = lemma_least_is_one(tops(words));
    let c = lemma_greatest_is_one(rights(words));
    let d = lemma_greatest_is_one(bottoms(words));
    assert(words[a].left == lefts(words)[a]);
    assert(words[b].top == tops(words)[b]);
    assert(at_most_largest(words[c].left + words[c].width) == rights(words)[c]);
    assert(at_most_largest(words[d].top + words[d].height) == bottoms(words)[d]);
}

/// A line of words has its pixels and its place in proportion to the frame in step: the one is the
/// other divided by the sides of the frame, measured up from the bottom.
pub proof fn law_line_place_follows_pixels(
    words: Seq<WordModel>,
    image_width: u32,
    image_height: u32,
)
    requires
        image_width > 0,
        image_height > 0,
    ensures
        ({
            let seen = observation_of_words(words, image_width, image_height);
            let pixels = seen.pixel_bounding_box;
            let place = seen.bounding_box;
            &&& observation::measure_of(place.x) == double::quotient(
                double::whole_bits(pixels.x as u32),
                image_width,
            )
            &&& observation::measure_of(place.y) == double::difference(
                double::ONE_BITS,
                double::quotient(
                    double::whole_bits((pixels.y + pixels.height) as u32),
                    image_height,
                ),
            )
            &&& observation::measure_of(place.width) == double::quotient(
                double::whole_bits(pixels.width as u32),
                image_width,
            )
            &&& observation::measure_of(place.height) == double::quotient(
                double::whole_bits(pixels.height as u32),
                image_height,
            )
            &&& place.coordinate_space == "vision-normalized-bottom-left"@
            &&& pixels.coordinate_space == "pixel-top-left"@
        }),
{
}

/// In a frame without extent a line of words has no place in proportion to it.
pub proof fn law_line_in_frame_without_extent(words: Seq<WordModel>, side: u32)
    ensures
        ({
            let place = observation_of_words(words, 0, side).bounding_box;
            observation::measure_of(place.x) == 0 && observation::measure_of(place.width) == 0
        }),
        ({
            let place = observation_of_words(words, side, 0).bounding_box;
            observation::measure_of(place.y) == 0 && observation::measure_of(place.height) == 0
        }),
{
}

/// A line of words has the texts of its words with a blank between any two: adding a word adds a
/// blank and its text. It has one candidate, with that text and the confidences of the words in
/// their order.
pub proof fn law_line_text_grows_by_word(
    words: Seq<WordModel>,
    word: WordModel,
    image_width: u32,
    image_height: u32,
)
    ensures
        ({
            let seen = observation_of_words(words, image_width, image_height);
            let more = observation_of_words(words.push(word), image_width, image_height);
            &&& words.len() == 0 ==> more.normalized_text == word.text
            &&& words.len() > 0 ==> more.normalized_text == seen.normalized_text + seq![' ']
                + word.text
            &&& more.top_candidates.len() == 1
            &&& more.top_candidates[0].text == more.normalized_text
            &&& seen.top_candidates[0].confidence matches ConfidenceModel::Mean(fields)
                && more.top_candidates[0].confidence == ConfidenceModel::Mean(
                fields.push(word.confidence),
            )
        }),
{
    let more = words.push(word);
    reveal_strlit(" ");
    assert(" "@ =~= seq![' ']);
    assert(word_texts(more).drop_last() =~= word_texts(words));
    assert(word_confidences(more) =~= word_confidences(words).push(word.confidence));
}

/// The words of one run share page, block, paragraph and line; where a run begins, one of these
/// differs from the run before.
pub proof fn law_runs_share_their_marks(words: Seq<WordModel>, i: int, j: int, k: int)
    requires
        0 <= i < runs_of(words).len(),
        0 <= j < runs_of(words)[i].len(),
        0 <= k < runs_of(words)[i].len(),
    ensures
        ({
            let a = runs_of(words)[i][j];
            let b = runs_of(words)[i][k];
            a.page == b.page && a.block == b.block && a.paragraph == b.paragraph && a.line == b.line
        }),
        i > 0 ==> ({
            let a = runs_of(words)[i - 1].last();
            let b = runs_of(words)[i][0];
            a.page != b.page || a.block != b.block || a.paragraph != b.paragraph || a.line
                != b.line
        }),
{
    law_runs_are_lines(words);
    assert(same_line(runs_of(words)[i][j], runs_of(words)[i][k]));
    if i > 0 {
        assert(!same_line(runs_of(words)[i - 1].last(), runs_of(words)[i][0]));
    }
}

/// There is one observation for each run of words, with the texts of that run.
pub proof fn law_one_observation_per_run(
    words: Seq<WordModel>,
    image_width: u32,
    image_height: u32,
    i: int,
)
    requires
        0 <= i < runs_of(words).len(),
    ensures
        observations_of_words(words, image_width, image_height).len() == runs_of(words).len(),
        observations_of_words(words, image_width, image_height)[i] == observation_of_words(
            runs_of(words)[i],
            image_width,
            image_height,
        ),
{
}

/// The words of a table are read from its rows below the header, from the first on: a row at the end
/// adds the word in it, if it holds one, and nothing else.
pub proof fn law_rows_add_words(rows: Seq<Seq<char>>, row: Seq<char>, columns: ColumnsModel)
    ensures
        words_of_lines(Seq::empty(), columns).len() == 0,
        ({
            let fields = text::split_on(row, '\t');
            words_of_lines(rows.push(row), columns) == if is_word_row(fields, columns) {
                words_of_lines(rows, columns).push(word_of_row(fields, columns))
            } else {
                words_of_lines(rows, columns)
            }
        }),
{
    assert(rows.push(row).drop_last() =~= rows);
}

/// The first line of a table holds its headings and the others its rows.
pub proof fn law_header_comes_first(tsv: Seq<char>)
    ensures
        ({
            let lines = text::lines_of(tsv);
            &&& lines.len() == 0 ==> words_of(tsv).len() == 0 && missing_column(tsv) is None
            &&& lines.len() > 0 ==> words_of(tsv) == words_of_lines(
                lines.skip(1),
                columns_of(text::split_on(lines[0], '\t')),
            )
        }),
{
    let lines = text::lines_of(tsv);
    if lines.len() > 0 {
        assert(lines.drop_first() =~= lines.skip(1));
    }
}

/// A table with a header lacks no column exactly where all the names stand in its first line; where
/// it lacks some, the one that is reported is not there and those that are looked for before it are.
pub proof fn law_missing_column_is_first_missing(tsv: Seq<char>)
    requires
        text::lines_of(tsv).len() > 0,
    ensures
        ({
            let names = seq![
                "level"@,
                "page_num"@,
                "block_num"@,
                "par_num"@,
                "line_num"@,
                "left"@,
                "top"@,
                "width"@,
                "height"@,
                "conf"@,
                "text"@,
            ];
            let header = text::split_on(text::lines_of(tsv)[0], '\t');
            match missing_column(tsv) {
                None => forall|i: int| 0 <= i < names.len() ==> header.contains(#[trigger] names[i]),
                Some(name) => exists|i: int|
                    0 <= i < names.len() && name == #[trigger] names[i] && !header.contains(
                        names[i],
                    ) && forall|j: int| 0 <= j < i ==> header.contains(#[trigger] names[j]),
            }
        }),
{
    let header = text::split_on(text::lines_of(tsv)[0], '\t');
    let names = column_names();
    lemma_first_missing_is_first(header, names);
    assert(names =~= seq![
        "level"@,
        "page_num"@,
        "block_num"@,
        "par_num"@,
        "line_num"@,
        "left"@,
        "top"@,
        "width"@,
        "height"@,
        "conf"@,
        "text"@,
    ]);
}

proof fn lemma_first_missing_is_first(header: Seq<Seq<char>>, names: Seq<Seq<char>>)
    ensures
        match first_missing(header, names) {
            None => forall|i: int| 0 <= i < names.len() ==> header.contains(#[trigger] names[i]),
            Some(name) => exists|i: int|
                0 <= i < names.len() && name == #[trigger] names[i] && !header.contains(names[i])
                    && forall|j: int| 0 <= j < i ==> header.contains(#[trigger] names[j]),
        },
    decreases names.len(),
{
    if names.len() > 0 {
        let rest = names.drop_first();
        if !header.contains(names[0]) {
            assert(names[0] == names[0]);
        } else {
            lemma_first_missing_is_first(header, rest);
            match first_missing(header, rest) {
                None => {
                    assert forall|i: int| 0 <= i < names.len() implies header.contains(
                        #[trigger] names[i],
                    ) by {
                        if i > 0 {
                            assert(rest[i - 1] == names[i]);
                        }
                    }
                },
                Some(name) => {
                    let i = choose|i: int|
                        0 <= i < rest.len() && name == #[trigger] rest[i] && !header.contains(rest[i])
                            && forall|j: int| 0 <= j < i ==> header.contains(#[trigger] rest[j]);
                    assert(names[i + 1] == rest[i]);
                    assert forall|j: int| 0 <= j < i + 1 implies header.contains(
                        #[trigger] names[j],
                    ) by {
                        if j > 0 {
                            assert(rest[j - 1] == names[j]);
                        }
                    }
                },
            }
        }
    }
}

/// A line without words has no extent, no text and nothing that is known of its confidence.
pub proof fn law_line_without_words_is_empty(image_width: u32, image_height: u32)
    ensures
        ({
            let seen = observation_of_words(Seq::empty(), image_width, image_height);
            &&& seen.pixel_bounding_box.x == 0 && seen.pixel_bounding_box.y == 0
            &&& seen.pixel_bounding_box.width == 0 && seen.pixel_bounding_box.height == 0
            &&& seen.normalized_text.len() == 0
            &&& seen.top_candidates.len() == 1 && seen.top_candidates[0].text.len() == 0
            &&& (seen.top_candidates[0].confidence matches ConfidenceModel::Mean(fields)
                && fields.len() == 0)
        }),
{
}

proof fn lemma_column_is_in_header(header: Seq<Seq<char>>, name: Seq<char>)
    requires
        header.contains(name),
    ensures
        0 <= column_of(header, name) < header.len(),
{
    let place = lemma_first_place(header, name);
    assert(is_first_place(header, name, place));
}

proof fn lemma_first_place(header: Seq<Seq<char>>, name: Seq<char>) -> (place: int)
    requires
        header.contains(name),
    ensures
        is_first_place(header, name, place),
    decreases header.len(),
{
    let earlier = header.drop_last();
    if earlier.contains(name) {
        let place = lemma_first_place(earlier, name);
        assert forall|j: int| 0 <= j < place implies #[trigger] header[j] != name by {
            assert(earlier[j] == header[j]);
        }
        place
    } else {
        let place = choose|place: int| 0 <= place < header.len() && header[place] == name;
        assert forall|j: int| 0 <= j < place implies #[trigger] header[j] != name by {
            assert(earlier.contains(earlier[j]));
            assert(earlier[j] == header[j]);
        }
        place
    }
}

/// A row with as many fields as a header that names every column is complete.
pub proof fn law_row_as_long_as_header_is_complete(
    header: Seq<Seq<char>>,
    fields: Seq<Seq<char>>,
)
    requires
        first_missing(header, column_names()) is None,
        header.len() <= fields.len(),
    ensures
        is_complete_row(fields, columns_of(header)),
{
    lemma_first_missing(header);
    lemma_column_is_in_header(header, "page_num"@);
    lemma_column_is_in_header(header, "block_num"@);
    lemma_column_is_in_header(header, "par_num"@);
    lemma_column_is_in_header(header, "line_num"@);
    lemma_column_is_in_header(header, "left"@);
    lemma_column_is_in_header(header, "top"@);
    lemma_column_is_in_header(header, "width"@);
    lemma_column_is_in_header(header, "height"@);
    lemma_column_is_in_header(header, "conf"@);
}

} // verus!
