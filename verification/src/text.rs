//! Strings as sequences of characters: trimming, splitting, searching and joining.

use vstd::prelude::*;
use vstd::slice::slice_subrange;
use vstd::string::*;

verus! {

/// `String::push` appends one character.
pub assume_specification[ String::push ](s: &mut String, c: char)
    ensures
        final(s)@ == old(s)@.push(c),
;

/// The characters of a string.
pub fn to_chars(s: &str) -> (chars: Vec<char>)
    ensures
        chars@ == s@,
{
    let mut chars: Vec<char> = Vec::new();
    for c in it: s.chars()
        invariant
            chars@ == it.seq().take(it.index() as int),
    {
        chars.push(c);
    }
    chars
}

/// The string made of the given characters.
pub fn from_chars(chars: &[char]) -> (s: String)
    ensures
        s@ == chars@,
{
    let mut s = String::new();
    for i in 0..chars.len()
        invariant
            s@ == chars@.take(i as int),
    {
        s.push(chars[i]);
    }
    s
}

/// The views of a list of strings.
pub open spec fn views(strings: Seq<String>) -> Seq<Seq<char>> {
    strings.map_values(|s: String| s@)
}

/// Whether two strings hold the same characters.
pub fn same_text(a: &str, b: &str) -> (same: bool)
    ensures
        same == (a@ == b@),
{
    a.to_owned() == b.to_owned()
}

/// `a` followed by `b`.
pub fn concat(a: &str, b: &str) -> (s: String)
    ensures
        s@ == a@ + b@,
{
    let mut s = a.to_owned();
    s.append(b);
    s
}

/// `a` followed by `b` and `c`.
pub fn concat3(a: &str, b: &str, c: &str) -> (s: String)
    ensures
        s@ == a@ + b@ + c@,
{
    let mut s = a.to_owned();
    s.append(b);
    s.append(c);
    s
}

/// A copy of an optional string.
pub fn copy_option(s: &Option<String>) -> (copy: Option<String>)
    ensures
        option_view(copy) == option_view(*s),
{
    match s {
        Some(s) => Some(s.clone()),
        None => None,
    }
}

/// The characters of an optional string.
pub open spec fn option_view(s: Option<String>) -> Option<Seq<char>> {
    match s {
        Some(s) => Some(s@),
        None => None,
    }
}

/// Whether Unicode gives the character the property `White_Space`.
pub open spec fn is_white(c: char) -> bool {
    let n = c as u32;
    ||| 0x9 <= n <= 0xd
    ||| n == 0x20
    ||| n == 0x85
    ||| n == 0xa0
    ||| n == 0x1680
    ||| 0x2000 <= n <= 0x200a
    ||| n == 0x2028
    ||| n == 0x2029
    ||| n == 0x202f
    ||| n == 0x205f
    ||| n == 0x3000
}

/// Whether a character is white space.
pub fn is_whitespace(c: char) -> (white: bool)
    ensures
        white == is_white(c),
{
    let n: u32 = c as u32;
    (0x9 <= n && n <= 0xd) || n == 0x20 || n == 0x85 || n == 0xa0 || n == 0x1680 || (0x2000 <= n && n
        <= 0x200a) || n == 0x2028 || n == 0x2029 || n == 0x202f || n == 0x205f || n == 0x3000
}

/// `s` without the white space it starts with.
pub open spec fn trimmed_start(s: Seq<char>) -> Seq<char>
    decreases s.len(),
{
    if s.len() > 0 && is_white(s[0]) {
        trimmed_start(s.drop_first())
    } else {
        s
    }
}

/// `s` without the white space it ends with.
pub open spec fn trimmed_end(s: Seq<char>) -> Seq<char>
    decreases s.len(),
{
    if s.len() > 0 && is_white(s.last()) {
        trimmed_end(s.drop_last())
    } else {
        s
    }
}

/// `s` without the white space around it.
pub open spec fn trimmed(s: Seq<char>) -> Seq<char> {
    trimmed_end(trimmed_start(s))
}

/// Whether `s` holds nothing but white space.
pub open spec fn is_blank_text(s: Seq<char>) -> bool {
    forall|i: int| 0 <= i < s.len() ==> is_white(#[trigger] s[i])
}

proof fn lemma_trimmed_end_blank(s: Seq<char>)
    ensures
        trimmed_end(s).len() == 0 <==> is_blank_text(s),
    decreases s.len(),
{
    if s.len() > 0 {
        if is_white(s.last()) {
            lemma_trimmed_end_blank(s.drop_last());
            if is_blank_text(s.drop_last()) {
                assert forall|i: int| 0 <= i < s.len() implies is_white(#[trigger] s[i]) by {
                    if i < s.len() - 1 {
                        assert(s.drop_last()[i] == s[i]);
                    }
                }
            }
            if is_blank_text(s) {
                assert forall|i: int| 0 <= i < s.drop_last().len() implies is_white(
                    #[trigger] s.drop_last()[i],
                ) by {
                    assert(is_white(s[i]));
                }
            }
        } else {
            assert(!is_white(s[s.len() - 1]));
        }
    }
}

proof fn lemma_trimmed_start_blank(s: Seq<char>)
    ensures
        is_blank_text(trimmed_start(s)) <==> is_blank_text(s),
    decreases s.len(),
{
    if s.len() > 0 && is_white(s[0]) {
        lemma_trimmed_start_blank(s.drop_first());
        if is_blank_text(s.drop_first()) {
            assert forall|i: int| 0 <= i < s.len() implies is_white(#[trigger] s[i]) by {
                if i > 0 {
                    assert(s.drop_first()[i - 1] == s[i]);
                }
            }
        }
        if is_blank_text(s) {
            assert forall|i: int| 0 <= i < s.drop_first().len() implies is_white(
                #[trigger] s.drop_first()[i],
            ) by {
                assert(is_white(s[i + 1]));
            }
        }
    }
}

/// Trimming leaves nothing exactly of a text that is all white space.
pub proof fn law_trimmed_empty_iff_blank(s: Seq<char>)
    ensures
        trimmed(s).len() == 0 <==> is_blank_text(s),
{
    lemma_trimmed_end_blank(trimmed_start(s));
    lemma_trimmed_start_blank(s);
}

/// The text without the white space around it.
pub fn trim(s: &str) -> (r: String)
    ensures
        r@ == trimmed(s@),
{
    let chars = to_chars(s);
    let mut low: usize = 0;
    assert(chars@.skip(0) =~= chars@);
    while low < chars.len() && is_whitespace(chars[low])
        invariant
            low <= chars@.len(),
            trimmed_start(chars@) == trimmed_start(chars@.skip(low as int)),
        decreases chars@.len() - low,
    {
        assert(chars@.skip(low as int).drop_first() =~= chars@.skip(low + 1));
        low = low + 1;
    }
    let ghost rest = chars@.skip(low as int);
    assert(trimmed_start(chars@) == rest);
    let mut high: usize = chars.len();
    assert(rest.take(high - low) =~= rest);
    while low < high && is_whitespace(chars[high - 1])
        invariant
            low <= high <= chars@.len(),
            rest == chars@.skip(low as int),
            trimmed_end(rest) == trimmed_end(rest.take(high - low)),
        decreases high,
    {
        assert(rest.take(high - low).drop_last() =~= rest.take(high - low - 1));
        assert(rest.take(high - low).last() == chars@[high - 1]);
        high = high - 1;
    }
    assert(trimmed_end(rest) == rest.take(high - low)) by {
        if low < high {
            assert(rest.take(high - low).last() == chars@[high - 1]);
        }
    }
    assert(rest.take(high - low) =~= chars@.subrange(low as int, high as int));
    from_chars(slice_subrange(chars.as_slice(), low, high))
}

/// Whether the text holds nothing but white space.
pub fn is_blank(s: &str) -> (blank: bool)
    ensures
        blank == is_blank_text(s@),
{
    for c in it: s.chars()
        invariant
            it.seq() == s@,
            forall|i: int| 0 <= i < it.index() ==> is_white(#[trigger] s@[i]),
    {
        if !is_whitespace(c) {
            assert(!is_white(s@[it.index() as int]));
            return false;
        }
    }
    true
}

/// The lower case of an ASCII letter; any other character unchanged.
pub open spec fn lower_char(c: char) -> char {
    if 'A' <= c <= 'Z' {
        (c as u8 + 32) as char
    } else {
        c
    }
}

/// The text with its ASCII letters in lower case.
pub open spec fn lowered(s: Seq<char>) -> Seq<char> {
    s.map_values(|c: char| lower_char(c))
}

/// The text with its ASCII letters in lower case.
pub fn to_lower(s: &str) -> (r: String)
    ensures
        r@ == lowered(s@),
{
    let mut r = String::new();
    for c in it: s.chars()
        invariant
            it.seq() == s@,
            r@ == lowered(s@.take(it.index() as int)),
    {
        let low: char = if 'A' <= c && c <= 'Z' {
            (c as u8 + 32) as char
        } else {
            c
        };
        assert(low == lower_char(c));
        r.push(low);
        assert(r@ =~= lowered(s@.take(it.index() as int + 1)));
    }
    assert(s@.take(s@.len() as int) =~= s@);
    r
}

/// Whether `needle` stands in `haystack` from position `at` on.
pub open spec fn occurs_at(haystack: Seq<char>, needle: Seq<char>, at: int) -> bool {
    &&& 0 <= at
    &&& at + needle.len() <= haystack.len()
    &&& haystack.subrange(at, at + needle.len()) == needle
}

/// Whether `needle` stands anywhere in `haystack`.
pub open spec fn occurs(haystack: Seq<char>, needle: Seq<char>) -> bool {
    exists|at: int| occurs_at(haystack, needle, at)
}

fn matches_at(haystack: &Vec<char>, needle: &Vec<char>, at: usize) -> (found: bool)
    requires
        at + needle@.len() <= haystack@.len(),
    ensures
        found == occurs_at(haystack@, needle@, at as int),
{
    let total: usize = haystack.len();
    for i in 0..needle.len()
        invariant
            total == haystack@.len(),
            at + needle@.len() <= total,
            forall|j: int| 0 <= j < i ==> haystack@[at + j] == #[trigger] needle@[j],
    {
        if haystack[at + i] != needle[i] {
            assert(haystack@.subrange(at as int, at + needle@.len())[i as int] == haystack@[at
                + i]);
            return false;
        }
    }
    assert(haystack@.subrange(at as int, at + needle@.len()) =~= needle@);
    true
}

/// Whether `needle` stands anywhere in `haystack`.
pub fn contains(haystack: &str, needle: &str) -> (found: bool)
    ensures
        found == occurs(haystack@, needle@),
{
    let text = to_chars(haystack);
    let pattern = to_chars(needle);
    if pattern.len() > text.len() {
        return false;
    }
    let last: usize = text.len() - pattern.len();
    let mut at: usize = 0;
    loop
        invariant
            text@ == haystack@,
            pattern@ == needle@,
            last == text@.len() - pattern@.len(),
            at <= last,
            forall|i: int| 0 <= i < at ==> !occurs_at(text@, pattern@, i),
        decreases last - at,
    {
        if matches_at(&text, &pattern, at) {
            return true;
        }
        if at == last {
            return false;
        }
        at = at + 1;
    }
}

/// Whether `needle` stands anywhere in `haystack`, ASCII letters compared without case.
pub fn contains_case_insensitive(haystack: &str, needle: &str) -> (found: bool)
    ensures
        found == occurs(lowered(haystack@), lowered(needle@)),
{
    contains(to_lower(haystack).as_str(), to_lower(needle).as_str())
}

/// What follows `prefix` in `s`, if `s` starts with it.
pub open spec fn after_prefix(s: Seq<char>, prefix: Seq<char>) -> Option<Seq<char>> {
    if prefix.len() <= s.len() && s.take(prefix.len() as int) == prefix {
        Some(s.skip(prefix.len() as int))
    } else {
        None
    }
}

/// What follows `prefix` in `s`, if `s` starts with it.
pub fn strip_prefix(s: &str, prefix: &str) -> (rest: Option<String>)
    ensures
        option_view(rest) == after_prefix(s@, prefix@),
{
    let s = to_chars(s);
    let prefix = to_chars(prefix);
    if prefix.len() > s.len() {
        return None;
    }
    assert(s@.subrange(0, prefix@.len() as int) =~= s@.take(prefix@.len() as int));
    if !matches_at(&s, &prefix, 0) {
        return None;
    }
    let rest = from_chars(slice_subrange(s.as_slice(), prefix.len(), s.len()));
    assert(rest@ =~= s@.skip(prefix@.len() as int));
    Some(rest)
}

/// The pieces of `s` between the separators in it: one more than there are separators.
pub open spec fn split_on(s: Seq<char>, separator: char) -> Seq<Seq<char>>
    decreases s.len(),
{
    if s.len() == 0 {
        seq![Seq::empty()]
    } else {
        let pieces = split_on(s.drop_last(), separator);
        if s.last() == separator {
            pieces.push(Seq::empty())
        } else {
            pieces.drop_last().push(pieces.last().push(s.last()))
        }
    }
}

/// The pieces put together, with the separator between any two of them.
pub open spec fn joined(pieces: Seq<Seq<char>>, separator: Seq<char>) -> Seq<char>
    decreases pieces.len(),
{
    if pieces.len() == 0 {
        Seq::empty()
    } else if pieces.len() == 1 {
        pieces[0]
    } else {
        joined(pieces.drop_last(), separator) + separator + pieces.last()
    }
}

proof fn lemma_split_nonempty(s: Seq<char>, separator: char)
    ensures
        split_on(s, separator).len() > 0,
    decreases s.len(),
{
    if s.len() > 0 {
        lemma_split_nonempty(s.drop_last(), separator);
    }
}

/// Splitting a text and joining its pieces gives the text back, and no piece holds the separator.
pub proof fn law_split_then_join(s: Seq<char>, separator: char)
    ensures
        joined(split_on(s, separator), seq![separator]) == s,
        forall|i: int|
            0 <= i < split_on(s, separator).len() ==> !(#[trigger] split_on(
                s,
                separator,
            )[i]).contains(separator),
    decreases s.len(),
{
    let pieces = split_on(s, separator);
    lemma_split_nonempty(s, separator);
    if s.len() > 0 {
        let before = split_on(s.drop_last(), separator);
        lemma_split_nonempty(s.drop_last(), separator);
        law_split_then_join(s.drop_last(), separator);
        if s.last() == separator {
            assert(pieces.drop_last() =~= before);
            assert(joined(pieces, seq![separator]) =~= s);
        } else {
            assert(pieces.drop_last() =~= before.drop_last());
            assert(s =~= s.drop_last().push(s.last()));
            if before.len() == 1 {
                assert(before[0] == s.drop_last());
            } else {
                let head = joined(before.drop_last(), seq![separator]) + seq![separator];
                assert(head + before.last().push(s.last()) =~= (head + before.last()).push(
                    s.last(),
                ));
            }
            assert(joined(pieces, seq![separator]) =~= s);
            let tail = before.last();
            assert(!before[before.len() - 1].contains(separator));
            assert forall|i: int| 0 <= i < tail.push(s.last()).len() implies #[trigger] tail.push(
                s.last(),
            )[i] != separator by {
                if i < tail.len() {
                    assert(tail[i] == tail.push(s.last())[i]);
                    assert(tail.contains(tail[i]));
                }
            }
        }
        assert forall|i: int| 0 <= i < pieces.len() implies !(#[trigger] pieces[i]).contains(
            separator,
        ) by {
            if i < before.len() && i < pieces.len() - 1 {
                assert(pieces[i] == before[i]);
            }
        }
    }
}

/// The pieces of `s` between the separators in it.
pub fn split(s: &str, separator: char) -> (pieces: Vec<String>)
    ensures
        views(pieces@) == split_on(s@, separator),
{
    let mut pieces: Vec<String> = Vec::new();
    let mut piece = String::new();
    assert(views(pieces@).push(piece@) =~= split_on(s@.take(0), separator));
    for c in it: s.chars()
        invariant
            it.seq() == s@,
            views(pieces@).push(piece@) == split_on(s@.take(it.index() as int), separator),
    {
        let ghost done = s@.take(it.index() as int + 1);
        assert(done.drop_last() =~= s@.take(it.index() as int));
        assert(done.last() == c);
        let ghost before = views(pieces@).push(piece@);
        assert(before.drop_last() =~= views(pieces@));
        if c == separator {
            let ghost earlier = pieces@;
            pieces.push(piece);
            piece = String::new();
            assert(views(pieces@) =~= before);
            assert(views(pieces@).push(piece@) =~= split_on(done, separator));
        } else {
            piece.push(c);
            assert(views(pieces@).push(piece@) =~= split_on(done, separator));
        }
    }
    assert(s@.take(s@.len() as int) =~= s@);
    let ghost before = views(pieces@).push(piece@);
    pieces.push(piece);
    assert(views(pieces@) =~= before);
    pieces
}

/// `line` without the carriage return it ends with, if it does.
pub open spec fn without_return(line: Seq<char>) -> Seq<char> {
    if line.len() > 0 && line.last() == '\r' {
        line.drop_last()
    } else {
        line
    }
}

/// The lines of a text. A line ends with a line feed or with a carriage return and a line feed,
/// neither of which belongs to it; the ending of the last line is optional.
pub open spec fn lines_of(s: Seq<char>) -> Seq<Seq<char>> {
    let pieces = split_on(s, '\n');
    let ended = pieces.drop_last().map_values(|line: Seq<char>| without_return(line));
    if pieces.last().len() == 0 {
        ended
    } else {
        ended.push(pieces.last())
    }
}

/// The lines of a text.
pub fn lines(s: &str) -> (r: Vec<String>)
    ensures
        views(r@) == lines_of(s@),
{
    let pieces = split(s, '\n');
    let ghost model = split_on(s@, '\n');
    proof {
        lemma_split_nonempty(s@, '\n');
        assert(views(pieces@).len() == model.len());
    }
    let last: usize = pieces.len() - 1;
    let mut r: Vec<String> = Vec::new();
    for i in 0..last
        invariant
            views(pieces@) == model,
            last == pieces@.len() - 1,
            r@.len() == i,
            forall|j: int| 0 <= j < i ==> (#[trigger] r@[j])@ == without_return(model[j]),
    {
        assert(views(pieces@)[i as int] == pieces@[i as int]@);
        let chars = to_chars(pieces[i].as_str());
        if chars.len() > 0 && chars[chars.len() - 1] == '\r' {
            let line = from_chars(slice_subrange(chars.as_slice(), 0, chars.len() - 1));
            assert(line@ =~= chars@.drop_last());
            r.push(line);
        } else {
            r.push(pieces[i].clone());
        }
    }
    assert(views(pieces@)[last as int] == pieces@[last as int]@);
    if !pieces[last].as_str().is_empty() {
        r.push(pieces[last].clone());
    }
    assert(views(r@) =~= lines_of(s@));
    r
}

/// The pieces put together, with the separator between any two of them.
pub fn join(pieces: &Vec<String>, separator: &str) -> (s: String)
    ensures
        s@ == joined(views(pieces@), separator@),
{
    let mut s = String::new();
    for i in 0..pieces.len()
        invariant
            s@ == joined(views(pieces@).take(i as int), separator@),
    {
        let ghost done = views(pieces@).take(i + 1);
        assert(done.drop_last() =~= views(pieces@).take(i as int));
        assert(done.last() == pieces@[i as int]@);
        if i > 0 {
            s.append(separator);
        }
        s.append(pieces[i].as_str());
        assert(s@ =~= joined(done, separator@));
    }
    assert(views(pieces@).take(pieces@.len() as int) =~= views(pieces@));
    s
}

/// What stands in a part of a text stands in the text.
pub proof fn law_occurs_in_whole(
    before: Seq<char>,
    part: Seq<char>,
    after: Seq<char>,
    needle: Seq<char>,
)
    requires
        occurs(part, needle),
    ensures
        occurs(before + part + after, needle),
{
    let at = choose|at: int| occurs_at(part, needle, at);
    let whole = before + part + after;
    let start = before.len() + at;
    assert(whole.subrange(start, start + needle.len()) =~= part.subrange(at, at + needle.len()));
    assert(occurs_at(whole, needle, start));
}

/// What stands in a piece stands in the joined pieces.
pub proof fn law_occurs_in_joined(
    pieces: Seq<Seq<char>>,
    separator: Seq<char>,
    i: int,
    needle: Seq<char>,
)
    requires
        0 <= i < pieces.len(),
        occurs(pieces[i], needle),
    ensures
        occurs(joined(pieces, separator), needle),
    decreases pieces.len(),
{
    if pieces.len() > 1 {
        let head = joined(pieces.drop_last(), separator);
        if i < pieces.len() - 1 {
            law_occurs_in_joined(pieces.drop_last(), separator, i, needle);
            law_occurs_in_whole(Seq::empty(), head, separator + pieces.last(), needle);
            assert(Seq::empty() + head + (separator + pieces.last()) =~= joined(pieces, separator));
        } else {
            law_occurs_in_whole(head + separator, pieces.last(), Seq::empty(), needle);
            assert(head + separator + pieces.last() + Seq::empty() =~= joined(pieces, separator));
        }
    }
}

/// The first pieces joined are a beginning of all pieces joined.
pub proof fn law_joined_beginning(pieces: Seq<Seq<char>>, separator: Seq<char>, count: int)
    requires
        0 <= count <= pieces.len(),
    ensures
        joined(pieces.take(count), separator).is_prefix_of(joined(pieces, separator)),
    decreases pieces.len(),
{
    if count == pieces.len() {
        assert(pieces.take(count) =~= pieces);
    } else if pieces.len() > 1 {
        law_joined_beginning(pieces.drop_last(), separator, count);
        assert(pieces.drop_last().take(count) =~= pieces.take(count));
    }
}

/// What stands in joined pieces and does not hold the separator stands in one of the pieces.
pub proof fn law_occurs_in_a_piece(pieces: Seq<Seq<char>>, separator: char, needle: Seq<char>)
    requires
        needle.len() > 0,
        !needle.contains(separator),
        occurs(joined(pieces, seq![separator]), needle),
    ensures
        exists|i: int| 0 <= i < pieces.len() && occurs(#[trigger] pieces[i], needle),
    decreases pieces.len(),
{
    let whole = joined(pieces, seq![separator]);
    if pieces.len() == 1 {
        assert(occurs(pieces[0], needle));
    } else if pieces.len() > 1 {
        let head = joined(pieces.drop_last(), seq![separator]);
        let at = choose|at: int| occurs_at(whole, needle, at);
        let middle = head.len() as int;
        assert(whole[middle] == separator);
        if at + needle.len() <= middle {
            assert(head.subrange(at, at + needle.len()) =~= whole.subrange(at, at + needle.len()));
            assert(occurs_at(head, needle, at));
            law_occurs_in_a_piece(pieces.drop_last(), separator, needle);
            let i = choose|i: int|
                0 <= i < pieces.drop_last().len() && occurs(#[trigger] pieces.drop_last()[i], needle);
            assert(occurs(pieces[i], needle));
        } else if at <= middle {
            assert(needle[middle - at] == whole.subrange(at, at + needle.len())[middle - at]);
            assert(needle.contains(separator));
        } else {
            let start = at - middle - 1;
            let last = pieces[pieces.len() - 1];
            assert(last.subrange(start, start + needle.len()) =~= whole.subrange(
                at,
                at + needle.len(),
            ));
            assert(occurs_at(last, needle, start));
            assert(occurs(last, needle));
        }
    }
}

/// A text stands in another, whatever the case of its ASCII letters, where a text that differs from
/// it in their case only stands in the other.
pub proof fn law_occurs_in_some_case(haystack: Seq<char>, needle: Seq<char>)
    ensures
        occurs(lowered(haystack), lowered(needle)) <==> exists|found: Seq<char>|
            #[trigger] occurs(haystack, found) && lowered(found) == lowered(needle),
{
    if occurs(lowered(haystack), lowered(needle)) {
        let at = choose|at: int| occurs_at(lowered(haystack), lowered(needle), at);
        let found = haystack.subrange(at, at + needle.len());
        assert(occurs_at(haystack, found, at));
        assert(lowered(found) =~= lowered(haystack).subrange(at, at + needle.len()));
        assert(occurs(haystack, found) && lowered(found) == lowered(needle));
    }
    if exists|found: Seq<char>|
        #[trigger] occurs(haystack, found) && lowered(found) == lowered(needle) {
        let found = choose|found: Seq<char>| #[trigger]
            occurs(haystack, found) && lowered(found) == lowered(needle);
        let at = choose|at: int| occurs_at(haystack, found, at);
        assert(lowered(found).len() == lowered(needle).len());
        assert(lowered(haystack).subrange(at, at + needle.len()) =~= lowered(
            haystack.subrange(at, at + found.len()),
        ));
        assert(occurs_at(lowered(haystack), lowered(needle), at));
    }
}

proof fn lemma_trimmed_start(white: Seq<char>, rest: Seq<char>)
    requires
        is_blank_text(white),
        rest.len() > 0 && !is_white(rest[0]),
    ensures
        trimmed_start(white + rest) == rest,
    decreases white.len(),
{
    if white.len() == 0 {
        assert(white + rest =~= rest);
    } else {
        assert(is_white(white[0]));
        assert((white + rest).drop_first() =~= white.drop_first() + rest);
        assert forall|i: int| 0 <= i < white.drop_first().len() implies is_white(
            #[trigger] white.drop_first()[i],
        ) by {
            assert(is_white(white[i + 1]));
        }
        lemma_trimmed_start(white.drop_first(), rest);
    }
}

proof fn lemma_trimmed_end(rest: Seq<char>, white: Seq<char>)
    requires
        is_blank_text(white),
        rest.len() > 0 && !is_white(rest.last()),
    ensures
        trimmed_end(rest + white) == rest,
    decreases white.len(),
{
    if white.len() == 0 {
        assert(rest + white =~= rest);
    } else {
        assert(is_white(white[white.len() - 1]));
        assert((rest + white).drop_last() =~= rest + white.drop_last());
        assert forall|i: int| 0 <= i < white.drop_last().len() implies is_white(
            #[trigger] white.drop_last()[i],
        ) by {
            assert(is_white(white[i]));
        }
        lemma_trimmed_end(rest, white.drop_last());
    }
}

/// Trimming takes away the white space that was put around a text, and nothing else: a text with
/// other characters at both its ends comes out as it was.
pub proof fn law_trimming_undoes_padding(before: Seq<char>, core: Seq<char>, after: Seq<char>)
    requires
        is_blank_text(before),
        is_blank_text(after),
        core.len() > 0 ==> !is_white(core[0]) && !is_white(core.last()),
    ensures
        trimmed(before + core + after) == core,
{
    let whole = before + core + after;
    if core.len() == 0 {
        assert forall|i: int| 0 <= i < whole.len() implies is_white(#[trigger] whole[i]) by {
            if i < before.len() {
                assert(is_white(before[i]));
            } else {
                assert(is_white(after[i - before.len()]));
            }
        }
        law_trimmed_empty_iff_blank(whole);
        assert(trimmed(whole) =~= core);
    } else {
        assert(whole =~= before + (core + after));
        lemma_trimmed_start(before, core + after);
        lemma_trimmed_end(core, after);
    }
}

/// Lower case keeps every character but the ASCII capitals, each of which becomes the small letter
/// that stands as far behind the small `a` as it stands behind the capital one. What is in lower case
/// stays.
pub proof fn law_lower_case_moves_capitals_only(s: Seq<char>, i: int)
    requires
        0 <= i < s.len(),
    ensures
        lowered(s).len() == s.len(),
        !('A' <= s[i] <= 'Z') ==> lowered(s)[i] == s[i],
        'A' <= s[i] <= 'Z' ==> lowered(s)[i] as int - 'a' as int == s[i] as int - 'A' as int,
        lowered(lowered(s)) == lowered(s),
{
    assert(lowered(lowered(s)) =~= lowered(s));
}

/// What follows a prefix is what was put behind it, and only a text that starts with the prefix has
/// something that follows it.
pub proof fn law_prefix_is_taken_off(s: Seq<char>, prefix: Seq<char>, rest: Seq<char>)
    ensures
        after_prefix(s, prefix) == Some(rest) <==> s == prefix + rest,
        after_prefix(s, prefix) is None <==> !prefix.is_prefix_of(s),
{
    if s == prefix + rest {
        assert(s.take(prefix.len() as int) =~= prefix);
        assert(s.skip(prefix.len() as int) =~= rest);
    }
    if after_prefix(s, prefix) == Some(rest) {
        assert(s =~= s.take(prefix.len() as int) + s.skip(prefix.len() as int));
    }
    if prefix.is_prefix_of(s) {
        assert(s.take(prefix.len() as int) =~= prefix);
    }
}

/// A text without the separator is one piece, and a separator ends the piece before it.
pub proof fn law_split_at_separator(piece: Seq<char>, separator: char, rest: Seq<char>)
    requires
        !piece.contains(separator),
    ensures
        split_on(piece, separator) == seq![piece],
        split_on(piece + seq![separator] + rest, separator) == seq![piece] + split_on(
            rest,
            separator,
        ),
    decreases piece.len() + rest.len(),
{
    let whole = piece + seq![separator] + rest;
    if piece.len() > 0 {
        assert(piece.contains(piece.last()));
        assert forall|c: char| piece.drop_last().contains(c) implies piece.contains(c) by {
            let k = choose|k: int| 0 <= k < piece.drop_last().len() && piece.drop_last()[k] == c;
            assert(piece[k] == c);
        }
        law_split_at_separator(piece.drop_last(), separator, Seq::empty());
        assert(piece.drop_last().push(piece.last()) =~= piece);
        assert(split_on(piece, separator) =~= seq![piece]);
    } else {
        assert(piece =~= Seq::empty());
    }
    if rest.len() == 0 {
        assert(whole.drop_last() =~= piece);
        assert(whole.last() == separator);
        assert(split_on(rest, separator) == seq![Seq::<char>::empty()]);
        assert(split_on(whole, separator) == split_on(piece, separator).push(Seq::empty()));
        assert(split_on(whole, separator) =~= seq![piece] + split_on(rest, separator));
    } else {
        let earlier = rest.drop_last();
        law_split_at_separator(piece, separator, earlier);
        lemma_split_nonempty(earlier, separator);
        assert(whole.drop_last() =~= piece + seq![separator] + earlier);
        assert(whole.last() == rest.last());
        assert(split_on(whole, separator) =~= seq![piece] + split_on(rest, separator));
    }
}

/// A line feed ends a line, and with it a carriage return before it; the lines after it are those of
/// the rest. A text without a line feed is one line, with all its characters, unless it is empty.
pub proof fn law_lines_end_at_line_feeds(line: Seq<char>, rest: Seq<char>)
    requires
        !line.contains('\n'),
    ensures
        lines_of(line) == if line.len() == 0 {
            Seq::empty()
        } else {
            seq![line]
        },
        lines_of(line + seq!['\n'] + rest) == (if line.len() > 0 && line.last() == '\r' {
            seq![line.drop_last()]
        } else {
            seq![line]
        }) + lines_of(rest),
{
    law_split_at_separator(line, '\n', rest);
    lemma_split_nonempty(rest, '\n');
    let whole = line + seq!['\n'] + rest;
    assert(split_on(line, '\n').drop_last() =~= Seq::empty());
    assert(lines_of(line) =~= if line.len() == 0 {
        Seq::empty()
    } else {
        seq![line]
    });
    assert(split_on(whole, '\n').drop_last() =~= seq![line] + split_on(rest, '\n').drop_last());
    assert(lines_of(whole) =~= seq![without_return(line)] + lines_of(rest));
}

/// Joined pieces grow by the separator and the next piece; a piece alone is itself.
pub proof fn law_joined_grows_by_piece(
    pieces: Seq<Seq<char>>,
    piece: Seq<char>,
    separator: Seq<char>,
)
    ensures
        joined(Seq::empty(), separator).len() == 0,
        pieces.len() == 0 ==> joined(pieces.push(piece), separator) == piece,
        pieces.len() > 0 ==> joined(pieces.push(piece), separator) == joined(pieces, separator)
            + separator + piece,
{
    assert(pieces.push(piece).drop_last() =~= pieces);
}

/// White space is what moves on the line or to another one without leaving a mark: tabs, line ends of
/// every kind and the spaces of every width, and nothing else.
pub proof fn law_white_space_is_tabs_line_ends_and_spaces(c: char)
    ensures
        is_white(c) <==> {
            ||| c == '\t' || c == '\n' || c == '\u{b}' || c == '\u{c}' || c == '\r'
            ||| c == '\u{85}' || c == '\u{2028}' || c == '\u{2029}'
            ||| c == ' ' || c == '\u{a0}' || c == '\u{1680}' || c == '\u{3000}'
            ||| c == '\u{2000}' || c == '\u{2001}' || c == '\u{2002}' || c == '\u{2003}'
            ||| c == '\u{2004}' || c == '\u{2005}' || c == '\u{2006}' || c == '\u{2007}'
            ||| c == '\u{2008}' || c == '\u{2009}' || c == '\u{200a}'
            ||| c == '\u{202f}' || c == '\u{205f}'
        },
{
}

} // verus!
