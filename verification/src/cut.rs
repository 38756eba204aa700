//! Cutting a text to a number of bytes without cutting a character in two.

use vstd::prelude::*;
use vstd::string::*;

verus! {

/// How many bytes a text takes in UTF-8.
pub open spec fn byte_len(s: Seq<char>) -> nat {
    vstd::utf8::encode_utf8(s).len()
}

/// How many bytes a character takes in UTF-8.
pub open spec fn char_width(c: char) -> nat {
    if (c as u32) < 0x80 {
        1
    } else if (c as u32) < 0x800 {
        2
    } else if (c as u32) < 0x10000 {
        3
    } else {
        4
    }
}

/// How many characters of `s`, from the first on, fit into `max` bytes.
pub open spec fn fitting(s: Seq<char>, max: int) -> int
    decreases s.len(),
{
    if s.len() > 0 && char_width(s[0]) <= max {
        1 + fitting(s.drop_first(), max - char_width(s[0]))
    } else {
        0
    }
}

/// The longest part of `s`, from the first character on, that fits into `max` bytes.
pub open spec fn cut_to(s: Seq<char>, max: int) -> Seq<char> {
    s.take(fitting(s, max))
}

proof fn lemma_byte_len_step(s: Seq<char>)
    requires
        s.len() > 0,
    ensures
        byte_len(s) == char_width(s[0]) + byte_len(s.drop_first()),
{
    vstd::utf8::char_is_scalar(s[0]);
}

proof fn lemma_fitting_bounds(s: Seq<char>, max: int)
    ensures
        0 <= fitting(s, max) <= s.len(),
    decreases s.len(),
{
    if s.len() > 0 {
        lemma_fitting_bounds(s.drop_first(), max - char_width(s[0]));
    }
}

/// A cut text is a beginning of the text and keeps within the limit, and a longer beginning does
/// not.
pub proof fn law_cut_is_longest_fitting_prefix(s: Seq<char>, max: int)
    requires
        0 <= max,
    ensures
        cut_to(s, max).is_prefix_of(s),
        byte_len(cut_to(s, max)) <= max,
        forall|n: int|
            cut_to(s, max).len() < n <= s.len() ==> byte_len(#[trigger] s.take(n)) > max,
    decreases s.len(),
{
    lemma_fitting_bounds(s, max);
    assert(byte_len(Seq::<char>::empty()) == 0);
    if s.len() > 0 && char_width(s[0]) <= max {
        let rest = s.drop_first();
        let left = max - char_width(s[0]);
        lemma_fitting_bounds(rest, left);
        law_cut_is_longest_fitting_prefix(rest, left);
        lemma_byte_len_step(cut_to(s, max));
        assert(cut_to(s, max).drop_first() =~= cut_to(rest, left));
    } else {
        assert(cut_to(s, max) =~= Seq::<char>::empty());
    }
    assert forall|n: int| cut_to(s, max).len() < n <= s.len() implies byte_len(
        #[trigger] s.take(n),
    ) > max by {
        lemma_byte_len_step(s.take(n));
        if char_width(s[0]) <= max {
            assert(s.take(n).drop_first() =~= s.drop_first().take(n - 1));
        }
    }
}

/// A text is cut only where it exceeds the limit.
pub proof fn law_cut_keeps_what_fits(s: Seq<char>, max: int)
    requires
        0 <= max,
    ensures
        cut_to(s, max) == s <==> byte_len(s) <= max,
{
    law_cut_is_longest_fitting_prefix(s, max);
    lemma_fitting_bounds(s, max);
    assert(s.take(s.len() as int) =~= s);
    if byte_len(s) <= max {
        if cut_to(s, max).len() < s.len() {
            assert(byte_len(s.take(s.len() as int)) > max);
        }
        assert(cut_to(s, max) =~= s);
    }
}

/// Cutting a text twice is cutting it once.
pub proof fn law_cut_twice(s: Seq<char>, max: int)
    requires
        0 <= max,
    ensures
        cut_to(cut_to(s, max), max) == cut_to(s, max),
{
    law_cut_is_longest_fitting_prefix(s, max);
    law_cut_keeps_what_fits(cut_to(s, max), max);
}

/// How many bytes a character takes in UTF-8.
fn width_of(c: char) -> (width: usize)
    ensures
        width == char_width(c),
{
    let n: u32 = c as u32;
    if n < 0x80 {
        1
    } else if n < 0x800 {
        2
    } else if n < 0x10000 {
        3
    } else {
        4
    }
}

/// Cuts the text to at most `max_bytes` bytes, between two characters, and tells whether that took
/// anything away.
pub fn truncate_string_to_bytes(value: &mut String, max_bytes: usize) -> (cut: bool)
    ensures
        cut == (byte_len(old(value)@) > max_bytes),
        final(value)@ == cut_to(old(value)@, max_bytes as int),
{
    let ghost whole = value@;
    proof {
        law_cut_keeps_what_fits(whole, max_bytes as int);
    }
    if value.as_str().as_bytes().len() <= max_bytes {
        return false;
    }
    let mut kept = String::new();
    let mut left: usize = max_bytes;
    let chars = crate::text::to_chars(value.as_str());
    let mut i: usize = 0;
    assert(chars@.skip(0) =~= chars@);
    while i < chars.len() && width_of(chars[i]) <= left
        invariant
            i <= chars@.len(),
            kept@ == chars@.take(i as int),
            fitting(chars@, max_bytes as int) == i + fitting(chars@.skip(i as int), left as int),
        decreases chars@.len() - i,
    {
        let width: usize = width_of(chars[i]);
        assert(chars@.skip(i as int).drop_first() =~= chars@.skip(i + 1));
        kept.push(chars[i]);
        left = left - width;
        i = i + 1;
        assert(kept@ =~= chars@.take(i as int));
    }
    *value = kept;
    true
}

} // verus!
