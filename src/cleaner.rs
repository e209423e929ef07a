//! Normalisation of extracted text: line breaks and tabs are deleted, then
//! surrounding white space is trimmed.

use vstd::prelude::*;

verus! {

/// The characters that cleaning deletes outright.
pub open spec fn is_break(c: char) -> bool {
    c == '\r' || c == '\t' || c == '\n'
}

/// `s` with every break character deleted, the rest kept in order.
pub open spec fn strip_breaks(s: Seq<char>) -> Seq<char>
    decreases s.len(),
{
    if s.len() == 0 {
        s
    } else {
        let rest = strip_breaks(s.drop_last());
        if is_break(s.last()) {
            rest
        } else {
            rest.push(s.last())
        }
    }
}

/// Unicode's `White_Space` property, which `str::trim` goes by.
pub open spec fn is_white_space(c: char) -> bool {
    let u = c as u32;
    (0x09 <= u <= 0x0d) || u == 0x20 || u == 0x85 || u == 0xa0 || u == 0x1680 || (0x2000 <= u
        <= 0x200a) || u == 0x2028 || u == 0x2029 || u == 0x202f || u == 0x205f || u == 0x3000
}

/// `s` without its leading white space.
pub open spec fn trim_start(s: Seq<char>) -> Seq<char>
    decreases s.len(),
{
    if s.len() > 0 && is_white_space(s[0]) {
        trim_start(s.drop_first())
    } else {
        s
    }
}

/// `s` without its trailing white space.
pub open spec fn trim_end(s: Seq<char>) -> Seq<char>
    decreases s.len(),
{
    if s.len() > 0 && is_white_space(s.last()) {
        trim_end(s.drop_last())
    } else {
        s
    }
}

/// `s` without leading and trailing white space.
pub open spec fn trimmed(s: Seq<char>) -> Seq<char> {
    trim_end(trim_start(s))
}

/// `text_cleaner` on a sequence of characters.
pub open spec fn cleaned(s: Seq<char>) -> Seq<char> {
    trimmed(strip_breaks(s))
}

/// Relies on `str::trim`: removes leading and trailing characters that have
/// the Unicode `White_Space` property.
#[verifier::external_body]
fn trim_white_space(s: &str) -> (r: &str)
    ensures
        r@ == trimmed(s@),
{
    s.trim()
}

/// Relies on `String::push`: appends one character.
#[verifier::external_body]
fn push_char(s: &mut String, c: char)
    ensures
        final(s)@ == old(s)@.push(c),
{
    s.push(c)
}

/// Deletes the carriage returns, tabs and newlines of `text`, then trims
/// the white space around what is left.
pub fn text_cleaner(text: &str) -> (r: String)
    ensures
        r@ == cleaned(text@),
        forall|i: int| 0 <= i < r@.len() ==> !is_break(#[trigger] r@[i]),
{
    let mut kept = String::new();
    for c in it: text.chars()
        invariant
            it.seq() == text@,
            kept@ == strip_breaks(text@.take(it.index())),
    {
        proof {
            assert(text@.take(it.index() + 1).drop_last() == text@.take(it.index()));
        }
        if !(c == '\r' || c == '\t' || c == '\n') {
            push_char(&mut kept, c);
        }
    }
    assert(text@.take(text@.len() as int) == text@);
    let r = trim_white_space(kept.as_str()).to_owned();
    proof {
        lemma_cleaned_has_no_breaks(text@);
    }
    r
}

proof fn lemma_strip_breaks_has_no_breaks(s: Seq<char>)
    ensures
        forall|i: int| 0 <= i < strip_breaks(s).len() ==> !is_break(#[trigger] strip_breaks(s)[i]),
    decreases s.len(),
{
    if s.len() > 0 {
        let rest = strip_breaks(s.drop_last());
        lemma_strip_breaks_has_no_breaks(s.drop_last());
        if !is_break(s.last()) {
            assert forall|i: int| 0 <= i < rest.len() + 1 implies !is_break(
                #[trigger] rest.push(s.last())[i],
            ) by {
                if i < rest.len() {
                    assert(rest.push(s.last())[i] == rest[i]);
                }
            }
        }
    }
}

proof fn lemma_strip_breaks_keeps_clean(s: Seq<char>)
    requires
        forall|i: int| 0 <= i < s.len() ==> !is_break(#[trigger] s[i]),
    ensures
        strip_breaks(s) == s,
    decreases s.len(),
{
    if s.len() > 0 {
        lemma_strip_breaks_keeps_clean(s.drop_last());
        assert(s.drop_last().push(s.last()) == s);
    }
}

proof fn lemma_trim_start_suffix(s: Seq<char>)
    ensures
        trim_start(s).len() <= s.len(),
        trim_start(s) == s.subrange(s.len() - trim_start(s).len(), s.len() as int),
        trim_start(s).len() == 0 || !is_white_space(trim_start(s)[0]),
    decreases s.len(),
{
    if s.len() > 0 && is_white_space(s[0]) {
        lemma_trim_start_suffix(s.drop_first());
        assert(s.drop_first().subrange(
            s.drop_first().len() - trim_start(s).len(),
            s.drop_first().len() as int,
        ) == s.subrange(s.len() - trim_start(s).len(), s.len() as int));
    } else {
        assert(s.subrange(0, s.len() as int) == s);
    }
}

proof fn lemma_trim_end_prefix(s: Seq<char>)
    ensures
        trim_end(s).len() <= s.len(),
        trim_end(s) == s.subrange(0, trim_end(s).len() as int),
        trim_end(s).len() == 0 || !is_white_space(trim_end(s).last()),
    decreases s.len(),
{
    if s.len() > 0 && is_white_space(s.last()) {
        lemma_trim_end_prefix(s.drop_last());
        assert(s.drop_last().subrange(0, trim_end(s).len() as int) == s.subrange(
            0,
            trim_end(s).len() as int,
        ));
    } else {
        assert(s.subrange(0, s.len() as int) == s);
    }
}

/// Trimmed text is empty, or begins and ends with a character that is not
/// white space, and is a piece of the text it came from.
proof fn lemma_trimmed_shape(s: Seq<char>)
    ensures
        trimmed(s).len() == 0 || (!is_white_space(trimmed(s)[0]) && !is_white_space(
            trimmed(s).last(),
        )),
        forall|i: int|
            0 <= i < trimmed(s).len() ==> exists|j: int|
                0 <= j < s.len() && #[trigger] trimmed(s)[i] == s[j],
{
    let t = trim_start(s);
    lemma_trim_start_suffix(s);
    lemma_trim_end_prefix(t);
    let k = s.len() - t.len();
    assert forall|i: int| 0 <= i < trimmed(s).len() implies exists|j: int|
        0 <= j < s.len() && #[trigger] trimmed(s)[i] == s[j] by {
        assert(trimmed(s)[i] == t[i]);
        assert(t[i] == s[k + i]);
    }
    if trimmed(s).len() > 0 {
        assert(trimmed(s)[0] == t[0]);
    }
}

proof fn lemma_trimmed_keeps_trimmed(s: Seq<char>)
    requires
        s.len() == 0 || (!is_white_space(s[0]) && !is_white_space(s.last())),
    ensures
        trimmed(s) == s,
{
}

proof fn lemma_cleaned_has_no_breaks(s: Seq<char>)
    ensures
        forall|i: int| 0 <= i < cleaned(s).len() ==> !is_break(#[trigger] cleaned(s)[i]),
{
    lemma_strip_breaks_has_no_breaks(s);
    lemma_trimmed_shape(strip_breaks(s));
}

/// Cleaning is idempotent: cleaning a cleaned text changes nothing.
pub proof fn lemma_clean_idempotent(s: Seq<char>)
    ensures
        cleaned(cleaned(s)) == cleaned(s),
{
    let c = cleaned(s);
    lemma_cleaned_has_no_breaks(s);
    lemma_strip_breaks_keeps_clean(c);
    lemma_trimmed_shape(strip_breaks(s));
    lemma_trimmed_keeps_trimmed(c);
}

} // verus!
