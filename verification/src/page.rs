//! The page that viewers open.

use vstd::prelude::*;

verus! {

/// What stands in the page's template for the version.
pub const VERSION_MARK: &'static str = "__RUSTY_CAM_VERSION__";

/// Whether `pattern` stands in `text` from `at` on.
pub open spec fn occurs_at(text: Seq<char>, pattern: Seq<char>, at: int) -> bool {
    &&& at + pattern.len() <= text.len()
    &&& text.subrange(at, at + pattern.len()) == pattern
}

/// The text from `at` on with every occurrence of `pattern` replaced, from left to right.
pub open spec fn replaced_from(
    text: Seq<char>,
    pattern: Seq<char>,
    replacement: Seq<char>,
    at: int,
) -> Seq<char>
    decreases text.len() - at,
{
    if at < 0 || at >= text.len() || pattern.len() == 0 {
        Seq::empty()
    } else if occurs_at(text, pattern, at) {
        replacement + replaced_from(text, pattern, replacement, at + pattern.len())
    } else {
        seq![text[at]] + replaced_from(text, pattern, replacement, at + 1)
    }
}

/// Whether `pattern` stands in the characters from `at` on.
fn occurs(text: &Vec<char>, pattern: &Vec<char>, at: usize) -> (found: bool)
    requires
        at <= text@.len(),
    ensures
        found == occurs_at(text@, pattern@, at as int),
{
    if pattern.len() > text.len() - at {
        return false;
    }
    let ghost here = text@.subrange(at as int, at + pattern@.len());
    let mut i: usize = 0;
    while i < pattern.len()
        invariant
            i <= pattern.len(),
            at + pattern.len() <= text.len(),
            here == text@.subrange(at as int, at + pattern@.len()),
            forall|k: int| 0 <= k < i ==> #[trigger] here[k] == pattern@[k],
        decreases pattern.len() - i,
    {
        if text[at + i] != pattern[i] {
            assert(here[i as int] != pattern@[i as int]);
            return false;
        }
        i = i + 1;
    }
    assert(here =~= pattern@);
    true
}

/// The characters of a text.
fn chars_of(text: &str) -> (chars: Vec<char>)
    ensures
        chars@ == text@,
{
    let mut chars: Vec<char> = Vec::new();
    for c in it: text.chars()
        invariant
            chars@ == text@.take(it.index() as int),
            it.seq() == text@,
    {
        chars.push(c);
        assert(text@.take(it.index() as int + 1) =~= text@.take(it.index() as int).push(c));
    }
    assert(text@.take(text@.len() as int) =~= text@);
    chars
}

/// Replaces every occurrence of a pattern in a text.
pub fn replace_all(text: &str, pattern: &str, replacement: &str) -> (out: String)
    requires
        pattern@.len() > 0,
    ensures
        out@ == replaced_from(text@, pattern@, replacement@, 0),
{
    let chars = chars_of(text);
    let mark = chars_of(pattern);
    let ghost whole = replaced_from(text@, pattern@, replacement@, 0);
    let mut out = String::new();
    let mut start: usize = 0;
    let mut i: usize = 0;
    assert(out@ + text@.subrange(0, 0) + whole =~= whole);
    while i < chars.len()
        invariant
            start <= i <= chars.len(),
            chars@ == text@,
            mark@ == pattern@,
            mark.len() > 0,
            whole == out@ + text@.subrange(start as int, i as int) + replaced_from(
                text@,
                pattern@,
                replacement@,
                i as int,
            ),
        decreases chars.len() - i,
    {
        let ghost rest = replaced_from(text@, pattern@, replacement@, i as int);
        let ghost before = out@;
        let ghost passed = text@.subrange(start as int, i as int);
        if occurs(&chars, &mark, i) {
            out.append(text.substring_char(start, i));
            out.append(replacement);
            i = i + mark.len();
            start = i;
            proof {
                let tail = replaced_from(text@, pattern@, replacement@, i as int);
                assert(rest == replacement@ + tail);
                assert(before + passed + (replacement@ + tail) =~= out@ + text@.subrange(
                    start as int,
                    i as int,
                ) + tail);
            }
        } else {
            i = i + 1;
            proof {
                let tail = replaced_from(text@, pattern@, replacement@, i as int);
                assert(rest == seq![text@[i - 1]] + tail);
                assert(before + passed + (seq![text@[i - 1]] + tail) =~= out@ + text@.subrange(
                    start as int,
                    i as int,
                ) + tail);
            }
        }
    }
    let ghost before = out@;
    out.append(text.substring_char(start, i));
    assert(out@ =~= before + text@.subrange(start as int, i as int) + Seq::<char>::empty());
    out
}

/// The page: the template with every version mark replaced by the program's name and version.
pub fn home_page(template: &str, package_version: &str) -> (page: String)
    ensures
        page@ == replaced_from(
            template@,
            VERSION_MARK@,
            "rusty-cam v"@ + package_version@,
            0,
        ),
{
    proof {
        reveal_strlit("__RUSTY_CAM_VERSION__");
        assert(VERSION_MARK@.len() == 21);
    }
    let version = "rusty-cam v".to_string().concat(package_version);
    replace_all(template, VERSION_MARK, version.as_str())
}

/// A template without the mark is the page as it stands.
pub proof fn page_without_mark_is_the_template(
    template: Seq<char>,
    mark: Seq<char>,
    version: Seq<char>,
)
    requires
        mark.len() > 0,
        forall|at: int| 0 <= at < template.len() ==> !occurs_at(template, mark, at),
    ensures
        replaced_from(template, mark, version, 0) == template,
{
    lemma_nothing_replaced(template, mark, version, 0);
    assert(template.subrange(0, template.len() as int) =~= template);
}

/// The first occurrence of the pattern is replaced, what stands before it stays, and what comes
/// after it is treated in the same way. Together with what happens to a text without the pattern
/// this says all there is to say about replacing.
pub proof fn first_occurrence_is_replaced(
    text: Seq<char>,
    pattern: Seq<char>,
    replacement: Seq<char>,
    at: int,
)
    requires
        pattern.len() > 0,
        0 <= at,
        at + pattern.len() <= text.len(),
        text.subrange(at, at + pattern.len()) == pattern,
        forall|k: int|
            0 <= k < at && k + pattern.len() <= text.len() ==> #[trigger] text.subrange(
                k,
                k + pattern.len(),
            ) != pattern,
    ensures
        replaced_from(text, pattern, replacement, 0) == text.take(at) + replacement
            + replaced_from(text.skip(at + pattern.len()), pattern, replacement, 0),
{
    lemma_up_to_occurrence(text, pattern, replacement, 0, at);
    lemma_replaced_shift(text, pattern, replacement, at + pattern.len(), 0);
    assert(text.subrange(0, at) =~= text.take(at));
    let rest = replaced_from(text.skip(at + pattern.len()), pattern, replacement, 0);
    assert(text.take(at) + (replacement + rest) =~= text.take(at) + replacement + rest);
}

/// A text in which the pattern does not stand is left as it is.
pub proof fn nothing_else_is_replaced(
    text: Seq<char>,
    pattern: Seq<char>,
    replacement: Seq<char>,
)
    requires
        pattern.len() > 0,
        forall|k: int|
            0 <= k && k + pattern.len() <= text.len() ==> #[trigger] text.subrange(
                k,
                k + pattern.len(),
            ) != pattern,
    ensures
        replaced_from(text, pattern, replacement, 0) == text,
{
    assert forall|k: int| 0 <= k < text.len() implies !occurs_at(text, pattern, k) by {}
    page_without_mark_is_the_template(text, pattern, replacement);
}

proof fn lemma_up_to_occurrence(
    text: Seq<char>,
    pattern: Seq<char>,
    replacement: Seq<char>,
    from: int,
    at: int,
)
    requires
        pattern.len() > 0,
        0 <= from <= at,
        at + pattern.len() <= text.len(),
        text.subrange(at, at + pattern.len()) == pattern,
        forall|k: int|
            0 <= k < at && k + pattern.len() <= text.len() ==> #[trigger] text.subrange(
                k,
                k + pattern.len(),
            ) != pattern,
    ensures
        replaced_from(text, pattern, replacement, from) == text.subrange(from, at) + (replacement
            + replaced_from(text, pattern, replacement, at + pattern.len())),
    decreases at - from,
{
    let tail = replacement + replaced_from(text, pattern, replacement, at + pattern.len());
    if from < at {
        lemma_up_to_occurrence(text, pattern, replacement, from + 1, at);
        assert(!occurs_at(text, pattern, from));
        assert(seq![text[from]] + (text.subrange(from + 1, at) + tail) =~= text.subrange(from, at)
            + tail);
    } else {
        assert(occurs_at(text, pattern, at));
        assert(text.subrange(from, at) + tail =~= tail);
    }
}

/// What comes out from some place on depends on the text from there on alone.
proof fn lemma_replaced_shift(
    text: Seq<char>,
    pattern: Seq<char>,
    replacement: Seq<char>,
    by: int,
    at: int,
)
    requires
        pattern.len() > 0,
        0 <= by,
        0 <= at,
        by + at <= text.len(),
    ensures
        replaced_from(text, pattern, replacement, by + at) == replaced_from(
            text.skip(by),
            pattern,
            replacement,
            at,
        ),
    decreases text.len() - at,
{
    let rest = text.skip(by);
    if by + at < text.len() {
        if by + at + pattern.len() <= text.len() {
            assert(text.subrange(by + at, by + at + pattern.len()) =~= rest.subrange(
                at,
                at + pattern.len(),
            ));
        }
        assert(occurs_at(text, pattern, by + at) == occurs_at(rest, pattern, at));
        if occurs_at(text, pattern, by + at) {
            lemma_replaced_shift(text, pattern, replacement, by, at + pattern.len());
        } else {
            lemma_replaced_shift(text, pattern, replacement, by, at + 1);
        }
    }
}

proof fn lemma_nothing_replaced(
    text: Seq<char>,
    pattern: Seq<char>,
    replacement: Seq<char>,
    at: int,
)
    requires
        pattern.len() > 0,
        0 <= at <= text.len(),
        forall|k: int| 0 <= k < text.len() ==> !occurs_at(text, pattern, k),
    ensures
        replaced_from(text, pattern, replacement, at) == text.subrange(at, text.len() as int),
    decreases text.len() - at,
{
    if at < text.len() {
        lemma_nothing_replaced(text, pattern, replacement, at + 1);
        assert(!occurs_at(text, pattern, at));
        assert(seq![text[at]] + text.subrange(at + 1, text.len() as int) =~= text.subrange(
            at,
            text.len() as int,
        ));
    } else {
        assert(text.subrange(at, text.len() as int) =~= Seq::<char>::empty());
    }
}

} // verus!
