//! Text operations on the characters of a string.
//!
//! A string is modelled by the sequence of its characters. Each operation has
//! a spec function on such sequences, and an executable function whose result
//! is that spec function's value.
use vstd::prelude::*;
use vstd::string::StringExecFns;

verus! {

/// The characters with the Unicode property `White_Space`.
pub open spec fn white_space(c: char) -> bool {
    ||| '\u{9}' <= c <= '\u{d}'
    ||| c == ' '
    ||| c == '\u{85}'
    ||| c == '\u{a0}'
    ||| c == '\u{1680}'
    ||| '\u{2000}' <= c <= '\u{200a}'
    ||| c == '\u{2028}'
    ||| c == '\u{2029}'
    ||| c == '\u{202f}'
    ||| c == '\u{205f}'
    ||| c == '\u{3000}'
}

/// Calls `char::is_whitespace`, which tells whether a character has the
/// Unicode property `White_Space`; the contract lists those characters.
#[verifier::external_body]
pub(crate) fn is_white_space(c: char) -> (r: bool)
    ensures
        r == white_space(c),
{
    c.is_whitespace()
}

/// Calls `String::push`, which appends one character.
#[verifier::external_body]
pub(crate) fn push_char(s: &mut String, c: char)
    ensures
        final(s)@ == old(s)@.push(c),
{
    s.push(c)
}

/// A set of characters that an operation strips from one end of a text.
#[derive(Clone, Copy)]
pub enum CharClass {
    /// White space.
    White,
    /// The slash.
    Slash,
    /// Characters that open a Markdown line, and the space.
    LineMark,
}

/// Whether `class` holds `c`.
pub open spec fn class_has(class: CharClass, c: char) -> bool {
    match class {
        CharClass::White => white_space(c),
        CharClass::Slash => c == '/',
        CharClass::LineMark => c == '#' || c == '>' || c == '-' || c == '*' || c == '•' || c == ' ',
    }
}

fn in_class(class: CharClass, c: char) -> (r: bool)
    ensures
        r == class_has(class, c),
{
    match class {
        CharClass::White => is_white_space(c),
        CharClass::Slash => c == '/',
        CharClass::LineMark => c == '#' || c == '>' || c == '-' || c == '*' || c == '•' || c == ' ',
    }
}

/// The views of a sequence of strings.
pub open spec fn views(v: Seq<String>) -> Seq<Seq<char>> {
    v.map_values(|s: String| s@)
}

/// The view of an optional string.
pub open spec fn opt_view(o: Option<String>) -> Option<Seq<char>> {
    match o {
        Some(s) => Some(s@),
        None => None,
    }
}

/// The view of a result whose two sides are strings.
pub open spec fn text_result(r: Result<String, String>) -> Result<Seq<char>, Seq<char>> {
    match r {
        Ok(s) => Ok(s@),
        Err(e) => Err(e@),
    }
}

/// The view of a result whose error is a string.
pub open spec fn error_view<T>(r: Result<T, String>) -> Result<T, Seq<char>> {
    match r {
        Ok(value) => Ok(value),
        Err(e) => Err(e@),
    }
}

/// The characters of `s`.
pub fn chars_of(s: &str) -> (v: Vec<char>)
    ensures
        v@ == s@,
{
    let mut v: Vec<char> = Vec::new();
    for c in it: s.chars()
        invariant
            v@ == it.seq().take(it.index() as int),
            it.seq() == s@,
    {
        v.push(c);
    }
    v
}

/// The string of the characters `from..to` of `chars`.
pub fn string_of(chars: &Vec<char>, from: usize, to: usize) -> (s: String)
    requires
        from <= to <= chars@.len(),
    ensures
        s@ == chars@.subrange(from as int, to as int),
{
    let mut s: String = String::new();
    let mut i: usize = from;
    while i < to
        invariant
            from <= i <= to <= chars@.len(),
            s@ == chars@.subrange(from as int, i as int),
        decreases to - i,
    {
        push_char(&mut s, chars[i]);
        i = i + 1;
        assert(chars@.subrange(from as int, i as int) == chars@.subrange(
            from as int,
            i - 1,
        ).push(chars@[i - 1]));
    }
    s
}

/// A copy of `s`.
pub fn copy_of(s: &str) -> (r: String)
    ensures
        r@ == s@,
{
    let mut r: String = String::new();
    r.append(s);
    r
}

/// Whether `s` has no characters.
pub fn is_empty(s: &str) -> (r: bool)
    ensures
        r == (s@.len() == 0),
{
    let chars = chars_of(s);
    chars.len() == 0
}

/// Whether two texts are equal.
pub fn str_eq(a: &str, b: &str) -> (r: bool)
    ensures
        r == (a@ == b@),
{
    let left = chars_of(a);
    let right = chars_of(b);
    if left.len() != right.len() {
        return false;
    }
    let mut i: usize = 0;
    while i < left.len()
        invariant
            i <= left@.len(),
            left@.len() == right@.len(),
            left@ == a@,
            right@ == b@,
            forall|k: int| 0 <= k < i ==> left@[k] == right@[k],
        decreases left@.len() - i,
    {
        if left[i] != right[i] {
            assert(a@[i as int] != b@[i as int]);
            return false;
        }
        i = i + 1;
    }
    assert(a@ =~= b@);
    true
}

/// `s` without the characters of `class` at its start.
pub open spec fn trim_start_class(s: Seq<char>, class: CharClass) -> Seq<char>
    decreases s.len(),
{
    if s.len() > 0 && class_has(class, s[0]) {
        trim_start_class(s.skip(1), class)
    } else {
        s
    }
}

/// `s` without the characters of `class` at its end.
pub open spec fn trim_end_class(s: Seq<char>, class: CharClass) -> Seq<char>
    decreases s.len(),
{
    if s.len() > 0 && class_has(class, s.last()) {
        trim_end_class(s.drop_last(), class)
    } else {
        s
    }
}

/// `s` without the white space at its start.
pub open spec fn trim_start(s: Seq<char>) -> Seq<char> {
    trim_start_class(s, CharClass::White)
}

/// `s` without the white space at its end.
pub open spec fn trim_end(s: Seq<char>) -> Seq<char> {
    trim_end_class(s, CharClass::White)
}

/// `s` without the white space at both of its ends.
pub open spec fn trim(s: Seq<char>) -> Seq<char> {
    trim_end(trim_start(s))
}

proof fn lemma_trim_start_class(s: Seq<char>, class: CharClass)
    ensures
        trim_start_class(s, class).len() <= s.len(),
        trim_start_class(s, class).len() > 0 ==> !class_has(
            class,
            trim_start_class(s, class)[0],
        ),
        trim_start_class(s, class).len() > 0 ==> trim_start_class(s, class).last() == s.last(),
    decreases s.len(),
{
    if s.len() > 0 && class_has(class, s[0]) {
        lemma_trim_start_class(s.skip(1), class);
    }
}

proof fn lemma_trim_end_class(s: Seq<char>, class: CharClass)
    ensures
        trim_end_class(s, class).len() <= s.len(),
        trim_end_class(s, class).len() > 0 ==> !class_has(class, trim_end_class(s, class).last()),
        trim_end_class(s, class).len() > 0 ==> trim_end_class(s, class)[0] == s[0],
    decreases s.len(),
{
    if s.len() > 0 && class_has(class, s.last()) {
        lemma_trim_end_class(s.drop_last(), class);
    }
}

/// A text without white space at its ends is trimmed.
pub proof fn lemma_trimmed(s: Seq<char>)
    requires
        s.len() > 0 ==> !white_space(s[0]) && !white_space(s.last()),
    ensures
        trim(s) == s,
{
    assert(trim_start(s) == s);
    assert(trim_end(s) == s);
}

/// Whether a text is white space alone.
pub open spec fn is_blank(s: Seq<char>) -> bool {
    forall|i: int| 0 <= i < s.len() ==> white_space(#[trigger] s[i])
}

proof fn lemma_trim_lead(lead: Seq<char>, s: Seq<char>)
    requires
        is_blank(lead),
        s.len() > 0 && !white_space(s[0]),
    ensures
        trim_start(lead + s) == s,
    decreases lead.len(),
{
    if lead.len() > 0 {
        assert(white_space(lead[0]));
        assert forall|i: int| 0 <= i < lead.skip(1).len() implies white_space(
            #[trigger] lead.skip(1)[i],
        ) by {
            assert(white_space(lead[i + 1]));
        }
        lemma_trim_lead(lead.skip(1), s);
        assert((lead + s).skip(1) =~= lead.skip(1) + s);
    } else {
        assert(lead + s =~= s);
    }
}

proof fn lemma_trim_tail(s: Seq<char>, tail: Seq<char>)
    requires
        is_blank(tail),
        s.len() > 0 && !white_space(s.last()),
    ensures
        trim_end(s + tail) == s,
    decreases tail.len(),
{
    if tail.len() > 0 {
        assert(white_space(tail[tail.len() - 1]));
        assert forall|i: int| 0 <= i < tail.drop_last().len() implies white_space(
            #[trigger] tail.drop_last()[i],
        ) by {
            assert(white_space(tail[i]));
        }
        lemma_trim_tail(s, tail.drop_last());
        assert((s + tail).drop_last() =~= s + tail.drop_last());
    } else {
        assert(s + tail =~= s);
    }
}

/// Trimming takes away the white space around a text that has none at its ends.
pub proof fn lemma_trim_around(lead: Seq<char>, s: Seq<char>, tail: Seq<char>)
    requires
        is_blank(lead),
        is_blank(tail),
        s.len() > 0 && !white_space(s[0]) && !white_space(s.last()),
    ensures
        trim(lead + s + tail) == s,
{
    assert(lead + s + tail =~= lead + (s + tail));
    lemma_trim_lead(lead, s + tail);
    lemma_trim_tail(s, tail);
}

/// A text that trimming leaves as it is has no white space at its ends.
pub proof fn lemma_trimmed_ends(s: Seq<char>)
    requires
        s.len() > 0,
        trim(s) == s,
    ensures
        !white_space(s[0]),
        !white_space(s.last()),
{
    lemma_trim_start_class(s, CharClass::White);
    lemma_trim_end_class(trim_start(s), CharClass::White);
}

/// Trimming a text that is trimmed changes nothing.
pub proof fn trim_is_stable(s: Seq<char>)
    ensures
        trim(trim(s)) == trim(s),
{
    let head = trim_start(s);
    let t = trim(s);
    lemma_trim_start_class(s, CharClass::White);
    lemma_trim_end_class(head, CharClass::White);
    assert(trim_start(t) == t);
    assert(trim_end(t) == t);
}

/// The number of characters of `class` at the start of `chars`.
fn start_run(chars: &Vec<char>, class: CharClass) -> (n: usize)
    ensures
        n <= chars@.len(),
        trim_start_class(chars@, class) == chars@.skip(n as int),
{
    let mut i: usize = 0;
    assert(chars@.skip(0) == chars@);
    while i < chars.len() && in_class(class, chars[i])
        invariant
            i <= chars@.len(),
            trim_start_class(chars@, class) == trim_start_class(chars@.skip(i as int), class),
        decreases chars@.len() - i,
    {
        assert(chars@.skip(i as int).skip(1) == chars@.skip(i + 1));
        i = i + 1;
    }
    i
}

/// The length that is left of `chars` without the characters of `class` at its
/// end.
fn end_cut(chars: &Vec<char>, class: CharClass) -> (n: usize)
    ensures
        n <= chars@.len(),
        trim_end_class(chars@, class) == chars@.take(n as int),
{
    let mut i: usize = chars.len();
    assert(chars@.take(i as int) == chars@);
    while i > 0 && in_class(class, chars[i - 1])
        invariant
            i <= chars@.len(),
            trim_end_class(chars@, class) == trim_end_class(chars@.take(i as int), class),
        decreases i,
    {
        assert(chars@.take(i as int).drop_last() == chars@.take(i - 1));
        i = i - 1;
    }
    i
}

/// Strips the characters of `class` from the start of `s`.
pub fn str_trim_start_class(s: &str, class: CharClass) -> (r: String)
    ensures
        r@ == trim_start_class(s@, class),
{
    let chars = chars_of(s);
    let n: usize = start_run(&chars, class);
    string_of(&chars, n, chars.len())
}

/// Strips the characters of `class` from the end of `s`.
pub fn str_trim_end_class(s: &str, class: CharClass) -> (r: String)
    ensures
        r@ == trim_end_class(s@, class),
{
    let chars = chars_of(s);
    let n: usize = end_cut(&chars, class);
    string_of(&chars, 0, n)
}

/// Strips the white space from the start of `s`.
pub fn str_trim_start(s: &str) -> (r: String)
    ensures
        r@ == trim_start(s@),
{
    str_trim_start_class(s, CharClass::White)
}

/// Strips the white space from the end of `s`.
pub fn str_trim_end(s: &str) -> (r: String)
    ensures
        r@ == trim_end(s@),
{
    str_trim_end_class(s, CharClass::White)
}

/// Strips the white space from both ends of `s`.
pub fn str_trim(s: &str) -> (r: String)
    ensures
        r@ == trim(s@),
{
    let head = str_trim_start(s);
    str_trim_end(head.as_str())
}

/// Whether the characters of `chars` from `at` on begin with `pat`.
pub(crate) fn matches_at(chars: &Vec<char>, at: usize, pat: &Vec<char>) -> (r: bool)
    requires
        at <= chars@.len(),
    ensures
        r == pat@.is_prefix_of(chars@.skip(at as int)),
{
    if pat.len() > chars.len() - at {
        return false;
    }
    let mut i: usize = 0;
    while i < pat.len()
        invariant
            i <= pat@.len(),
            at + pat@.len() <= chars.len(),
            forall|k: int| 0 <= k < i ==> pat@[k] == chars@.skip(at as int)[k],
        decreases pat@.len() - i,
    {
        if pat[i] != chars[at + i] {
            assert(pat@[i as int] != chars@.skip(at as int)[i as int]);
            return false;
        }
        i = i + 1;
    }
    assert(pat@ == chars@.skip(at as int).subrange(0, pat@.len() as int));
    true
}

/// Whether `s` begins with `pat`.
pub fn str_starts_with(s: &str, pat: &str) -> (r: bool)
    ensures
        r == pat@.is_prefix_of(s@),
{
    let chars = chars_of(s);
    let pat = chars_of(pat);
    let r = matches_at(&chars, 0, &pat);
    assert(chars@.skip(0) == chars@);
    r
}

/// What follows `pat` in `s`, where `s` begins with it.
pub open spec fn strip_prefix(s: Seq<char>, pat: Seq<char>) -> Option<Seq<char>> {
    if pat.is_prefix_of(s) {
        Some(s.skip(pat.len() as int))
    } else {
        None
    }
}

/// Strips `pat` from the start of `s`, where `s` begins with it.
pub fn str_strip_prefix(s: &str, pat: &str) -> (r: Option<String>)
    ensures
        opt_view(r) == strip_prefix(s@, pat@),
{
    let chars = chars_of(s);
    let pat = chars_of(pat);
    assert(chars@.skip(0) == chars@);
    if matches_at(&chars, 0, &pat) {
        assert(chars@.skip(pat@.len() as int) == chars@.subrange(
            pat@.len() as int,
            chars@.len() as int,
        ));
        Some(string_of(&chars, pat.len(), chars.len()))
    } else {
        None
    }
}

/// `s` with each occurrence of `pat` replaced by `with`, from left to right
/// and without overlaps.
pub open spec fn replace_all(s: Seq<char>, pat: Seq<char>, with: Seq<char>) -> Seq<char>
    decreases s.len(),
{
    if s.len() == 0 || pat.len() == 0 {
        s
    } else if pat.is_prefix_of(s) {
        with + replace_all(s.skip(pat.len() as int), pat, with)
    } else {
        seq![s[0]] + replace_all(s.skip(1), pat, with)
    }
}

/// Replaces each occurrence of `pat` in `s` by `with`.
pub fn str_replace(s: &str, pat: &str, with: &str) -> (r: String)
    requires
        pat@.len() > 0,
    ensures
        r@ == replace_all(s@, pat@, with@),
{
    let chars = chars_of(s);
    let pattern = chars_of(pat);
    let mut r: String = String::new();
    let mut i: usize = 0;
    assert(chars@.skip(0) == chars@);
    while i < chars.len()
        invariant
            i <= chars@.len(),
            pattern@ == pat@,
            pat@.len() > 0,
            replace_all(chars@, pat@, with@) == r@ + replace_all(
                chars@.skip(i as int),
                pat@,
                with@,
            ),
        decreases chars@.len() - i,
    {
        let ghost rest = chars@.skip(i as int);
        if matches_at(&chars, i, &pattern) {
            let ghost before = r@;
            r.append(with);
            assert(rest.skip(pat@.len() as int) == chars@.skip(i + pat@.len()));
            assert(before + (with@ + replace_all(chars@.skip(i + pat@.len()), pat@, with@)) == r@
                + replace_all(chars@.skip(i + pat@.len()), pat@, with@));
            i = i + pattern.len();
        } else {
            let ghost before = r@;
            push_char(&mut r, chars[i]);
            assert(rest.skip(1) == chars@.skip(i + 1));
            assert(before + (seq![rest[0]] + replace_all(chars@.skip(i + 1), pat@, with@)) == r@
                + replace_all(chars@.skip(i + 1), pat@, with@));
            i = i + 1;
        }
    }
    assert(chars@.skip(i as int) == Seq::<char>::empty());
    assert(r@ + Seq::<char>::empty() == r@);
    r
}

} // verus!
