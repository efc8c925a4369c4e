//! Removing blocks in tags from a text.
//!
//! A tag is looked for in the lower-case form of a text, and the text is cut at
//! the bytes at which the lower-case form has the tag. Where the lower-case form
//! of a character has another length, that may be another place.
use vstd::prelude::*;
use vstd::string::StringExecFns;

use crate::text;
use crate::text::{chars_of, copy_of, matches_at, string_of};

verus! {

/// The lower-case form of a text.
pub uninterp spec fn lowercased(s: Seq<char>) -> Seq<char>;

/// Calls `str::to_lowercase`, which gives the lower-case form of a text by the
/// rules of Unicode.
#[verifier::external_body]
pub(crate) fn to_lower(s: &str) -> (r: String)
    ensures
        r@ == lowercased(s@),
{
    s.to_lowercase()
}

/// The number of bytes in which UTF-8 writes a character.
pub open spec fn char_width(c: char) -> nat {
    if c <= '\u{7f}' {
        1
    } else if c <= '\u{7ff}' {
        2
    } else if c <= '\u{ffff}' {
        3
    } else {
        4
    }
}

/// The number of bytes in which UTF-8 writes a text.
pub open spec fn byte_len(s: Seq<char>) -> nat
    decreases s.len(),
{
    if s.len() == 0 {
        0
    } else {
        byte_len(s.drop_last()) + char_width(s.last())
    }
}

/// Whether the first `bytes` bytes of a text are its first `at` characters.
pub open spec fn is_cut(s: Seq<char>, bytes: int, at: int) -> bool {
    0 <= at <= s.len() && byte_len(s.take(at)) == bytes
}

/// The number of characters in the first `bytes` bytes of a text, where those
/// are whole characters.
pub open spec fn cut(s: Seq<char>, bytes: int) -> Option<int> {
    if exists|at: int| is_cut(s, bytes, at) {
        Some(choose|at: int| is_cut(s, bytes, at))
    } else {
        None
    }
}

/// Whether `pat` stands in `s` at `at`, and nowhere before.
pub open spec fn is_first(s: Seq<char>, pat: Seq<char>, at: int) -> bool {
    &&& 0 <= at <= s.len()
    &&& pat.is_prefix_of(s.skip(at))
    &&& forall|i: int| 0 <= i < at ==> !pat.is_prefix_of(#[trigger] s.skip(i))
}

/// The number of bytes before the first `pat` in `s`.
pub open spec fn bytes_before(s: Seq<char>, pat: Seq<char>) -> Option<int> {
    if exists|at: int| is_first(s, pat, at) {
        Some(byte_len(s.take(choose|at: int| is_first(s, pat, at))) as int)
    } else {
        None
    }
}

pub open spec fn open_tag(tag: Seq<char>) -> Seq<char> {
    "<"@ + tag + ">"@
}

pub open spec fn close_tag(tag: Seq<char>) -> Seq<char> {
    "</"@ + tag + ">"@
}

/// A text cut at its first block in a tag, which begins after `start` bytes: what
/// is before the block, and what follows its opening tag. Nothing where the text
/// cannot be cut there.
pub open spec fn opened(s: Seq<char>, start: int, tag: Seq<char>) -> Option<
    (Seq<char>, Seq<char>),
> {
    match (cut(s, start), cut(s, start + byte_len(open_tag(tag)))) {
        (Some(a), Some(b)) => Some((s.take(a), s.skip(b))),
        _ => None,
    }
}

/// What follows a block, given what follows its opening tag and the lower-case
/// form of that. A block that is not closed goes to the end. Nothing where the
/// text cannot be cut after the block.
pub open spec fn closed(inside: Seq<char>, lower: Seq<char>, tag: Seq<char>) -> Option<Seq<char>> {
    match bytes_before(lower, close_tag(tag)) {
        None => Some(Seq::empty()),
        Some(end) => match cut(inside, end + byte_len(close_tag(tag))) {
            Some(c) => Some(inside.skip(c)),
            None => None,
        },
    }
}

/// What is left of a text after its first block in a tag: the text before the
/// block and the text after it; nothing where the text cannot be cut.
pub open spec fn after_block(s: Seq<char>, start: int, tag: Seq<char>) -> Option<
    (Seq<char>, Seq<char>),
> {
    match opened(s, start, tag) {
        Some((before, inside)) => match closed(inside, lowercased(inside), tag) {
            Some(rest) => Some((before, rest)),
            None => None,
        },
        None => None,
    }
}

/// A text without its blocks in a tag; nothing where it cannot be cut.
pub open spec fn untagged(s: Seq<char>, tag: Seq<char>) -> Option<Seq<char>>
    decreases s.len(),
    via untagged_decreases
{
    if s.len() == 0 {
        Some(s)
    } else {
        match bytes_before(lowercased(s), open_tag(tag)) {
            None => Some(s),
            Some(start) => match after_block(s, start, tag) {
                None => None,
                Some((before, rest)) => match untagged(rest, tag) {
                    None => None,
                    Some(clean) => Some(before + clean),
                },
            },
        }
    }
}

#[via_fn]
proof fn untagged_decreases(s: Seq<char>, tag: Seq<char>) {
    if let Some(start) = bytes_before(lowercased(s), open_tag(tag)) {
        if let Some((before, rest)) = after_block(s, start, tag) {
            lemma_block_is_shorter(s, start, tag);
        }
    }
}

proof fn lemma_block_is_shorter(s: Seq<char>, start: int, tag: Seq<char>)
    requires
        start >= 0,
    ensures
        after_block(s, start, tag) matches Some((before, rest)) ==> rest.len() < s.len(),
{
    reveal_strlit("<");
    reveal_strlit(">");
    assert(open_tag(tag).len() >= 2);
    lemma_byte_len_at_least(open_tag(tag));
    let bytes = start + byte_len(open_tag(tag));
    if let Some(b) = cut(s, bytes) {
        assert(is_cut(s, bytes, b));
        if b == 0 {
            assert(s.take(0).len() == 0);
        }
    }
}

/// A text has a byte for each character at least.
pub proof fn lemma_byte_len_at_least(s: Seq<char>)
    ensures
        byte_len(s) >= s.len(),
    decreases s.len(),
{
    if s.len() > 0 {
        lemma_byte_len_at_least(s.drop_last());
    }
}

proof fn lemma_byte_len_grows(s: Seq<char>, a: int, b: int)
    requires
        0 <= a < b <= s.len(),
    ensures
        byte_len(s.take(a)) < byte_len(s.take(b)),
    decreases b - a,
{
    assert(s.take(b).drop_last() =~= s.take(b - 1));
    if a < b - 1 {
        lemma_byte_len_grows(s, a, b - 1);
    }
}

/// There is one cut at most.
proof fn lemma_cut_is(s: Seq<char>, bytes: int, at: int)
    requires
        is_cut(s, bytes, at),
    ensures
        cut(s, bytes) == Some(at),
{
    let other = cut(s, bytes)->0;
    assert(is_cut(s, bytes, other));
    if at < other {
        lemma_byte_len_grows(s, at, other);
    } else if other < at {
        lemma_byte_len_grows(s, other, at);
    }
}

fn width_of(c: char) -> (r: usize)
    ensures
        r == char_width(c),
{
    if c <= '\u{7f}' {
        1
    } else if c <= '\u{7ff}' {
        2
    } else if c <= '\u{ffff}' {
        3
    } else {
        4
    }
}

/// The number of bytes in which UTF-8 writes the first characters of a text.
fn bytes_of(chars: &Vec<char>, to: usize) -> (r: u128)
    requires
        to <= chars@.len(),
    ensures
        r == byte_len(chars@.take(to as int)),
        r <= 4 * to,
{
    let mut bytes: u128 = 0;
    let mut i: usize = 0;
    assert(chars@.take(0).len() == 0);
    while i < to
        invariant
            i <= to <= chars.len(),
            bytes == byte_len(chars@.take(i as int)),
            bytes <= 4 * i,
        decreases to - i,
    {
        assert(chars@.take(i + 1).drop_last() =~= chars@.take(i as int));
        bytes = bytes + width_of(chars[i]) as u128;
        i = i + 1;
    }
    bytes
}

/// Finds the number of characters in the first bytes of a text.
fn find_cut(chars: &Vec<char>, target: u128) -> (r: Option<usize>)
    ensures
        (match r {
            Some(at) => Some(at as int),
            None => None,
        }) == cut(chars@, target as int),
        r matches Some(at) ==> at <= chars@.len(),
{
    let mut bytes: u128 = 0;
    let mut i: usize = 0;
    assert(chars@.take(0).len() == 0);
    while i < chars.len() && bytes < target
        invariant
            i <= chars.len(),
            bytes == byte_len(chars@.take(i as int)),
            bytes <= 4 * i,
            forall|k: int| 0 <= k < i ==> byte_len(#[trigger] chars@.take(k)) < target,
        decreases chars@.len() - i,
    {
        assert(chars@.take(i + 1).drop_last() =~= chars@.take(i as int));
        bytes = bytes + width_of(chars[i]) as u128;
        i = i + 1;
    }
    if bytes == target {
        proof {
            lemma_cut_is(chars@, target as int, i as int);
        }
        Some(i)
    } else {
        proof {
            assert forall|at: int| !is_cut(chars@, target as int, at) by {
                if is_cut(chars@, target as int, at) {
                    if at < i {
                        assert(byte_len(chars@.take(at)) < target);
                    } else if i < at {
                        lemma_byte_len_grows(chars@, i as int, at);
                    }
                }
            }
        }
        None
    }
}

/// Finds the number of bytes before the first `pat` of a text.
fn find_bytes_before(chars: &Vec<char>, pat: &Vec<char>) -> (r: Option<u128>)
    requires
        pat@.len() > 0,
    ensures
        (match r {
            Some(bytes) => Some(bytes as int),
            None => None,
        }) == bytes_before(chars@, pat@),
        r matches Some(bytes) ==> bytes <= 4 * usize::MAX,
{
    let mut i: usize = 0;
    while i < chars.len()
        invariant
            i <= chars@.len(),
            pat@.len() > 0,
            forall|k: int| 0 <= k < i ==> !pat@.is_prefix_of(#[trigger] chars@.skip(k)),
        decreases chars@.len() - i,
    {
        if matches_at(chars, i, pat) {
            proof {
                assert(is_first(chars@, pat@, i as int));
                let at = choose|at: int| is_first(chars@, pat@, at);
                assert(is_first(chars@, pat@, at));
                assert(!(at < i));
                if i < at {
                    assert(pat@.is_prefix_of(chars@.skip(i as int)));
                }
            }
            return Some(bytes_of(chars, i));
        }
        i = i + 1;
    }
    proof {
        assert forall|at: int| !is_first(chars@, pat@, at) by {
            if is_first(chars@, pat@, at) {
                if at < i {
                } else {
                    assert(chars@.skip(at).len() == 0);
                }
            }
        }
    }
    None
}

fn tag_text(head: &str, tag: &str) -> (r: String)
    ensures
        r@ == head@ + tag@ + ">"@,
{
    let mut r = copy_of(head);
    r.append(tag);
    r.append(">");
    r
}

/// The number of bytes before the first opening tag in the lower-case form of a
/// text.
pub fn tag_start(lower: &str, tag: &str) -> (r: Option<u128>)
    ensures
        (match r {
            Some(bytes) => Some(bytes as int),
            None => None,
        }) == bytes_before(lower@, open_tag(tag@)),
        r matches Some(bytes) ==> bytes <= 4 * usize::MAX,
{
    let opening = chars_of(tag_text("<", tag).as_str());
    proof {
        reveal_strlit("<");
    }
    find_bytes_before(&chars_of(lower), &opening)
}

/// Cuts a text at its first block in a tag.
pub fn cut_open(value: &str, start: u128, tag: &str) -> (r: Option<(String, String)>)
    requires
        start <= 4 * usize::MAX,
    ensures
        (match r {
            Some((before, inside)) => Some((before@, inside@)),
            None => None,
        }) == opened(value@, start as int, tag@),
{
    let chars = chars_of(value);
    let opening = chars_of(tag_text("<", tag).as_str());
    assert(opening@.take(opening@.len() as int) =~= opening@);
    let open_bytes: u128 = bytes_of(&opening, opening.len());
    match (find_cut(&chars, start), find_cut(&chars, start + open_bytes)) {
        (Some(a), Some(b)) => {
            let before = string_of(&chars, 0, a);
            let inside = string_of(&chars, b, chars.len());
            assert(before@ =~= chars@.take(a as int));
            assert(inside@ =~= chars@.skip(b as int));
            Some((before, inside))
        },
        _ => None,
    }
}

/// Cuts off the end of a block.
pub fn cut_close(inside: &str, lower: &str, tag: &str) -> (r: Option<String>)
    ensures
        text::opt_view(r) == closed(inside@, lower@, tag@),
{
    let chars = chars_of(inside);
    let closing = chars_of(tag_text("</", tag).as_str());
    proof {
        reveal_strlit("</");
        assert(closing@.take(closing@.len() as int) =~= closing@);
    }
    let close_bytes: u128 = bytes_of(&closing, closing.len());
    match find_bytes_before(&chars_of(lower), &closing) {
        None => {
            let rest = String::new();
            assert(rest@ =~= Seq::<char>::empty());
            Some(rest)
        },
        Some(end) => match find_cut(&chars, end + close_bytes) {
            None => None,
            Some(c) => {
                let rest = string_of(&chars, c, chars.len());
                assert(rest@ =~= chars@.skip(c as int));
                Some(rest)
            },
        },
    }
}

/// Removes the blocks in a tag from a text, where it can be cut.
pub fn try_remove_tagged_block(value: &str, tag: &str) -> (r: Option<String>)
    ensures
        text::opt_view(r) == untagged(value@, tag@),
{
    let mut output = String::new();
    let mut remaining = copy_of(value);
    loop
        invariant
            untagged(value@, tag@) == (match untagged(remaining@, tag@) {
                Some(clean) => Some(output@ + clean),
                None => None,
            }),
        decreases remaining@.len(),
    {
        if text::is_empty(remaining.as_str()) {
            assert(output@ + remaining@ =~= output@);
            return Some(output);
        }
        let lower = to_lower(remaining.as_str());
        let start = match tag_start(lower.as_str(), tag) {
            None => {
                output.append(remaining.as_str());
                return Some(output);
            },
            Some(start) => start,
        };
        match cut_open(remaining.as_str(), start, tag) {
            None => {
                return None;
            },
            Some((before, inside)) => {
                let inside_lower = to_lower(inside.as_str());
                match cut_close(inside.as_str(), inside_lower.as_str(), tag) {
                    None => {
                        return None;
                    },
                    Some(rest) => {
                        let ghost done = output@;
                        output.append(before.as_str());
                        proof {
                            lemma_block_is_shorter(remaining@, start as int, tag@);
                            if let Some(clean) = untagged(rest@, tag@) {
                                assert(done + (before@ + clean) =~= output@ + clean);
                            }
                        }
                        remaining = rest;
                    },
                }
            },
        }
    }
}

/// Removes the blocks in a tag from a text that can be cut.
pub fn remove_tagged_block(value: &str, tag: &str) -> (r: String)
    requires
        untagged(value@, tag@) is Some,
    ensures
        untagged(value@, tag@) == Some(r@),
{
    match try_remove_tagged_block(value, tag) {
        Some(r) => r,
        None => String::new(),
    }
}

/// A text whose lower-case form has no such tag stays as it is.
pub proof fn untagged_text_stays(s: Seq<char>, tag: Seq<char>)
    requires
        forall|i: int|
            0 <= i <= lowercased(s).len() ==> !open_tag(tag).is_prefix_of(
                #[trigger] lowercased(s).skip(i),
            ),
    ensures
        untagged(s, tag) == Some(s),
{
}

/// Whether a text has `pat` at `at`, character by character, and has it nowhere
/// earlier.
pub open spec fn begins_at(s: Seq<char>, pat: Seq<char>, at: int) -> bool {
    &&& 0 <= at && at + pat.len() <= s.len()
    &&& s.subrange(at, at + pat.len()) == pat
    &&& forall|i: int|
        #![trigger s.subrange(i, i + pat.len())]
        0 <= i < at ==> s.subrange(i, i + pat.len()) != pat
}

proof fn lemma_begins(s: Seq<char>, pat: Seq<char>, at: int)
    requires
        begins_at(s, pat, at),
    ensures
        is_first(s, pat, at),
{
    assert(s.skip(at).subrange(0, pat.len() as int) =~= s.subrange(at, at + pat.len()));
    assert forall|i: int| 0 <= i < at implies !pat.is_prefix_of(#[trigger] s.skip(i)) by {
        assert(s.subrange(i, i + pat.len()) != pat);
        if pat.is_prefix_of(s.skip(i)) {
            assert(s.skip(i).subrange(0, pat.len() as int) =~= s.subrange(i, i + pat.len()));
        }
    }
}

/// The bytes of a text are those of its parts, and a character has one to four of
/// them by its number.
pub proof fn bytes_add_up(a: Seq<char>, b: Seq<char>, c: char)
    ensures
        byte_len(a + b) == byte_len(a) + byte_len(b),
        byte_len(Seq::<char>::empty()) == 0,
        (c as u32) < 0x80 ==> byte_len(seq![c]) == 1,
        0x80 <= (c as u32) < 0x800 ==> byte_len(seq![c]) == 2,
        0x800 <= (c as u32) < 0x1_0000 ==> byte_len(seq![c]) == 3,
        0x1_0000 <= (c as u32) ==> byte_len(seq![c]) == 4,
    decreases b.len(),
{
    let one = seq![c];
    assert(one.drop_last() =~= Seq::<char>::empty());
    assert(one.last() == c);
    assert(byte_len(one) == byte_len(one.drop_last()) + char_width(c));
    if b.len() > 0 {
        bytes_add_up(a, b.drop_last(), c);
        assert((a + b).drop_last() =~= a + b.drop_last());
        assert((a + b).last() == b.last());
    } else {
        assert(a + b =~= a);
    }
}

/// The first block in a tag is cut out, from the bytes at which the lower-case form
/// of the text first has the opening tag, to those at which the lower-case form of
/// what follows first has the closing tag. What follows the block is looked through
/// in turn.
pub proof fn first_block_is_cut_out(
    head: Seq<char>,
    opening: Seq<char>,
    inside: Seq<char>,
    closing: Seq<char>,
    rest: Seq<char>,
    tag: Seq<char>,
    start: int,
    end: int,
)
    requires
        ({
            let after = inside + closing + rest;
            let lower = lowercased(head + opening + after);
            let lower_after = lowercased(after);
            &&& begins_at(lower, seq!['<'] + tag + seq!['>'], start)
            &&& byte_len(lower.take(start)) == byte_len(head)
            &&& byte_len(opening) == byte_len(tag) + 2
            &&& begins_at(lower_after, seq!['<', '/'] + tag + seq!['>'], end)
            &&& byte_len(lower_after.take(end)) == byte_len(inside)
            &&& byte_len(closing) == byte_len(tag) + 3
        }),
    ensures
        untagged(rest, tag) matches Some(clean) ==> untagged(
            head + opening + (inside + closing + rest),
            tag,
        ) == Some(head + clean),
        untagged(rest, tag) is None ==> untagged(
            head + opening + (inside + closing + rest),
            tag,
        ) is None,
{
    let after = inside + closing + rest;
    let s = head + opening + after;
    lemma_opened(head, opening, after, tag, start);
    lemma_tags(tag);
    let lower = lowercased(after);
    lemma_begins(lower, close_tag(tag), end);
    lemma_first_is_one(lower, close_tag(tag), end);
    bytes_add_up(inside, closing, 'a');
    assert(after.take((inside + closing).len() as int) =~= inside + closing);
    lemma_cut_is(
        after,
        byte_len(inside) as int + byte_len(close_tag(tag)) as int,
        (inside + closing).len() as int,
    );
    assert(after.skip((inside + closing).len() as int) =~= rest);
    assert(closed(after, lower, tag) == Some(rest));
}

/// A block that is not closed goes to the end of the text.
pub proof fn open_block_goes_to_the_end(
    head: Seq<char>,
    opening: Seq<char>,
    after: Seq<char>,
    tag: Seq<char>,
    start: int,
)
    requires
        ({
            let lower = lowercased(head + opening + after);
            &&& begins_at(lower, seq!['<'] + tag + seq!['>'], start)
            &&& byte_len(lower.take(start)) == byte_len(head)
            &&& byte_len(opening) == byte_len(tag) + 2
        }),
        forall|i: int|
            0 <= i <= lowercased(after).len() ==> !(seq!['<', '/'] + tag
                + seq!['>']).is_prefix_of(#[trigger] lowercased(after).skip(i)),
    ensures
        untagged(head + opening + after, tag) == Some(head),
{
    lemma_opened(head, opening, after, tag, start);
    lemma_tags(tag);
    assert(untagged(Seq::empty(), tag) == Some(Seq::<char>::empty()));
    assert(head + Seq::<char>::empty() =~= head);
}

proof fn lemma_tags(tag: Seq<char>)
    ensures
        open_tag(tag) == seq!['<'] + tag + seq!['>'],
        close_tag(tag) == seq!['<', '/'] + tag + seq!['>'],
        byte_len(open_tag(tag)) == byte_len(tag) + 2,
        byte_len(close_tag(tag)) == byte_len(tag) + 3,
{
    reveal_strlit("<");
    reveal_strlit("</");
    reveal_strlit(">");
    assert("<"@ =~= seq!['<']);
    assert("</"@ =~= seq!['<', '/']);
    assert(">"@ =~= seq!['>']);
    bytes_add_up(seq!['<'], tag, '<');
    bytes_add_up(seq!['<'] + tag, seq!['>'], '>');
    bytes_add_up(seq!['<'], seq!['/'], '/');
    assert(seq!['<'] + seq!['/'] =~= seq!['<', '/']);
    bytes_add_up(seq!['<', '/'], tag, '<');
    bytes_add_up(seq!['<', '/'] + tag, seq!['>'], '>');
}

proof fn lemma_first_is_one(s: Seq<char>, pat: Seq<char>, at: int)
    requires
        is_first(s, pat, at),
    ensures
        bytes_before(s, pat) == Some(byte_len(s.take(at)) as int),
{
    let other = choose|i: int| is_first(s, pat, i);
    assert(is_first(s, pat, other));
    if other < at {
        assert(!pat.is_prefix_of(s.skip(other)));
    }
    if at < other {
        assert(!pat.is_prefix_of(s.skip(at)));
    }
}

proof fn lemma_opened(
    head: Seq<char>,
    opening: Seq<char>,
    after: Seq<char>,
    tag: Seq<char>,
    start: int,
)
    requires
        ({
            let lower = lowercased(head + opening + after);
            &&& begins_at(lower, seq!['<'] + tag + seq!['>'], start)
            &&& byte_len(lower.take(start)) == byte_len(head)
            &&& byte_len(opening) == byte_len(tag) + 2
        }),
    ensures
        ({
            let s = head + opening + after;
            &&& s.len() > 0
            &&& bytes_before(lowercased(s), open_tag(tag)) == Some(byte_len(head) as int)
            &&& opened(s, byte_len(head) as int, tag) == Some((head, after))
        }),
{
    let s = head + opening + after;
    lemma_tags(tag);
    lemma_begins(lowercased(s), open_tag(tag), start);
    lemma_first_is_one(lowercased(s), open_tag(tag), start);
    bytes_add_up(head, opening, 'a');
    assert(s.take(head.len() as int) =~= head);
    assert(s.take((head + opening).len() as int) =~= head + opening);
    lemma_cut_is(s, byte_len(head) as int, head.len() as int);
    lemma_cut_is(
        s,
        byte_len(head) as int + byte_len(open_tag(tag)) as int,
        (head + opening).len() as int,
    );
    assert(s.skip((head + opening).len() as int) =~= after);
    assert(opening.len() > 0);
}

} // verus!
