//! Removal of markup that a model sometimes writes at the start of its text.
use vstd::prelude::*;
use crate::json::copy_string;

verus! {

/// How many markers the sanitizer knows.
pub const TAG_COUNT: usize = 12;

/// The markers stripped from the front of a text, tried in this order.
pub open spec fn tag_text(k: int) -> Seq<char> {
    if k == 0 {
        seq!['<', '/', 't', 'h', 'i', 'n', 'k', 'i', 'n', 'g', '>']
    } else if k == 1 {
        seq!['<', 't', 'h', 'i', 'n', 'k', 'i', 'n', 'g', '>']
    } else if k == 2 {
        seq!['<', '/', 't', 'h', 'o', 'u', 'g', 'h', 't', '>']
    } else if k == 3 {
        seq!['<', 't', 'h', 'o', 'u', 'g', 'h', 't', '>']
    } else if k == 4 {
        seq!['<', '/', 'r', 'e', 'a', 's', 'o', 'n', 'i', 'n', 'g', '>']
    } else if k == 5 {
        seq!['<', 'r', 'e', 'a', 's', 'o', 'n', 'i', 'n', 'g', '>']
    } else if k == 6 {
        seq!['[', 'E', 'n', 'd', ' ', 'o', 'f', ' ', 'R', 'e', 'a', 's', 'o', 'n', 'i', 'n', 'g', ']']
    } else if k == 7 {
        seq!['[', 'R', 'e', 'a', 's', 'o', 'n', 'i', 'n', 'g', ']', ':']
    } else if k == 8 {
        seq!['R', 'e', 'a', 's', 'o', 'n', 'i', 'n', 'g', ':']
    } else if k == 9 {
        seq!['T', 'h', 'o', 'u', 'g', 'h', 't', ':']
    } else if k == 10 {
        seq!['\n', '\n']
    } else if k == 11 {
        seq!['\n']
    } else {
        Seq::empty()
    }
}

/// Characters with the Unicode `White_Space` property.
pub open spec fn is_white_space(c: char) -> bool {
    let u = c as u32;
    (0x9 <= u <= 0xd) || u == 0x20 || u == 0x85 || u == 0xa0 || u == 0x1680 || (0x2000 <= u
        <= 0x200a) || u == 0x2028 || u == 0x2029 || u == 0x202f || u == 0x205f || u == 0x3000
}

/// A character with ASCII upper case folded to lower case.
pub open spec fn fold(c: char) -> int {
    if 'A' <= c && c <= 'Z' {
        c as u32 + 32
    } else {
        c as u32 as int
    }
}

/// `s` begins with `t`, ignoring ASCII case.
pub open spec fn starts_with_folded(s: Seq<char>, t: Seq<char>) -> bool {
    t.len() <= s.len() && forall|i: int| 0 <= i < t.len() ==> #[trigger] fold(s[i]) == fold(t[i])
}

/// The first marker, from `k` on, that `s` begins with.
pub open spec fn first_tag_from(s: Seq<char>, k: int) -> Option<int>
    decreases TAG_COUNT - k,
{
    if k < 0 || k >= TAG_COUNT {
        None
    } else if starts_with_folded(s, tag_text(k)) {
        Some(k)
    } else {
        first_tag_from(s, k + 1)
    }
}

pub open spec fn first_tag(s: Seq<char>) -> Option<int> {
    first_tag_from(s, 0)
}

/// The text with leading whitespace and leading markers removed, repeatedly,
/// until it begins with neither.
pub open spec fn sanitized(s: Seq<char>) -> Seq<char>
    decreases s.len(),
{
    if s.len() > 0 && is_white_space(s[0]) {
        sanitized(s.drop_first())
    } else {
        match first_tag(s) {
            Some(k) => if 0 <= k < TAG_COUNT && starts_with_folded(s, tag_text(k)) {
                sanitized(s.subrange(tag_text(k).len() as int, s.len() as int))
            } else {
                s
            },
            None => s,
        }
    }
}

/// A text that the sanitizer leaves as it is.
pub open spec fn is_clean(s: Seq<char>) -> bool {
    (s.len() == 0 || !is_white_space(s[0])) && first_tag(s) is None
}

proof fn lemma_first_tag_from_range(s: Seq<char>, k: int)
    ensures
        first_tag_from(s, k) matches Some(j) ==> 0 <= j < TAG_COUNT && starts_with_folded(s, tag_text(j)),
    decreases TAG_COUNT - k,
{
    if 0 <= k < TAG_COUNT && !starts_with_folded(s, tag_text(k)) {
        lemma_first_tag_from_range(s, k + 1);
    }
}

/// What the sanitizer returns is clean.
pub proof fn lemma_sanitized_is_clean(s: Seq<char>)
    ensures
        is_clean(sanitized(s)),
    decreases s.len(),
{
    lemma_first_tag_from_range(s, 0);
    if s.len() > 0 && is_white_space(s[0]) {
        lemma_sanitized_is_clean(s.drop_first());
    } else {
        match first_tag(s) {
            Some(k) => {
                lemma_sanitized_is_clean(s.subrange(tag_text(k).len() as int, s.len() as int));
            },
            None => {},
        }
    }
}

/// Sanitizing twice gives what sanitizing once gives.
pub proof fn lemma_sanitize_idempotent(s: Seq<char>)
    ensures
        sanitized(sanitized(s)) == sanitized(s),
{
    lemma_sanitized_is_clean(s);
}

pub fn is_white_space_char(c: char) -> (r: bool)
    ensures
        r == is_white_space(c),
{
    let u = c as u32;
    (0x9 <= u && u <= 0xd) || u == 0x20 || u == 0x85 || u == 0xa0 || u == 0x1680 || (0x2000 <= u
        && u <= 0x200a) || u == 0x2028 || u == 0x2029 || u == 0x202f || u == 0x205f || u == 0x3000
}

fn fold_char(c: char) -> (r: u32)
    ensures
        r == fold(c),
{
    if 'A' <= c && c <= 'Z' {
        c as u32 + 32
    } else {
        c as u32
    }
}

fn tag(k: usize) -> (r: &'static str)
    requires
        k < TAG_COUNT,
    ensures
        r@ == tag_text(k as int),
{
    proof {
        reveal_strlit("</thinking>");
        reveal_strlit("<thinking>");
        reveal_strlit("</thought>");
        reveal_strlit("<thought>");
        reveal_strlit("</reasoning>");
        reveal_strlit("<reasoning>");
        reveal_strlit("[End of Reasoning]");
        reveal_strlit("[Reasoning]:");
        reveal_strlit("Reasoning:");
        reveal_strlit("Thought:");
        reveal_strlit("\n\n");
        reveal_strlit("\n");
    }
    match k {
        0 => "</thinking>",
        1 => "<thinking>",
        2 => "</thought>",
        3 => "<thought>",
        4 => "</reasoning>",
        5 => "<reasoning>",
        6 => "[End of Reasoning]",
        7 => "[Reasoning]:",
        8 => "Reasoning:",
        9 => "Thought:",
        10 => "\n\n",
        11 => "\n",
        _ => "\n",
    }
}

/// Whether `s` holds marker `k` at character position `pos`.
fn tag_at(s: &str, n: usize, pos: usize, k: usize) -> (r: bool)
    requires
        n == s@.len(),
        pos <= n,
        k < TAG_COUNT,
    ensures
        r == starts_with_folded(s@.subrange(pos as int, n as int), tag_text(k as int)),
{
    let t = tag(k);
    let m = t.unicode_len();
    if m > n - pos {
        return false;
    }
    let mut j: usize = 0;
    while j < m
        invariant
            n == s@.len(),
            pos <= n,
            m == t@.len(),
            m <= n - pos,
            t@ == tag_text(k as int),
            j <= m,
            forall|i: int| 0 <= i < j ==> #[trigger] fold(s@[pos + i]) == fold(t@[i]),
        decreases m - j,
    {
        if fold_char(s.get_char(pos + j)) != fold_char(t.get_char(j)) {
            assert(fold(s@.subrange(pos as int, n as int)[j as int]) != fold(t@[j as int]));
            return false;
        }
        j = j + 1;
    }
    assert forall|i: int| 0 <= i < t@.len() implies #[trigger] fold(s@.subrange(pos as int, n as int)[i]) == fold(t@[i]) by {
        assert(s@.subrange(pos as int, n as int)[i] == s@[pos + i]);
    }
    true
}

fn first_tag_at(s: &str, n: usize, pos: usize) -> (r: Option<usize>)
    requires
        n == s@.len(),
        pos <= n,
    ensures
        match r {
            Some(k) => first_tag(s@.subrange(pos as int, n as int)) == Some(k as int),
            None => first_tag(s@.subrange(pos as int, n as int)) is None,
        },
{
    let ghost rest = s@.subrange(pos as int, n as int);
    let mut k: usize = 0;
    while k < TAG_COUNT
        invariant
            n == s@.len(),
            pos <= n,
            rest == s@.subrange(pos as int, n as int),
            k <= TAG_COUNT,
            first_tag(rest) == first_tag_from(rest, k as int),
        decreases TAG_COUNT - k,
    {
        if tag_at(s, n, pos, k) {
            return Some(k);
        }
        k = k + 1;
    }
    None
}

/// Strips leading whitespace and leading markers (`<thinking>`, `Thought:` and the
/// like, in any ASCII case) from the front of a text, until neither is left.
pub fn strip_hallucinated_tags(content: &str) -> (r: String)
    ensures
        r@ == sanitized(content@),
{
    let n = content.unicode_len();
    let mut pos: usize = 0;
    assert(content@.subrange(0, n as int) =~= content@);
    loop
        invariant
            n == content@.len(),
            pos <= n,
            sanitized(content@) == sanitized(content@.subrange(pos as int, n as int)),
        decreases n - pos,
    {
        let ghost rest = content@.subrange(pos as int, n as int);
        if pos < n && is_white_space_char(content.get_char(pos)) {
            assert(rest.drop_first() =~= content@.subrange(pos as int + 1, n as int));
            pos = pos + 1;
        } else {
            match first_tag_at(content, n, pos) {
                Some(k) => {
                    proof {
                        lemma_first_tag_from_range(rest, 0);
                    }
                    let m = tag(k).unicode_len();
                    assert(rest.subrange(m as int, rest.len() as int) =~= content@.subrange(
                        pos + m,
                        n as int,
                    ));
                    pos = pos + m;
                },
                None => {
                    return copy_string(content.substring_char(pos, n));
                },
            }
        }
    }
}

} // verus!
