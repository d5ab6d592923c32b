//! Server-sent-event decoding of the upstream byte stream, and the reading of
//! one `data:` payload.
use vstd::prelude::*;
use crate::json::Json;
use crate::sanitize::{is_white_space, is_white_space_char};
use crate::stream::Payload;

verus! {

/// The index of the first blank line (`\n\n`) at or after `k`.
pub open spec fn blank_from(s: Seq<char>, k: int) -> Option<int>
    decreases s.len() - k,
{
    if k < 0 || k + 1 >= s.len() {
        None
    } else if s[k] == '\n' && s[k + 1] == '\n' {
        Some(k)
    } else {
        blank_from(s, k + 1)
    }
}

/// The index of the first `\n` in `[k, b)`, or `b`.
pub open spec fn newline_from(s: Seq<char>, k: int, b: int) -> int
    decreases b - k,
{
    if k >= b || k < 0 || k >= s.len() {
        b
    } else if s[k] == '\n' {
        k
    } else {
        newline_from(s, k + 1, b)
    }
}

/// A line without one trailing `\r`.
pub open spec fn strip_cr(l: Seq<char>) -> Seq<char> {
    if l.len() > 0 && l.last() == '\r' {
        l.drop_last()
    } else {
        l
    }
}

pub open spec fn data_prefix() -> Seq<char> {
    seq!['d', 'a', 't', 'a', ':', ' ']
}

/// The payload of a `data: ` line; other lines have none.
pub open spec fn line_payload(line: Seq<char>) -> Seq<Seq<char>> {
    let l = strip_cr(line);
    if l.len() >= 6 && l.subrange(0, 6) == data_prefix() {
        seq![l.subrange(6, l.len() as int)]
    } else {
        Seq::empty()
    }
}

/// The payloads of the lines in `[a, b)`, in order.
pub open spec fn payloads_in(s: Seq<char>, a: int, b: int) -> Seq<Seq<char>>
    decreases b - a,
{
    if a < 0 || a >= b || b > s.len() {
        Seq::empty()
    } else {
        let e = newline_from(s, a, b);
        if a <= e && e < b {
            line_payload(s.subrange(a, e)) + payloads_in(s, e + 1, b)
        } else {
            line_payload(s.subrange(a, b))
        }
    }
}

/// The payloads of the complete frames from `start` on, and where the
/// incomplete rest begins.
pub open spec fn frames_from(s: Seq<char>, start: int) -> (Seq<Seq<char>>, int)
    decreases s.len() - start,
{
    if start < 0 || start > s.len() {
        (Seq::empty(), start)
    } else {
        match blank_from(s, start) {
            Some(i) => if start <= i && i + 2 <= s.len() {
                let r = frames_from(s, i + 2);
                (payloads_in(s, start, i) + r.0, r.1)
            } else {
                (Seq::empty(), start)
            },
            None => (Seq::empty(), start),
        }
    }
}

pub open spec fn string_views(v: Seq<String>) -> Seq<Seq<char>> {
    v.map_values(|s: String| s@)
}

/// Relies on `String`'s `FromIterator<&char>` (through `collect`): the string of
/// the characters, in order.
#[verifier::external_body]
fn string_from_chars(cs: &[char]) -> (r: String)
    ensures
        r@ == cs@,
{
    cs.iter().collect()
}

fn string_of_range(s: &Vec<char>, a: usize, b: usize) -> (r: String)
    requires
        a <= b <= s@.len(),
    ensures
        r@ == s@.subrange(a as int, b as int),
{
    let mut part: Vec<char> = Vec::new();
    let mut k: usize = a;
    while k < b
        invariant
            a <= k <= b <= s@.len(),
            part@ == s@.subrange(a as int, k as int),
        decreases b - k,
    {
        part.push(s[k]);
        k = k + 1;
        assert(part@ =~= s@.subrange(a as int, k as int));
    }
    string_from_chars(part.as_slice())
}

/// The characters of a string.
pub fn chars_of(s: &str) -> (r: Vec<char>)
    ensures
        r@ == s@,
{
    let n = s.unicode_len();
    let mut out: Vec<char> = Vec::new();
    let mut k: usize = 0;
    while k < n
        invariant
            n == s@.len(),
            k <= n,
            out@ == s@.subrange(0, k as int),
        decreases n - k,
    {
        out.push(s.get_char(k));
        k = k + 1;
        assert(out@ =~= s@.subrange(0, k as int));
    }
    assert(out@ =~= s@);
    out
}

fn line_payload_into(s: &Vec<char>, a: usize, e: usize, out: &mut Vec<String>)
    requires
        a <= e <= s@.len(),
    ensures
        string_views(final(out)@) == string_views(old(out)@) + line_payload(s@.subrange(a as int, e as int)),
{
    let ghost line = s@.subrange(a as int, e as int);
    let mut end = e;
    if end > a && s[end - 1] == '\r' {
        end = end - 1;
    }
    assert(s@.subrange(a as int, end as int) =~= strip_cr(line));
    let is_data = end - a >= 6 && s[a] == 'd' && s[a + 1] == 'a' && s[a + 2] == 't' && s[a + 3] == 'a'
        && s[a + 4] == ':' && s[a + 5] == ' ';
    if is_data {
        assert(strip_cr(line).subrange(0, 6) =~= data_prefix());
        let p = string_of_range(s, a + 6, end);
        out.push(p);
        assert(p@ =~= strip_cr(line).subrange(6, strip_cr(line).len() as int));
        assert(string_views(out@) =~= string_views(old(out)@) + line_payload(line));
    } else {
        assert(strip_cr(line).len() >= 6 ==> strip_cr(line)[0] == s@[a as int]);
        assert(strip_cr(line).len() >= 6 ==> strip_cr(line).subrange(0, 6) != data_prefix()) by {
            if strip_cr(line).len() >= 6 && strip_cr(line).subrange(0, 6) == data_prefix() {
                assert(strip_cr(line).subrange(0, 6)[0] == 'd');
                assert(strip_cr(line).subrange(0, 6)[1] == 'a');
                assert(strip_cr(line).subrange(0, 6)[2] == 't');
                assert(strip_cr(line).subrange(0, 6)[3] == 'a');
                assert(strip_cr(line).subrange(0, 6)[4] == ':');
                assert(strip_cr(line).subrange(0, 6)[5] == ' ');
            }
        }
        assert(string_views(out@) =~= string_views(old(out)@) + line_payload(line));
    }
}

/// The payloads of the lines in `[a, b)` of `s`.
fn payloads_between(s: &Vec<char>, a: usize, b: usize, out: &mut Vec<String>)
    requires
        a <= b <= s@.len(),
    ensures
        string_views(final(out)@) == string_views(old(out)@) + payloads_in(s@, a as int, b as int),
{
    let ghost o0 = string_views(out@);
    let mut k: usize = a;
    assert(string_views(out@) =~= o0 + Seq::empty());
    while k < b
        invariant
            a <= k <= b <= s@.len(),
            payloads_in(s@, a as int, b as int) == string_views(out@).subrange(o0.len() as int, string_views(out@).len() as int) + payloads_in(s@, k as int, b as int),
            string_views(out@).subrange(0, o0.len() as int) == o0,
            string_views(out@).len() >= o0.len(),
        decreases b - k,
    {
        let ghost before = string_views(out@);
        let mut e = k;
        while e < b && s[e] != '\n'
            invariant
                k <= e <= b <= s@.len(),
                newline_from(s@, k as int, b as int) == newline_from(s@, e as int, b as int),
            decreases b - e,
        {
            e = e + 1;
        }
        line_payload_into(s, k, e, out);
        let ghost added = line_payload(s@.subrange(k as int, e as int));
        assert(string_views(out@) == before + added);
        if e < b {
            k = e + 1;
        } else {
            k = b;
        }
        assert(string_views(out@).subrange(o0.len() as int, string_views(out@).len() as int) =~= before.subrange(o0.len() as int, before.len() as int) + added);
        assert(string_views(out@).subrange(0, o0.len() as int) =~= before.subrange(0, o0.len() as int));
    }
    assert(string_views(out@).subrange(o0.len() as int, string_views(out@).len() as int) + Seq::empty() =~= string_views(out@).subrange(o0.len() as int, string_views(out@).len() as int));
    assert(string_views(out@) =~= o0 + string_views(out@).subrange(o0.len() as int, string_views(out@).len() as int));
}

/// Splits the upstream stream into `data:` payloads. A frame ends at the first
/// blank line; bytes after the last complete frame wait for more.
pub struct SseDecoder {
    buffer: Vec<char>,
}

impl View for SseDecoder {
    type V = Seq<char>;

    closed spec fn view(&self) -> Seq<char> {
        self.buffer@
    }
}

impl SseDecoder {
    pub fn new() -> (r: SseDecoder)
        ensures
            r@ == Seq::<char>::empty(),
    {
        SseDecoder { buffer: Vec::new() }
    }

    /// Adds text from the stream; returns the payloads of the frames that it
    /// completes, in order, and keeps what follows the last of them.
    pub fn push(&mut self, chunk: &str) -> (r: Vec<String>)
        ensures
            string_views(r@) == frames_from(old(self)@ + chunk@, 0).0,
            final(self)@ == (old(self)@ + chunk@).subrange(
                frames_from(old(self)@ + chunk@, 0).1,
                (old(self)@ + chunk@).len() as int,
            ),
    {
        let cs = chars_of(chunk);
        let mut k: usize = 0;
        let ghost b0 = self.buffer@;
        while k < cs.len()
            invariant
                k <= cs@.len(),
                cs@ == chunk@,
                self.buffer@ == b0 + cs@.subrange(0, k as int),
            decreases cs@.len() - k,
        {
            self.buffer.push(cs[k]);
            k = k + 1;
            assert(self.buffer@ =~= b0 + cs@.subrange(0, k as int));
        }
        assert(cs@.subrange(0, cs@.len() as int) =~= cs@);
        let ghost all = self.buffer@;
        let mut out: Vec<String> = Vec::new();
        let mut start: usize = 0;
        assert(string_views(out@) =~= Seq::empty());
        loop
            invariant
                all == self.buffer@,
                start <= all.len(),
                frames_from(all, 0) == (string_views(out@) + frames_from(all, start as int).0, frames_from(all, start as int).1),
            ensures
                start <= all.len(),
                all == self.buffer@,
                frames_from(all, 0) == (string_views(out@) + frames_from(all, start as int).0, frames_from(all, start as int).1),
                frames_from(all, start as int) == (Seq::<Seq<char>>::empty(), start as int),
            decreases all.len() - start,
        {
            let n = self.buffer.len();
            let mut j = start;
            while j < n && j + 1 < n && !(self.buffer[j] == '\n' && self.buffer[j + 1] == '\n')
                invariant
                    start <= j <= n,
                    n == all.len(),
                    all == self.buffer@,
                    blank_from(all, start as int) == blank_from(all, j as int),
                decreases n - j,
            {
                j = j + 1;
            }
            let found = j < n && j + 1 < n;
            if !found {
                assert(blank_from(all, j as int) is None);
                assert(frames_from(all, start as int) == (Seq::<Seq<char>>::empty(), start as int));
                break;
            }
            assert(blank_from(all, j as int) == Some(j as int));
            assert(frames_from(all, start as int) == (
                payloads_in(all, start as int, j as int) + frames_from(all, j as int + 2).0,
                frames_from(all, j as int + 2).1,
            ));
            let ghost before = string_views(out@);
            payloads_between(&self.buffer, start, j, &mut out);
            assert(string_views(out@) + frames_from(all, j as int + 2).0 =~= before + frames_from(all, start as int).0);
            start = j + 2;
        }
        let mut rest: Vec<char> = Vec::new();
        let mut k: usize = start;
        let n = self.buffer.len();
        while k < n
            invariant
                start <= k <= n,
                n == all.len(),
                all == self.buffer@,
                rest@ == all.subrange(start as int, k as int),
            decreases n - k,
        {
            rest.push(self.buffer[k]);
            k = k + 1;
            assert(rest@ =~= all.subrange(start as int, k as int));
        }
        assert(string_views(out@) + Seq::empty() =~= string_views(out@));
        self.buffer = rest;
        out
    }

    /// At the end of the stream: the payloads of the lines still held.
    pub fn flush(&mut self) -> (r: Vec<String>)
        ensures
            string_views(r@) == payloads_in(old(self)@, 0, old(self)@.len() as int),
            final(self)@ == Seq::<char>::empty(),
    {
        let mut out: Vec<String> = Vec::new();
        assert(string_views(out@) =~= Seq::empty());
        let n = self.buffer.len();
        payloads_between(&self.buffer, 0, n, &mut out);
        assert(Seq::<Seq<char>>::empty() + payloads_in(self.buffer@, 0, n as int) =~= payloads_in(self.buffer@, 0, n as int));
        self.buffer = Vec::new();
        out
    }
}

pub open spec fn trim_start_ws(s: Seq<char>) -> Seq<char>
    decreases s.len(),
{
    if s.len() > 0 && is_white_space(s[0]) {
        trim_start_ws(s.drop_first())
    } else {
        s
    }
}

pub open spec fn trim_end_ws(s: Seq<char>) -> Seq<char>
    decreases s.len(),
{
    if s.len() > 0 && is_white_space(s.last()) {
        trim_end_ws(s.drop_last())
    } else {
        s
    }
}

/// Whether a payload is the end marker `[DONE]`, ignoring surrounding whitespace.
pub open spec fn is_done_text(s: Seq<char>) -> bool {
    trim_end_ws(trim_start_ws(s)) == "[DONE]"@
}

/// Whether a payload is the end marker `[DONE]`, ignoring surrounding whitespace.
pub fn is_done_marker(data: &str) -> (r: bool)
    ensures
        r == is_done_text(data@),
{
    proof {
        reveal_strlit("[DONE]");
    }
    let cs = chars_of(data);
    let n = cs.len();
    let mut a: usize = 0;
    assert(cs@.subrange(0, n as int) =~= cs@);
    while a < n && is_white_space_char(cs[a])
        invariant
            a <= n,
            n == cs@.len(),
            trim_start_ws(cs@) == trim_start_ws(cs@.subrange(a as int, n as int)),
        decreases n - a,
    {
        assert(cs@.subrange(a as int, n as int).drop_first() =~= cs@.subrange(a as int + 1, n as int));
        a = a + 1;
    }
    let mut b: usize = n;
    while b > a && is_white_space_char(cs[b - 1])
        invariant
            a <= b <= n,
            n == cs@.len(),
            trim_end_ws(cs@.subrange(a as int, n as int)) == trim_end_ws(cs@.subrange(a as int, b as int)),
        decreases b - a,
    {
        assert(cs@.subrange(a as int, b as int).drop_last() =~= cs@.subrange(a as int, b as int - 1));
        b = b - 1;
    }
    let ghost t = cs@.subrange(a as int, b as int);
    assert(trim_end_ws(trim_start_ws(cs@)) == t);
    if b - a != 6 {
        return false;
    }
    let r = cs[a] == '[' && cs[a + 1] == 'D' && cs[a + 2] == 'O' && cs[a + 3] == 'N' && cs[a + 4] == 'E'
        && cs[a + 5] == ']';
    if r {
        assert(t =~= "[DONE]"@);
    } else {
        assert(t != "[DONE]"@) by {
            if t == "[DONE]"@ {
                assert(t[0] == '[' && t[1] == 'D' && t[2] == 'O' && t[3] == 'N' && t[4] == 'E' && t[5] == ']');
            }
        }
    }
    r
}

/// What a `data:` payload is, given the JSON document that its text reads as,
/// if it reads as one.
pub open spec fn classified(data: Seq<char>, document: Option<Json>) -> Payload {
    if is_done_text(data) {
        Payload::Done
    } else {
        match document {
            Some(d) => Payload::Document(d),
            None => Payload::Malformed,
        }
    }
}

impl Payload {
    /// Reads a `data:` payload: the end marker, a JSON document (`document` is
    /// the text read as JSON, where it reads as JSON), or a malformed payload.
    pub fn classify(data: &str, document: Option<Json>) -> (r: Payload)
        ensures
            r == classified(data@, document),
    {
        if is_done_marker(data) {
            Payload::Done
        } else {
            match document {
                Some(d) => Payload::Document(d),
                None => Payload::Malformed,
            }
        }
    }
}

} // verus!
