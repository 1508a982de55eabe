//! Minimal Server-Sent-Events reading shared by the streaming clients:
//! the body arrives in chunks of bytes, is cut into lines, and only the
//! `data:` payload lines matter (event names, comments and blank
//! keep-alives are ignored).

use vstd::prelude::*;
use crate::text::{chars_of, trim_front, has_prefix, has_prefix_exec, string_of, slice_chars, is_ws, is_whitespace};

verus! {

/// Index of the first byte `x` in `b`, or the length of `b` when there is none.
pub open spec fn index_of_byte(b: Seq<u8>, x: u8) -> nat
    decreases b.len(),
{
    if b.len() == 0 {
        0
    } else if b[0] == x {
        0
    } else {
        1 + index_of_byte(b.drop_first(), x)
    }
}

/// The complete lines of `b` (each with its `\n`), in order.
pub open spec fn complete_lines(b: Seq<u8>) -> Seq<Seq<u8>>
    decreases b.len(),
{
    let i = index_of_byte(b, 10) as int;
    if i < b.len() {
        seq![b.take(i + 1)] + complete_lines(b.skip(i + 1))
    } else {
        seq![]
    }
}

/// What follows the last `\n` of `b` (all of `b` when it has none).
pub open spec fn unfinished_line(b: Seq<u8>) -> Seq<u8>
    decreases b.len(),
{
    let i = index_of_byte(b, 10) as int;
    if i < b.len() {
        unfinished_line(b.skip(i + 1))
    } else {
        b
    }
}

proof fn lemma_index_of_byte(s: Seq<u8>, x: u8, k: int)
    requires
        0 <= k <= s.len(),
        forall|j: int| 0 <= j < k ==> s[j] != x,
        k == s.len() || s[k] == x,
    ensures
        index_of_byte(s, x) == k,
    decreases k,
{
    if k > 0 {
        lemma_index_of_byte(s.drop_first(), x, k - 1);
    }
}

proof fn lemma_index_of_byte_bound(s: Seq<u8>, x: u8)
    ensures
        index_of_byte(s, x) <= s.len(),
        index_of_byte(s, x) < s.len() ==> s[index_of_byte(s, x) as int] == x,
        forall|j: int| 0 <= j < index_of_byte(s, x) ==> s[j] != x,
    decreases s.len(),
{
    if s.len() > 0 && s[0] != x {
        lemma_index_of_byte_bound(s.drop_first(), x);
        assert forall|j: int| 0 <= j < index_of_byte(s, x) implies s[j] != x by {
            if j > 0 {
                assert(s[j] == s.drop_first()[j - 1]);
            }
        }
    }
}

/// Reading `x` then `y` gives the lines of `x`, then those of what `x`
/// left unfinished followed by `y`; and the same unfinished rest.
pub proof fn lemma_lines_split(x: Seq<u8>, y: Seq<u8>)
    ensures
        complete_lines(x + y) == complete_lines(x) + complete_lines(unfinished_line(x) + y),
        unfinished_line(x + y) == unfinished_line(unfinished_line(x) + y),
    decreases x.len(),
{
    lemma_index_of_byte_bound(x, 10);
    let i = index_of_byte(x, 10) as int;
    if i < x.len() {
        lemma_index_of_byte(x + y, 10, i as int);
        assert((x + y).take(i + 1) =~= x.take(i + 1));
        assert((x + y).skip(i + 1) =~= x.skip(i + 1) + y);
        lemma_lines_split(x.skip(i + 1), y);
        assert(complete_lines(x) == seq![x.take(i + 1)] + complete_lines(x.skip(i + 1)));
        assert(seq![x.take(i + 1)] + (complete_lines(x.skip(i + 1)) + complete_lines(
            unfinished_line(x.skip(i + 1)) + y,
        )) =~= seq![x.take(i + 1)] + complete_lines(x.skip(i + 1)) + complete_lines(
            unfinished_line(x.skip(i + 1)) + y,
        ));
    } else {
        assert(complete_lines(x) =~= Seq::<Seq<u8>>::empty());
        assert(complete_lines(x) + complete_lines(x + y) =~= complete_lines(x + y));
    }
}

/// The lines seen when the body arrives as `a` then `b` are those seen
/// when it arrives in one piece: chunking does not change what is read.
pub proof fn law_chunking_invariant(pending: Seq<u8>, a: Seq<u8>, b: Seq<u8>)
    ensures
        complete_lines(pending + a) + complete_lines(unfinished_line(pending + a) + b)
            == complete_lines(pending + a + b),
        unfinished_line(unfinished_line(pending + a) + b) == unfinished_line(pending + a + b),
{
    lemma_lines_split(pending + a, b);
}

/// The bytes of a streamed body not yet ended by a newline.
pub struct SseBuffer {
    buf: Vec<u8>,
}

impl SseBuffer {
    /// The pending bytes.
    pub closed spec fn pending(&self) -> Seq<u8> {
        self.buf@
    }

    /// An empty buffer.
    pub fn new() -> (s: SseBuffer)
        ensures
            s.pending() == Seq::<u8>::empty(),
    {
        SseBuffer { buf: Vec::new() }
    }

    /// Appends a chunk and takes out every line it completes.
    pub fn push(&mut self, chunk: &[u8]) -> (lines: Vec<Vec<u8>>)
        ensures
            lines@.len() == complete_lines(old(self).pending() + chunk@).len(),
            forall|k: int| 0 <= k < lines@.len() ==> #[trigger] lines@[k]@ == complete_lines(
                old(self).pending() + chunk@,
            )[k],
            final(self).pending() == unfinished_line(old(self).pending() + chunk@),
    {
        let ghost all = self.buf@ + chunk@;
        let mut data: Vec<u8> = Vec::new();
        std::mem::swap(&mut data, &mut self.buf);
        let mut k: usize = 0;
        while k < chunk.len()
            invariant
                k <= chunk.len(),
                all == old(self).buf@ + chunk@,
                data@ == all.take(old(self).buf@.len() + k),
            decreases chunk.len() - k,
        {
            data.push(chunk[k]);
            k += 1;
        }
        assert(data@ =~= all);
        let ghost lines_spec: Seq<Seq<u8>> = Seq::empty();
        let mut lines: Vec<Vec<u8>> = Vec::new();
        let mut start: usize = 0;
        let mut i: usize = 0;
        assert(all.skip(0) =~= all);
        while i < data.len()
            invariant
                data@ == all,
                start <= i <= data.len(),
                forall|j: int| start <= j < i ==> all[j] != 10,
                complete_lines(all) == lines_spec + complete_lines(all.skip(start as int)),
                unfinished_line(all) == unfinished_line(all.skip(start as int)),
                lines@.len() == lines_spec.len(),
                forall|q: int| 0 <= q < lines@.len() ==> #[trigger] lines@[q]@ == lines_spec[q],
            decreases data.len() - i,
        {
            if data[i] == 10 {
                let ghost rest = all.skip(start as int);
                proof {
                    assert forall|j: int| 0 <= j < i - start implies rest[j] != 10 by {
                        assert(rest[j] == all[start + j]);
                    }
                    lemma_index_of_byte(rest, 10, i - start);
                    assert(rest.take(i - start + 1) =~= all.subrange(start as int, i + 1));
                    assert(rest.skip(i - start + 1) =~= all.skip(i + 1));
                }
                let mut line: Vec<u8> = Vec::new();
                let mut j = start;
                while j <= i
                    invariant
                        data@ == all,
                        start <= j <= i + 1,
                        i < data.len(),
                        line@ == all.subrange(start as int, j as int),
                    decreases i + 1 - j,
                {
                    line.push(data[j]);
                    j += 1;
                }
                proof {
                    lines_spec = lines_spec.push(all.subrange(start as int, i + 1));
                    assert(lines_spec + complete_lines(all.skip(i + 1)) =~= lines_spec.drop_last()
                        + (seq![all.subrange(start as int, i + 1)] + complete_lines(all.skip(i + 1))));
                }
                lines.push(line);
                start = i + 1;
            }
            i += 1;
        }
        proof {
            let rest = all.skip(start as int);
            assert forall|j: int| 0 <= j < rest.len() implies rest[j] != 10 by {
                assert(rest[j] == all[start + j]);
            }
            lemma_index_of_byte(rest, 10, rest.len() as int);
            assert(lines_spec + complete_lines(rest) =~= lines_spec);
        }
        let mut rest: Vec<u8> = Vec::new();
        let mut j = start;
        while j < data.len()
            invariant
                data@ == all,
                start <= j <= data.len(),
                rest@ == all.subrange(start as int, j as int),
            decreases data.len() - j,
        {
            rest.push(data[j]);
            j += 1;
        }
        assert(rest@ =~= all.skip(start as int));
        self.buf = rest;
        lines
    }

    /// The bytes left when the body ended, unless there are none.
    pub fn finish(self) -> (r: Option<Vec<u8>>)
        ensures
            self.pending().len() == 0 ==> r is None,
            self.pending().len() > 0 ==> (r matches Some(b) && b@ == self.pending()),
    {
        if self.buf.len() == 0 {
            None
        } else {
            Some(self.buf)
        }
    }
}

/// The text of a line's bytes with invalid UTF-8 replaced.
pub uninterp spec fn lossy_utf8(b: Seq<u8>) -> Seq<char>;

/// Calls `String::from_utf8_lossy`, which decodes `bytes` as UTF-8 and
/// replaces each invalid sequence with U+FFFD; valid UTF-8 decodes as is.
#[verifier::external_body]
fn decode_lossy(bytes: &[u8]) -> (r: String)
    ensures
        r@ == lossy_utf8(bytes@),
        vstd::utf8::valid_utf8(bytes@) ==> r@ == vstd::utf8::decode_utf8(bytes@),
{
    String::from_utf8_lossy(bytes).into_owned()
}

/// `s` without its trailing `\r` and `\n` characters.
pub open spec fn trim_line_end(s: Seq<char>) -> Seq<char>
    decreases s.len(),
{
    if s.len() > 0 && (s.last() == '\r' || s.last() == '\n') {
        trim_line_end(s.drop_last())
    } else {
        s
    }
}

/// The payload of a `data:` line (line ending dropped, leading white space
/// trimmed); `None` for other lines, empty payloads and `[DONE]`.
pub open spec fn data_payload_spec(line: Seq<char>) -> Option<Seq<char>> {
    let l = trim_line_end(line);
    if has_prefix(l, "data:"@) {
        let d = trim_front(l.skip("data:"@.len() as int));
        if d.len() > 0 && d != "[DONE]"@ {
            Some(d)
        } else {
            None
        }
    } else {
        None
    }
}

/// The payload of one line of text (see [`data_payload_spec`]).
pub fn data_payload(line: &str) -> (r: Option<String>)
    ensures
        match r {
            Some(d) => data_payload_spec(line@) == Some(d@),
            None => data_payload_spec(line@) is None,
        },
{
    let v = chars_of(line);
    let mut n = v.len();
    assert(v@.take(n as int) =~= v@);
    while n > 0 && (v[n - 1] == '\r' || v[n - 1] == '\n')
        invariant
            n <= v.len(),
            trim_line_end(v@) == trim_line_end(v@.take(n as int)),
        decreases n,
    {
        assert(v@.take(n as int).drop_last() =~= v@.take(n - 1));
        n -= 1;
    }
    let l = slice_chars(&v, 0, n);
    assert(l@ =~= v@.take(n as int));
    let prefix = chars_of("data:");
    if !has_prefix_exec(&l, &prefix) {
        return None;
    }
    let mut a = prefix.len();
    let ghost after = l@.skip(prefix@.len() as int);
    assert(after.skip(0) =~= after);
    while a < l.len() && is_whitespace(l[a])
        invariant
            prefix.len() <= a <= l.len(),
            after == l@.skip(prefix@.len() as int),
            trim_front(after) == trim_front(l@.skip(a as int)),
        decreases l.len() - a,
    {
        assert(l@.skip(a as int).drop_first() =~= l@.skip(a + 1));
        a += 1;
    }
    let d = slice_chars(&l, a, l.len());
    assert(d@ =~= l@.skip(a as int));
    proof {
        if a < l.len() {
            assert(d@[0] == l@[a as int]);
        }
    }
    if d.len() == 0 {
        return None;
    }
    if crate::models::chars_eq(&d, "[DONE]") {
        return None;
    }
    Some(string_of(&d))
}

/// The payload of a line of the body, from its bytes.
pub fn line_payload(line: &[u8]) -> (r: Option<String>)
    ensures
        match r {
            Some(d) => data_payload_spec(lossy_utf8(line@)) == Some(d@),
            None => data_payload_spec(lossy_utf8(line@)) is None,
        },
{
    let text = decode_lossy(line);
    data_payload(text.as_str())
}

} // verus!
