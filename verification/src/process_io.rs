//! Keeps a bounded sample of a child process's output, and cuts it into lines.
use vstd::prelude::*;
use vstd::utf8::{decode_utf8, valid_utf8};

use crate::octets::{push_all, push_range};
use crate::session_config::address_views;
use crate::text::{lossy, lossy_text};

verus! {

/// How much output is kept.
pub const ERROR_OUTPUT_SAMPLE_LIMIT: usize = 1024;

/// As much of `s` as is kept.
pub open spec fn sampled(s: Seq<u8>) -> Seq<u8> {
    if s.len() <= 1024 {
        s
    } else {
        s.subrange(0, 1024)
    }
}

/// `output` with as much of `input` as still fits.
pub open spec fn appended(output: Seq<u8>, input: Seq<u8>) -> Seq<u8> {
    if output.len() >= 1024 {
        output
    } else {
        sampled(output + input)
    }
}

/// Appends as much as still fits the sample.
pub fn append_limited(output: &mut Vec<u8>, input: &[u8])
    ensures
        final(output)@ == appended(old(output)@, input@),
{
    let remaining: usize = ERROR_OUTPUT_SAMPLE_LIMIT.saturating_sub(output.len());
    if remaining > 0 {
        let taken: usize = if input.len() < remaining { input.len() } else { remaining };
        push_range(output, input, 0, taken);
        assert(output@ =~= appended(old(output)@, input@));
    }
}

/// A sample never outgrows its limit, and what it holds stays.
pub proof fn law_sample_is_bounded(output: Seq<u8>, input: Seq<u8>)
    requires
        output.len() <= 1024,
    ensures
        appended(output, input).len() <= 1024,
        output.is_prefix_of(appended(output, input)),
{
    assert(output =~= appended(output, input).subrange(0, output.len() as int));
}

/// Sampling chunk by chunk keeps what sampling the whole would.
pub proof fn law_chunks_do_not_matter(output: Seq<u8>, a: Seq<u8>, b: Seq<u8>)
    ensures
        appended(appended(output, a), b) == appended(output, a + b),
{
    assert(appended(appended(output, a), b) =~= appended(output, a + b));
}

/// Where the first line break stands.
pub open spec fn break_at(chunk: Seq<u8>) -> int
    decreases chunk.len(),
{
    if chunk.len() == 0 || chunk[0] == 10 {
        0
    } else {
        1 + break_at(chunk.subrange(1, chunk.len() as int))
    }
}

/// One line's octets without a carriage return at their end.
pub open spec fn unreturned(line: Seq<u8>) -> Seq<u8> {
    if line.len() > 0 && line.last() == 13 {
        line.drop_last()
    } else {
        line
    }
}

/// The lines that a chunk ends, `current` being what came before it, and what is left of the last.
pub open spec fn lines_of(current: Seq<u8>, chunk: Seq<u8>) -> (Seq<Seq<u8>>, Seq<u8>)
    decreases chunk.len(),
{
    let at = break_at(chunk);
    if 0 <= at < chunk.len() {
        let line = unreturned(appended(current, chunk.subrange(0, at)));
        let rest = lines_of(Seq::empty(), chunk.subrange(at + 1, chunk.len() as int));
        (seq![line] + rest.0, rest.1)
    } else {
        (Seq::empty(), appended(current, chunk))
    }
}

proof fn lemma_break(chunk: Seq<u8>, from: int, at: int)
    requires
        0 <= from <= at <= chunk.len(),
        forall|i: int| from <= i < at ==> chunk[i] != 10,
        at < chunk.len() ==> chunk[at] == 10,
    ensures
        break_at(chunk.subrange(from, chunk.len() as int)) == at - from,
    decreases at - from,
{
    let rest = chunk.subrange(from, chunk.len() as int);
    if from < at {
        assert(rest[0] == chunk[from]);
        lemma_break(chunk, from + 1, at);
        assert(rest.subrange(1, rest.len() as int) =~= chunk.subrange(from + 1, chunk.len() as int));
    } else if at < chunk.len() {
        assert(rest[0] == chunk[at]);
    }
}

proof fn lemma_broken(chunk: Seq<u8>)
    ensures
        0 <= break_at(chunk) <= chunk.len(),
        forall|i: int| 0 <= i < break_at(chunk) ==> chunk[i] != 10,
        break_at(chunk) < chunk.len() ==> chunk[break_at(chunk)] == 10,
    decreases chunk.len(),
{
    if chunk.len() > 0 && chunk[0] != 10 {
        let rest = chunk.subrange(1, chunk.len() as int);
        lemma_broken(rest);
        assert forall|i: int| 0 <= i < break_at(chunk) implies chunk[i] != 10 by {
            if i > 0 {
                assert(rest[i - 1] == chunk[i]);
            }
        }
    }
}

/// Output is cut into the same lines, with the same rest, in however many chunks it comes.
pub proof fn law_lines_do_not_depend_on_chunks(current: Seq<u8>, a: Seq<u8>, b: Seq<u8>)
    ensures
        lines_of(current, a + b) == (
            lines_of(current, a).0 + lines_of(lines_of(current, a).1, b).0,
            lines_of(lines_of(current, a).1, b).1,
        ),
    decreases a.len(),
{
    let whole = a + b;
    let at = break_at(a);
    lemma_broken(a);
    assert(whole.subrange(0, whole.len() as int) =~= whole);
    if at < a.len() {
        assert(whole[at] == a[at]);
        assert forall|i: int| 0 <= i < at implies whole[i] != 10 by {
            assert(whole[i] == a[i]);
        }
        lemma_break(whole, 0, at);
        let after = a.subrange(at + 1, a.len() as int);
        assert(whole.subrange(0, at) =~= a.subrange(0, at));
        assert(whole.subrange(at + 1, whole.len() as int) =~= after + b);
        law_lines_do_not_depend_on_chunks(Seq::empty(), after, b);
        let line = unreturned(appended(current, a.subrange(0, at)));
        let rest = lines_of(Seq::empty(), after);
        let later = lines_of(rest.1, b);
        assert(seq![line] + (rest.0 + later.0) =~= (seq![line] + rest.0) + later.0);
    } else {
        let next = break_at(b);
        lemma_broken(b);
        let upto = a.len() + next;
        assert forall|i: int| 0 <= i < upto implies whole[i] != 10 by {
            if i < a.len() {
                assert(whole[i] == a[i]);
            } else {
                assert(whole[i] == b[i - a.len()]);
            }
        }
        if next < b.len() {
            assert(whole[upto] == b[next]);
        }
        lemma_break(whole, 0, upto);
        let held = appended(current, a);
        if next < b.len() {
            assert(whole.subrange(0, upto) =~= a + b.subrange(0, next));
            law_chunks_do_not_matter(current, a, b.subrange(0, next));
            assert(whole.subrange(upto + 1, whole.len() as int) =~= b.subrange(next + 1, b.len() as int));
        } else {
            law_chunks_do_not_matter(current, a, b);
        }
        assert(lines_of(current, a) == (Seq::<Seq<u8>>::empty(), held));
        assert(Seq::<Seq<u8>>::empty() + lines_of(held, b).0 =~= lines_of(held, b).0);
    }
}

/// Cuts output into lines, each no longer than the sample.
pub struct LineSampler {
    current: Vec<u8>,
}

impl LineSampler {
    /// What has come of the line that is not ended.
    pub closed spec fn pending(&self) -> Seq<u8> {
        self.current@
    }

    /// A sampler that has seen nothing.
    pub fn new() -> (r: Self)
        ensures
            r.pending() == Seq::<u8>::empty(),
    {
        LineSampler { current: Vec::new() }
    }

    /// Takes one chunk of output, answering the lines that it ended.
    pub fn feed(&mut self, chunk: &[u8]) -> (r: Vec<Vec<u8>>)
        ensures
            address_views(r@) == lines_of(old(self).pending(), chunk@).0,
            final(self).pending() == lines_of(old(self).pending(), chunk@).1,
    {
        let mut lines: Vec<Vec<u8>> = Vec::new();
        let mut from: usize = 0;
        let mut at: usize = 0;
        let ghost whole = lines_of(self.current@, chunk@);
        proof {
            assert(chunk@.subrange(0, chunk@.len() as int) =~= chunk@);
            assert(address_views(lines@) + whole.0 =~= whole.0);
        }
        while at < chunk.len()
            invariant
                from <= at <= chunk@.len(),
                forall|i: int| from <= i < at ==> chunk@[i] != 10,
                ({
                    let rest = lines_of(self.current@, chunk@.subrange(from as int, chunk@.len() as int));
                    address_views(lines@) + rest.0 == whole.0 && rest.1 == whole.1
                }),
            decreases chunk@.len() - at,
        {
            if chunk[at] == 10 {
                let ghost before = self.current@;
                let ghost left = chunk@.subrange(from as int, chunk@.len() as int);
                proof {
                    lemma_break(chunk@, from as int, at as int);
                    assert(left.subrange(0, at - from) =~= chunk@.subrange(from as int, at as int));
                    assert(left.subrange(at - from + 1, left.len() as int) =~= chunk@.subrange(
                        at + 1,
                        chunk@.len() as int,
                    ));
                }
                append_limited(&mut self.current, vstd::slice::slice_subrange(chunk, from, at));
                let length: usize = self.current.len();
                if length > 0 && self.current[length - 1] == 13 {
                    self.current.truncate(length - 1);
                    assert(self.current@ =~= unreturned(
                        appended(before, chunk@.subrange(from as int, at as int)),
                    ));
                }
                let mut line: Vec<u8> = Vec::new();
                push_all(&mut line, self.current.as_slice());
                proof {
                    assert(line@ =~= unreturned(appended(before, chunk@.subrange(from as int, at as int))));
                    let rest = lines_of(Seq::empty(), chunk@.subrange(at + 1, chunk@.len() as int));
                    assert(address_views(lines@.push(line)) =~= address_views(lines@).push(line@));
                    assert(address_views(lines@).push(line@) + rest.0 =~= address_views(lines@) + (seq![
                        line@,
                    ] + rest.0));
                }
                lines.push(line);
                self.current.clear();
                at += 1;
                from = at;
            } else {
                at += 1;
            }
        }
        proof {
            lemma_break(chunk@, from as int, at as int);
        }
        append_limited(&mut self.current, vstd::slice::slice_subrange(chunk, from, chunk.len()));
        assert(address_views(lines@) =~= whole.0);
        lines
    }

    /// The unended line, where there is one, at the end of the output.
    pub fn finish(self) -> (r: Option<Vec<u8>>)
        ensures
            match r {
                Some(line) => line@ == self.pending() && line@.len() > 0,
                None => self.pending().len() == 0,
            },
    {
        if self.current.len() == 0 {
            None
        } else {
            Some(self.current)
        }
    }
}

/// One line as text.
pub fn line_text(line: &[u8]) -> (r: String)
    ensures
        r@ == lossy_text(line@),
        valid_utf8(line@) ==> r@ == decode_utf8(line@),
{
    lossy(line)
}

/// The first 1024 octets of an output are kept, and all of them where there are no more.
pub proof fn law_the_first_octets_are_kept(s: Seq<u8>)
    ensures
        sampled(s).len() <= 1024,
        s.len() <= 1024 ==> sampled(s) == s,
        s.len() > 1024 ==> sampled(s).len() == 1024,
        forall|i: int| 0 <= i < sampled(s).len() ==> #[trigger] sampled(s)[i] == s[i],
        appended(Seq::empty(), s) == sampled(s),
{
    assert(Seq::<u8>::empty() + s =~= s);
}

/// An output is told line by line: each line ends at a line break, which is not part of it, and neither is a return
/// before it. What follows the last break waits.
pub proof fn law_an_output_is_told_line_by_line(current: Seq<u8>, line: Seq<u8>, rest: Seq<u8>)
    requires
        forall|i: int| 0 <= i < line.len() ==> #[trigger] line[i] != 10,
        current.len() + line.len() <= 1024,
    ensures
        lines_of(current, line) == (Seq::<Seq<u8>>::empty(), current + line),
        lines_of(current, line + seq![10u8] + rest).0.len() == 1 + lines_of(Seq::empty(), rest).0.len(),
        lines_of(current, line + seq![10u8] + rest).1 == lines_of(Seq::empty(), rest).1,
        ({
            let told = lines_of(current, line + seq![10u8] + rest).0[0];
            let whole = current + line;
            &&& whole.len() == 0 || whole.last() != 13 ==> told == whole
            &&& whole.len() > 0 && whole.last() == 13 ==> told == whole.subrange(0, whole.len() - 1)
        }),
{
    lemma_broken(line);
    if break_at(line) < line.len() {
        assert(line[break_at(line)] == 10);
    }
    assert(line.subrange(0, line.len() as int) =~= line);
    let chunk = line + seq![10u8] + rest;
    let n = line.len() as int;
    assert forall|i: int| 0 <= i < n implies chunk[i] != 10 by {
        assert(chunk[i] == line[i]);
    }
    assert(chunk[n] == 10);
    assert(chunk.subrange(0, chunk.len() as int) =~= chunk);
    lemma_break(chunk, 0, n);
    assert(chunk.subrange(0, n) =~= line);
    assert(chunk.subrange(n + 1, chunk.len() as int) =~= rest);
    let whole = current + line;
    assert(appended(current, line) =~= whole);
    if whole.len() > 0 && whole.last() == 13 {
        assert(whole.drop_last() =~= whole.subrange(0, whole.len() - 1));
    }
}

} // verus!
