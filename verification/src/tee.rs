//! The line tee and the output sink: a byte stream is split into
//! newline-terminated lines, every line is rewritten under a
//! directory-derived prefix, and the rewritten lines are appended to one of
//! the sink's two channels as indivisible units.

use vstd::prelude::*;
use vstd::slice::slice_subrange;

verus! {

/// The byte that ends a line.
pub const NEWLINE: u8 = 0x0A;

/// The path separator stripped from the end of a directory prefix.
pub const SEPARATOR: u8 = 0x2F;

/// Strip every trailing occurrence of `v` from a byte sequence.
pub open spec fn trimmed(s: Seq<u8>, v: u8) -> Seq<u8>
    decreases s.len(),
{
    if s.len() > 0 && s.last() == v {
        trimmed(s.drop_last(), v)
    } else {
        s
    }
}

/// Strip every trailing occurrence of `v` from a byte slice.
pub fn trim_end<'a>(s: &'a [u8], v: u8) -> (r: &'a [u8])
    ensures
        r@ == trimmed(s@, v),
{
    let mut end: usize = s.len();
    proof {
        assert(s@.subrange(0, end as int) =~= s@);
    }
    while end > 0 && s[end - 1] == v
        invariant
            end <= s@.len(),
            trimmed(s@, v) == trimmed(s@.subrange(0, end as int), v),
        decreases end,
    {
        proof {
            assert(s@.subrange(0, end as int).drop_last() =~= s@.subrange(0, end - 1));
        }
        end = end - 1;
    }
    proof {
        assert(s@.subrange(0, end as int) =~= trimmed(s@.subrange(0, end as int), v));
    }
    slice_subrange(s, 0, end)
}

/// Law: a trailing separator never changes the normalized prefix — a
/// directory given with or without its trailing separator renders the
/// same.
pub proof fn lemma_trim_strips_trailing(s: Seq<u8>, v: u8)
    ensures
        trimmed(s.push(v), v) == trimmed(s, v),
{
    assert(s.push(v).drop_last() =~= s);
}

/// Law: the normalized prefix never ends in the separator, so normalizing
/// it again changes nothing.
pub proof fn lemma_trimmed_no_trailing(s: Seq<u8>, v: u8)
    ensures
        trimmed(s, v).len() > 0 ==> trimmed(s, v).last() != v,
        trimmed(trimmed(s, v), v) == trimmed(s, v),
    decreases s.len(),
{
    if s.len() > 0 && s.last() == v {
        lemma_trimmed_no_trailing(s.drop_last(), v);
    }
}

/// The separator written between the prefix and the payload: a colon and a
/// space.
pub open spec fn prefix_sep() -> Seq<u8> {
    seq![(':' as u8), (' ' as u8)]
}

/// One forwarded line: the prefix with trailing path separators stripped,
/// the separator, then the payload unchanged.
pub open spec fn line_for(prefix: Seq<u8>, payload: Seq<u8>) -> Seq<u8> {
    trimmed(prefix, SEPARATOR) + prefix_sep() + payload
}

/// Build one forwarded line from a directory prefix and a payload.
pub fn render_line(prefix: &[u8], payload: &[u8]) -> (r: Vec<u8>)
    ensures
        r@ == line_for(prefix@, payload@),
{
    let head = trim_end(prefix, SEPARATOR);
    let mut v: Vec<u8> = Vec::new();
    v.extend_from_slice(head);
    v.push(':' as u8);
    v.push(' ' as u8);
    v.extend_from_slice(payload);
    proof {
        assert(v@ =~= line_for(prefix@, payload@));
    }
    v
}

/// A complete line: it ends with a newline and holds no earlier newline.
pub open spec fn is_complete_line(l: Seq<u8>) -> bool {
    &&& l.len() > 0
    &&& l.last() == NEWLINE
    &&& forall|i: int| 0 <= i < l.len() - 1 ==> l[i] != NEWLINE
}

/// An incremental line splitter. Bytes fed to it come back out as complete
/// lines; a trailing fragment without a newline is held back until its
/// newline arrives, and is dropped at end of stream rather than flushed.
pub struct Tee {
    /// Bytes read since the last complete line.
    pub pending: Vec<u8>,
}

impl Tee {
    /// The held-back fragment never contains a newline.
    pub open spec fn wf(self) -> bool {
        !self.pending@.contains(NEWLINE)
    }

    pub fn new() -> (t: Tee)
        ensures
            t.wf(),
            t.pending@ == Seq::<u8>::empty(),
    {
        Tee { pending: Vec::new() }
    }

    /// Feed a chunk of bytes; every line completed by it comes back, in
    /// stream order, and the rest is held for the next chunk. Nothing is
    /// lost and nothing is reordered: the returned lines followed by the
    /// new fragment are exactly the old fragment followed by the chunk.
    pub fn feed(&mut self, chunk: &[u8]) -> (lines: Vec<Vec<u8>>)
        requires
            old(self).wf(),
        ensures
            final(self).wf(),
            lines@.map_values(|l: Vec<u8>| l@).flatten() + final(self).pending@ == old(
                self,
            ).pending@ + chunk@,
            forall|i: int| 0 <= i < lines@.len() ==> is_complete_line(#[trigger] lines@[i]@),
    {
        broadcast use vstd::seq_lib::group_seq_lib_default;

        let mut lines: Vec<Vec<u8>> = Vec::new();
        let mut i: usize = 0;
        proof {
            assert(lines@.map_values(|l: Vec<u8>| l@).flatten() =~= Seq::<u8>::empty());
            assert(chunk@.subrange(0, 0) =~= Seq::<u8>::empty());
        }
        while i < chunk.len()
            invariant
                i <= chunk@.len(),
                self.wf(),
                lines@.map_values(|l: Vec<u8>| l@).flatten() + self.pending@ == old(
                    self,
                ).pending@ + chunk@.subrange(0, i as int),
                forall|j: int| 0 <= j < lines@.len() ==> is_complete_line(#[trigger] lines@[j]@),
            decreases chunk@.len() - i,
        {
            let b = chunk[i];
            let ghost prev_flat = lines@.map_values(|l: Vec<u8>| l@).flatten();
            let ghost pend_before = self.pending@;
            self.pending.push(b);
            if b == NEWLINE {
                let ghost prev_lines = lines@;
                let ghost line = self.pending@;
                let full = self.pending.split_off(0);
                lines.push(full);
                proof {
                    assert(full@ =~= line);
                    assert(is_complete_line(line));
                    assert(lines@.map_values(|l: Vec<u8>| l@) =~= prev_lines.map_values(
                        |l: Vec<u8>| l@,
                    ).push(line));
                    assert(lines@.map_values(|l: Vec<u8>| l@).flatten() == prev_flat + line) by {
                        prev_lines.map_values(|l: Vec<u8>| l@).lemma_flatten_push(line);
                    }
                    assert(self.pending@ =~= Seq::<u8>::empty());
                    assert((prev_flat + line) + Seq::<u8>::empty() =~= prev_flat + line);
                }
            }
            i = i + 1;
            proof {
                assert(chunk@.subrange(0, i as int) =~= chunk@.subrange(0, i - 1).push(
                    chunk@[i - 1],
                ));
                assert(prev_flat + pend_before.push(b) =~= (prev_flat + pend_before).push(b));
                assert((old(self).pending@ + chunk@.subrange(0, i - 1)).push(chunk@[i - 1]) =~= old(
                    self,
                ).pending@ + chunk@.subrange(0, i as int));
                assert(lines@.map_values(|l: Vec<u8>| l@).flatten() + self.pending@ == old(
                    self,
                ).pending@ + chunk@.subrange(0, i as int));
            }
        }
        proof {
            assert(chunk@.subrange(0, i as int) =~= chunk@);
        }
        lines
    }
}

/// Law: a byte stream splits only one way into complete lines followed by
/// a newline-free remainder, so the splitter's contract pins its output
/// completely.
pub proof fn lemma_line_split_unique(a: Seq<Seq<u8>>, ra: Seq<u8>, b: Seq<Seq<u8>>, rb: Seq<u8>)
    requires
        a.flatten() + ra == b.flatten() + rb,
        forall|i: int| 0 <= i < a.len() ==> is_complete_line(#[trigger] a[i]),
        forall|i: int| 0 <= i < b.len() ==> is_complete_line(#[trigger] b[i]),
        !ra.contains(NEWLINE),
        !rb.contains(NEWLINE),
    ensures
        a == b,
        ra == rb,
    decreases a.len(),
{
    if a.len() == 0 && b.len() == 0 {
        assert(a =~= b);
        assert(ra =~= rb);
    } else if a.len() == 0 {
        let l = b[0];
        assert(b.flatten() == l + b.drop_first().flatten());
        assert(ra[l.len() - 1] == l.last());
        assert(ra.contains(NEWLINE));
    } else if b.len() == 0 {
        let l = a[0];
        assert(a.flatten() == l + a.drop_first().flatten());
        assert(rb[l.len() - 1] == l.last());
        assert(rb.contains(NEWLINE));
    } else {
        let s = a.flatten() + ra;
        let la = a[0].len() as int;
        let lb = b[0].len() as int;
        assert(a.flatten() == a[0] + a.drop_first().flatten());
        assert(b.flatten() == b[0] + b.drop_first().flatten());
        assert(forall|i: int| 0 <= i < la ==> s[i] == a[0][i]);
        assert(forall|i: int| 0 <= i < lb ==> s[i] == b[0][i]);
        assert(la == lb) by {
            if la < lb {
                assert(s[la - 1] == a[0].last());
                assert(s[la - 1] == b[0][la - 1]);
            } else if lb < la {
                assert(s[lb - 1] == b[0].last());
                assert(s[lb - 1] == a[0][lb - 1]);
            }
        }
        assert forall|i: int| 0 <= i < la implies a[0][i] == b[0][i] by {
            assert(s[i] == a[0][i]);
            assert(s[i] == b[0][i]);
        }
        assert(a[0] =~= b[0]);
        let ta = a.drop_first();
        let tb = b.drop_first();
        assert(ta.flatten().len() + ra.len() == s.len() - la);
        assert(tb.flatten().len() + rb.len() == s.len() - la);
        assert forall|i: int| 0 <= i < s.len() - la implies (ta.flatten() + ra)[i] == (tb.flatten()
            + rb)[i] by {
            assert((ta.flatten() + ra)[i] == s[la + i]);
            assert((tb.flatten() + rb)[i] == s[la + i]);
        }
        assert(ta.flatten() + ra =~= tb.flatten() + rb);
        assert(forall|i: int| 0 <= i < ta.len() ==> #[trigger] ta[i] == a[i + 1]);
        assert(forall|i: int| 0 <= i < tb.len() ==> #[trigger] tb[i] == b[i + 1]);
        lemma_line_split_unique(ta, ra, tb, rb);
        assert(a =~= b) by {
            assert(forall|i: int| 1 <= i < a.len() ==> a[i] == ta[i - 1] && ta[i - 1] == tb[i - 1]
                && #[trigger] b[i] == tb[i - 1]);
        }
    }
}

/// Which of the two real output streams a line is bound for.
#[derive(Clone, Copy, PartialEq, Eq, Debug)]
pub enum Channel {
    Output,
    Error,
}

/// A model of the process-wide output sink: two channels, each a flat byte
/// log, to which one whole line is appended at a time. Appending the
/// rendered line as one unit is what keeps lines from distinct jobs from
/// interleaving inside one another.
pub struct Sink {
    /// Everything written to the standard-output channel, in order.
    pub out: Vec<u8>,
    /// Everything written to the standard-error channel, in order.
    pub err: Vec<u8>,
}

impl Sink {
    pub fn new() -> (s: Sink)
        ensures
            s.out@ == Seq::<u8>::empty(),
            s.err@ == Seq::<u8>::empty(),
    {
        Sink { out: Vec::new(), err: Vec::new() }
    }

    /// Append one prefixed line to the chosen channel; the other channel is
    /// untouched.
    pub fn write_line(&mut self, channel: Channel, prefix: &[u8], payload: &[u8])
        ensures
            channel is Output ==> final(self).out@ == old(self).out@ + line_for(prefix@, payload@)
                && final(self).err@ == old(self).err@,
            channel is Error ==> final(self).err@ == old(self).err@ + line_for(prefix@, payload@)
                && final(self).out@ == old(self).out@,
    {
        let line = render_line(prefix, payload);
        match channel {
            Channel::Output => self.out.extend_from_slice(line.as_slice()),
            Channel::Error => self.err.extend_from_slice(line.as_slice()),
        }
    }
}

} // verus!
