use vstd::prelude::*;

verus! {

/// The blank line that ends an HTTP head: `\r\n\r\n`.
pub open spec fn head_delimiter() -> Seq<u8> {
    seq![13u8, 10u8, 13u8, 10u8]
}

/// One step of the matcher: the count of delimiter bytes matched so far
/// grows when `byte` is the next delimiter byte and drops to zero otherwise.
/// Once the whole delimiter has been matched the count stays there.
pub open spec fn match_step(matched: nat, byte: u8) -> nat {
    if matched >= 4 {
        matched
    } else if byte == head_delimiter()[matched as int] {
        matched + 1
    } else {
        0
    }
}

/// The count of matched delimiter bytes after reading `bytes`, starting from `matched`.
pub open spec fn match_run(matched: nat, bytes: Seq<u8>) -> nat
    decreases bytes.len(),
{
    if bytes.len() == 0 {
        matched
    } else {
        match_step(match_run(matched, bytes.drop_last()), bytes.last())
    }
}

/// What the skipper asks of the reader after a read.
pub enum SkipStep {
    /// The read gave no bytes: the stream has ended before the head did.
    EndOfStream,
    /// The head goes on; read more.
    Continue,
    /// The head ended after the first `consumed` bytes of this read.
    Done { consumed: usize },
}

/// Skips an HTTP head, read by read, up to and including its blank line.
pub struct HeaderSkipper {
    matched: usize,
}

impl HeaderSkipper {
    /// The number of delimiter bytes matched at the end of what was read so far.
    pub closed spec fn matched(&self) -> nat {
        self.matched as nat
    }

    pub open spec fn wf(&self) -> bool {
        self.matched() < 4
    }

    pub fn new() -> (s: HeaderSkipper)
        ensures
            s.wf(),
            s.matched() == 0,
    {
        HeaderSkipper { matched: 0 }
    }

    /// Takes the bytes of one read.
    pub fn feed(&mut self, chunk: &[u8]) -> (step: SkipStep)
        requires
            old(self).wf(),
        ensures
            final(self).wf(),
            chunk@.len() == 0 ==> step is EndOfStream && final(self).matched() == old(self).matched(),
            chunk@.len() > 0 && match_run(old(self).matched(), chunk@) < 4 ==> step is Continue
                && final(self).matched() == match_run(old(self).matched(), chunk@),
            chunk@.len() > 0 && match_run(old(self).matched(), chunk@) == 4 ==> (step matches SkipStep::Done { consumed } && {
                &&& 0 < consumed <= chunk@.len()
                &&& match_run(old(self).matched(), chunk@.take(consumed as int)) == 4
                &&& match_run(old(self).matched(), chunk@.take(consumed - 1)) < 4
            }) && final(self).matched() == 0,
    {
        if chunk.len() == 0 {
            return SkipStep::EndOfStream;
        }
        let n = chunk.len();
        let mut i: usize = 0;
        let mut matched = self.matched;
        while i < n
            invariant
                n == chunk@.len(),
                i <= n,
                matched < 4,
                matched == match_run(old(self).matched(), chunk@.take(i as int)),
                self.matched == old(self).matched,
            decreases n - i,
        {
            let byte = chunk[i];
            let expected: u8 = if matched == 0 || matched == 2 { 13 } else { 10 };
            assert(chunk@.take(i + 1).drop_last() =~= chunk@.take(i as int));
            if byte == expected {
                matched = matched + 1;
            } else {
                matched = 0;
            }
            i = i + 1;
            if matched == 4 {
                proof { lemma_run_stays_done(old(self).matched(), chunk@, i as nat); }
                self.matched = 0;
                return SkipStep::Done { consumed: i };
            }
        }
        assert(chunk@.take(n as int) =~= chunk@);
        self.matched = matched;
        SkipStep::Continue
    }
}

/// Once the delimiter is matched, reading more bytes leaves it matched.
proof fn lemma_run_stays_done(matched: nat, bytes: Seq<u8>, k: nat)
    requires
        k <= bytes.len(),
        match_run(matched, bytes.take(k as int)) == 4,
    ensures
        match_run(matched, bytes) == 4,
    decreases bytes.len() - k,
{
    if k < bytes.len() {
        assert(bytes.take((k + 1) as int).drop_last() =~= bytes.take(k as int));
        lemma_run_stays_done(matched, bytes, k + 1);
    } else {
        assert(bytes.take(k as int) =~= bytes);
    }
}

/// Reading a stream in two reads leaves the matcher where one read of the
/// whole would: where the head ends does not depend on how the stream is split.
pub proof fn lemma_match_run_split(matched: nat, first: Seq<u8>, second: Seq<u8>)
    ensures
        match_run(matched, first + second) == match_run(match_run(matched, first), second),
    decreases second.len(),
{
    if second.len() == 0 {
        assert(first + second =~= first);
    } else {
        assert((first + second).drop_last() =~= first + second.drop_last());
        lemma_match_run_split(matched, first, second.drop_last());
    }
}

/// While the delimiter is not fully matched, the last `j` bytes read are the
/// first `j` delimiter bytes, where `j` is the matched count.
proof fn lemma_partial_match_is_tail(bytes: Seq<u8>)
    requires
        match_run(0, bytes) < 4,
    ensures
        match_run(0, bytes) <= bytes.len(),
        bytes.skip(bytes.len() - match_run(0, bytes)) == head_delimiter().take(
            match_run(0, bytes) as int,
        ),
    decreases bytes.len(),
{
    let j = match_run(0, bytes);
    if bytes.len() == 0 {
        assert(bytes.skip(0) =~= head_delimiter().take(0));
    } else {
        let prev = bytes.drop_last();
        let i = match_run(0, prev);
        if i >= 4 {
            assert(j == i);
        } else {
            lemma_partial_match_is_tail(prev);
            if j == 0 {
                assert(bytes.skip(bytes.len() as int) =~= head_delimiter().take(0));
            } else {
                assert(j == i + 1);
                assert(bytes.skip(bytes.len() - j) =~= prev.skip(prev.len() - i).push(
                    bytes.last(),
                ));
                assert(head_delimiter().take(j as int) =~= head_delimiter().take(i as int).push(
                    head_delimiter()[i as int],
                ));
            }
        }
    }
}

/// The head ends right after a blank line: when the skipper, started afresh,
/// first reaches the end of the head after `k` bytes of the stream, those
/// bytes end with `\r\n\r\n`.
pub proof fn lemma_head_ends_with_blank_line(stream: Seq<u8>, k: nat)
    requires
        0 < k <= stream.len(),
        match_run(0, stream.take(k as int)) == 4,
        match_run(0, stream.take(k - 1)) < 4,
    ensures
        k >= 4,
        stream.subrange(k - 4, k as int) == head_delimiter(),
{
    let prev = stream.take(k - 1);
    assert(stream.take(k as int).drop_last() =~= prev);
    lemma_partial_match_is_tail(prev);
    let i = match_run(0, prev);
    assert(i == 3);
    assert(stream.subrange(k - 4, k as int) =~= prev.skip(prev.len() - 3).push(
        stream[k - 1],
    ));
    assert(head_delimiter() =~= head_delimiter().take(3).push(head_delimiter()[3]));
}

} // verus!
