//! Fetching one file from a list of mirrors: the mirrors are tried in their order,
//! and the first that delivers the content that was asked for is taken.
use crate::error::Error;
use crate::text::same_text;
use vstd::prelude::*;

verus! {

/// What the trial of one mirror gave.
#[derive(Debug, Clone, PartialEq, Eq)]
pub enum Attempt {
    /// The transfer failed.
    Failed,
    /// Content came; `sha1` is its digest.
    Received { sha1: String },
}

/// Whether what a mirror gave is taken: content came, and it has the digest that is
/// expected, where one is expected.
pub open spec fn acceptable(attempt: Attempt, expected: Option<String>) -> bool {
    &&& attempt is Received
    &&& expected is Some ==> attempt->sha1@ == expected->0@
}

/// Whether what a mirror gave is taken.
pub fn accepts(attempt: &Attempt, expected_hash: &Option<String>) -> (b: bool)
    ensures
        b == acceptable(*attempt, *expected_hash),
{
    match attempt {
        Attempt::Failed => false,
        Attempt::Received { sha1 } => match expected_hash {
            Some(hash) => same_text(sha1.as_str(), hash.as_str()),
            None => true,
        },
    }
}

/// Whether `attempts[i]` is the first that is taken.
pub open spec fn is_first_acceptable(
    attempts: Seq<Attempt>,
    expected: Option<String>,
    i: int,
) -> bool {
    &&& 0 <= i < attempts.len()
    &&& acceptable(attempts[i], expected)
    &&& forall|j: int| 0 <= j < i ==> !acceptable(#[trigger] attempts[j], expected)
}

/// Whether none of the first `n` attempts is taken.
pub open spec fn none_acceptable(attempts: Seq<Attempt>, expected: Option<String>, n: int) -> bool {
    forall|j: int| 0 <= j < n ==> !acceptable(#[trigger] attempts[j], expected)
}

/// The mirror whose content is taken, given what each mirror gave: the first whose
/// attempt is acceptable. Where none is, the fetch is exhausted.
pub fn select_mirror(attempts: &Vec<Attempt>, expected_hash: &Option<String>) -> (r: Result<
    usize,
    Error,
>)
    ensures
        match r {
            Ok(i) => is_first_acceptable(attempts@, *expected_hash, i as int),
            Err(e) => none_acceptable(attempts@, *expected_hash, attempts.len() as int) && e
                == Error::FetchExhausted,
        },
{
    let mut i: usize = 0;
    while i < attempts.len()
        invariant
            i <= attempts.len(),
            none_acceptable(attempts@, *expected_hash, i as int),
        decreases attempts.len() - i,
    {
        if accepts(&attempts[i], expected_hash) {
            return Ok(i);
        }
        i += 1;
    }
    Err(Error::FetchExhausted)
}

/// How far the fetch of one file has come.
#[derive(Debug, Clone, Copy, PartialEq, Eq, Structural)]
pub struct MirrorFetch {
    /// The number of mirrors.
    pub candidates: usize,
    /// The number of mirrors that were tried in vain.
    pub tried: usize,
    /// The mirror whose content was taken.
    pub accepted: Option<usize>,
}

/// What the fetch of one file does next.
#[derive(Debug, Clone, Copy, PartialEq, Eq, Structural)]
pub enum FetchStep {
    /// Try this mirror.
    Try(usize),
    /// The content of this mirror is the file.
    Done(usize),
    /// Every mirror was tried in vain: the fetch fails.
    Exhausted,
}

impl MirrorFetch {
    /// The state after the trial of the next mirror gave `attempt`. A fetch that has
    /// ended stays as it is.
    pub open spec fn recorded(self, attempt: Attempt, expected: Option<String>) -> MirrorFetch {
        if self.accepted is Some || self.tried >= self.candidates {
            self
        } else if acceptable(attempt, expected) {
            MirrorFetch { accepted: Some(self.tried), ..self }
        } else {
            MirrorFetch { tried: (self.tried + 1) as usize, ..self }
        }
    }

    /// What is done next.
    pub open spec fn next_step(self) -> FetchStep {
        if self.accepted is Some {
            FetchStep::Done(self.accepted->0)
        } else if self.tried < self.candidates {
            FetchStep::Try(self.tried)
        } else {
            FetchStep::Exhausted
        }
    }

    /// The fetch from `candidates` mirrors, before any was tried.
    pub fn new(candidates: usize) -> (f: MirrorFetch)
        ensures
            f == (MirrorFetch { candidates, tried: 0, accepted: None }),
    {
        MirrorFetch { candidates, tried: 0, accepted: None }
    }

    /// What is done next.
    pub fn step(&self) -> (s: FetchStep)
        ensures
            s == self.next_step(),
    {
        match self.accepted {
            Some(i) => FetchStep::Done(i),
            None => if self.tried < self.candidates {
                FetchStep::Try(self.tried)
            } else {
                FetchStep::Exhausted
            },
        }
    }

    /// Takes note of what the trial of the next mirror gave.
    pub fn record(&mut self, attempt: &Attempt, expected_hash: &Option<String>)
        ensures
            *final(self) == old(self).recorded(*attempt, *expected_hash),
    {
        if self.accepted.is_some() || self.tried >= self.candidates {
            return ;
        }
        if accepts(attempt, expected_hash) {
            self.accepted = Some(self.tried);
        } else {
            self.tried = self.tried + 1;
        }
    }

    /// The end of the fetch: the mirror that was taken, or the failure.
    pub fn finish(&self) -> (r: Option<Result<usize, Error>>)
        ensures
            match self.next_step() {
                FetchStep::Done(i) => r == Some(Ok::<usize, Error>(i)),
                FetchStep::Exhausted => r == Some(Err::<usize, Error>(Error::FetchExhausted)),
                FetchStep::Try(_) => r is None,
            },
    {
        match self.step() {
            FetchStep::Done(i) => Some(Ok(i)),
            FetchStep::Exhausted => Some(Err(Error::FetchExhausted)),
            FetchStep::Try(_) => None,
        }
    }
}

/// The state of a fetch after the first `n` mirrors were tried, one after the other,
/// as far as the fetch went on.
pub open spec fn after_attempts(
    attempts: Seq<Attempt>,
    expected: Option<String>,
    n: int,
) -> MirrorFetch
    decreases n,
{
    if n <= 0 {
        MirrorFetch { candidates: attempts.len() as usize, tried: 0, accepted: None }
    } else {
        let before = after_attempts(attempts, expected, n - 1);
        match before.next_step() {
            FetchStep::Try(i) => before.recorded(attempts[i as int], expected),
            _ => before,
        }
    }
}

/// A fetch that tries its mirrors in order ends at the first mirror whose content is
/// taken, and is exhausted only when no mirror's content is: after `n` trials it has
/// taken the first acceptable among the first `n` mirrors, or has tried `n` in vain.
pub proof fn lemma_fetch_takes_first(attempts: Seq<Attempt>, expected: Option<String>, n: int)
    requires
        0 <= n <= attempts.len() <= usize::MAX,
    ensures
        after_attempts(attempts, expected, n).candidates == attempts.len(),
        none_acceptable(attempts, expected, n) ==> after_attempts(attempts, expected, n)
            == (MirrorFetch {
            candidates: attempts.len() as usize,
            tried: n as usize,
            accepted: None,
        }),
        forall|i: int|
            0 <= i < n && is_first_acceptable(attempts, expected, i) ==> after_attempts(
                attempts,
                expected,
                n,
            ).next_step() == FetchStep::Done(i as usize),
        n == attempts.len() && none_acceptable(attempts, expected, n) ==> after_attempts(
            attempts,
            expected,
            n,
        ).next_step() == FetchStep::Exhausted,
    decreases n,
{
    if n > 0 {
        lemma_fetch_takes_first(attempts, expected, n - 1);
        let before = after_attempts(attempts, expected, n - 1);
        let here = after_attempts(attempts, expected, n);
        assert forall|i: int|
            0 <= i < n && is_first_acceptable(attempts, expected, i) implies here.next_step()
            == FetchStep::Done(i as usize) by {
            if i == n - 1 {
                assert(none_acceptable(attempts, expected, n - 1));
            }
        }
        if none_acceptable(attempts, expected, n) {
            assert(none_acceptable(attempts, expected, n - 1));
            assert(!acceptable(attempts[n - 1], expected));
        }
    }
}

} // verus!
