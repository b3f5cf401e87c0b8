//! Message bodies as lazy chunk sources.
//!
//! A body yields its content as a sequence of byte chunks, pulled one at a
//! time, and may end with one terminal error instead of running dry. The
//! boxed body erases a concrete source into a stored queue of chunks.

use vstd::prelude::*;

verus! {

/// Bounds on the number of payload bytes a body will still yield.
#[derive(Clone, Copy, Debug)]
pub struct SizeHint {
    pub lower: u64,
    pub upper: Option<u64>,
}

impl SizeHint {
    /// A hint that promises exactly `n` bytes.
    pub fn with_exact(n: u64) -> (r: SizeHint)
        ensures
            r.lower == n,
            r.upper == Some(n),
    {
        SizeHint { lower: n, upper: Some(n) }
    }
}

impl Default for SizeHint {
    /// The vacuous hint: no bytes promised, no bound given.
    fn default() -> (r: SizeHint)
        ensures
            r.lower == 0,
            r.upper is None,
    {
        SizeHint { lower: 0, upper: None }
    }
}

/// The number of bytes in a sequence of chunks.
pub open spec fn total_bytes(chunks: Seq<Seq<u8>>) -> nat
    decreases chunks.len(),
{
    if chunks.len() == 0 {
        0
    } else {
        chunks[0].len() + total_bytes(chunks.drop_first())
    }
}

/// Whether a size hint is sound for a body that will still yield `chunks`.
pub open spec fn size_hint_ok(hint: SizeHint, chunks: Seq<Seq<u8>>) -> bool {
    &&& hint.lower <= total_bytes(chunks)
    &&& (hint.upper matches Some(u) ==> total_bytes(chunks) <= u)
}

/// A source of byte chunks, pulled until it runs dry or fails once.
pub trait Body: Sized {
    /// The chunks this body will still yield, in order.
    spec fn chunks(&self) -> Seq<Seq<u8>>;

    /// The terminal error this body will report after its chunks, if any.
    spec fn failure(&self) -> Option<Seq<u8>>;

    /// Pulls the next chunk: the first pending chunk, then the terminal
    /// error if one is pending, then nothing.
    fn poll_next(&mut self) -> (r: Option<Result<Vec<u8>, Vec<u8>>>)
        ensures
            old(self).chunks().len() > 0 ==> {
                &&& r matches Some(Ok(c)) && c@ == old(self).chunks()[0]
                &&& final(self).chunks() == old(self).chunks().drop_first()
                &&& final(self).failure() == old(self).failure()
            },
            (old(self).chunks().len() == 0 && old(self).failure() is Some) ==> {
                &&& r matches Some(Err(e)) && old(self).failure() matches Some(m) && e@ == m
                &&& final(self).chunks().len() == 0
                &&& final(self).failure() is None
            },
            old(self).chunks().len() == 0 && old(self).failure() is None ==> {
                &&& r is None
                &&& final(self).chunks().len() == 0
                &&& final(self).failure() is None
            },
    ;

    /// Bounds on the bytes still pending.
    fn size_hint(&self) -> (r: SizeHint)
        ensures
            size_hint_ok(r, self.chunks()),
    ;
}

impl Body for () {
    /// The empty body yields nothing.
    open spec fn chunks(&self) -> Seq<Seq<u8>> {
        Seq::empty()
    }

    open spec fn failure(&self) -> Option<Seq<u8>> {
        None
    }

    fn poll_next(&mut self) -> (r: Option<Result<Vec<u8>, Vec<u8>>>) {
        None
    }

    fn size_hint(&self) -> (r: SizeHint) {
        SizeHint::with_exact(0)
    }
}

impl Body for Vec<u8> {
    /// A byte vector yields its whole content as one chunk, then is empty.
    open spec fn chunks(&self) -> Seq<Seq<u8>> {
        if self@.len() == 0 {
            Seq::empty()
        } else {
            seq![self@]
        }
    }

    open spec fn failure(&self) -> Option<Seq<u8>> {
        None
    }

    fn poll_next(&mut self) -> (r: Option<Result<Vec<u8>, Vec<u8>>>) {
        if self.len() == 0 {
            None
        } else {
            let out = self.split_off(0);
            proof {
                assert(out@ =~= old(self)@);
                assert(self@ =~= Seq::<u8>::empty());
                assert(final(self).chunks() =~= old(self).chunks().drop_first());
            }
            Some(Ok(out))
        }
    }

    fn size_hint(&self) -> (r: SizeHint) {
        let n = self.len();
        proof {
            if self@.len() > 0 {
                assert(self.chunks().drop_first() =~= Seq::<Seq<u8>>::empty());
                assert(self.chunks()[0] == self@);
                assert(total_bytes(Seq::<Seq<u8>>::empty()) == 0);
                assert(total_bytes(self.chunks()) == self@.len());
            } else {
                assert(total_bytes(self.chunks()) == 0);
            }
        }
        SizeHint::with_exact(n as u64)
    }
}

/// A body whose concrete source has been erased: a stored queue of chunks
/// and at most one terminal error.
#[derive(Debug)]
pub struct BoxBody {
    chunks: Vec<Vec<u8>>,
    err: Option<Vec<u8>>,
}

impl Body for BoxBody {
    closed spec fn chunks(&self) -> Seq<Seq<u8>> {
        self.chunks.deep_view()
    }

    closed spec fn failure(&self) -> Option<Seq<u8>> {
        self.err.deep_view()
    }

    fn poll_next(&mut self) -> (r: Option<Result<Vec<u8>, Vec<u8>>>) {
        if self.chunks.len() > 0 {
            let c = self.chunks.remove(0);
            proof {
                assert(final(self).chunks() =~~= old(self).chunks().drop_first());
            }
            Some(Ok(c))
        } else {
            match self.err.take() {
                Some(m) => Some(Err(m)),
                None => None,
            }
        }
    }

    #[verifier::loop_isolation(false)]
    fn size_hint(&self) -> (r: SizeHint) {
        let mut total: u64 = 0;
        let mut exact = true;
        let mut i: usize = 0;
        proof {
            lemma_total_bytes_take(self.chunks.deep_view(), 0);
        }
        while i < self.chunks.len()
            invariant
                i <= self.chunks.len(),
                exact ==> total == total_bytes(self.chunks.deep_view().take(i as int)),
                !exact ==> total <= total_bytes(self.chunks.deep_view().take(i as int)),
            decreases self.chunks.len() - i,
        {
            proof {
                lemma_total_bytes_take(self.chunks.deep_view(), i as int);
            }
            let n = self.chunks[i].len() as u64;
            if total <= u64::MAX - n {
                total = total + n;
            } else {
                exact = false;
            }
            i += 1;
        }
        proof {
            assert(self.chunks.deep_view().take(i as int) =~~= self.chunks.deep_view());
        }
        if exact {
            SizeHint::with_exact(total)
        } else {
            SizeHint { lower: total, upper: None }
        }
    }
}

/// Appending one chunk adds its length to the total.
proof fn lemma_total_bytes_take(chunks: Seq<Seq<u8>>, i: int)
    requires
        0 <= i < chunks.len() || i == 0,
    ensures
        i < chunks.len() ==> total_bytes(chunks.take(i + 1)) == total_bytes(chunks.take(i))
            + chunks[i].len(),
        total_bytes(chunks.take(0)) == 0,
    decreases i,
{
    assert(chunks.take(0) =~= Seq::<Seq<u8>>::empty());
    if 0 < i < chunks.len() {
        lemma_total_bytes_take(chunks.drop_first(), i - 1);
        assert(chunks.take(i + 1).drop_first() =~= chunks.drop_first().take(i));
        assert(chunks.take(i).drop_first() =~= chunks.drop_first().take(i - 1));
        lemma_total_bytes_take(chunks.drop_first(), i - 1);
        assert(chunks.drop_first()[i - 1] == chunks[i]);
    } else if i == 0 && chunks.len() > 0 {
        assert(chunks.take(1).drop_first() =~= Seq::<Seq<u8>>::empty());
        assert(chunks.take(1)[0] == chunks[0]);
    }
}

impl BoxBody {
    /// Erases `body` behind the uniform boxed shape: pulls every pending
    /// chunk and the terminal error, if one is pending, and stores them.
    pub fn new<B: Body>(body: B) -> (r: BoxBody)
        ensures
            r.chunks() == body.chunks(),
            r.failure() == body.failure(),
    {
        let mut body = body;
        let ghost orig_chunks = body.chunks();
        let ghost orig_failure = body.failure();
        let mut chunks: Vec<Vec<u8>> = Vec::new();
        let mut err: Option<Vec<u8>> = None;
        let mut done = false;
        proof {
            assert(chunks.deep_view() =~~= body.chunks().take(0));
        }
        while !done
            invariant
                !done ==> err is None && chunks.deep_view() + body.chunks() == orig_chunks
                    && body.failure() == orig_failure,
                done ==> chunks.deep_view() == orig_chunks && body.chunks().len() == 0
                    && body.failure() is None && err.deep_view() == orig_failure,
            decreases body.chunks().len() + (if body.failure() is Some {
                1int
            } else {
                0int
            }) + (if done {
                0int
            } else {
                1int
            }),
        {
            let ghost prev = body.chunks();
            match body.poll_next() {
                Some(Ok(c)) => {
                    chunks.push(c);
                    proof {
                        assert(chunks.deep_view() + body.chunks() =~~= chunks.deep_view().drop_last()
                            + prev);
                    }
                },
                Some(Err(m)) => {
                    err = Some(m);
                    done = true;
                    proof {
                        assert(chunks.deep_view() =~~= chunks.deep_view() + body.chunks());
                    }
                },
                None => {
                    done = true;
                    proof {
                        assert(chunks.deep_view() =~~= chunks.deep_view() + body.chunks());
                    }
                },
            }
        }
        let r = BoxBody { chunks, err };
        proof {
            assert(r.chunks() =~~= orig_chunks);
        }
        r
    }

    /// An empty body with no terminal error.
    pub fn empty() -> (r: BoxBody)
        ensures
            r.chunks() == Seq::<Seq<u8>>::empty(),
            r.failure() is None,
    {
        let r = BoxBody { chunks: Vec::new(), err: None };
        proof {
            assert(r.chunks() =~~= Seq::<Seq<u8>>::empty());
        }
        r
    }

    /// A body that fails at once with the given message.
    pub fn failing(message: Vec<u8>) -> (r: BoxBody)
        ensures
            r.chunks() == Seq::<Seq<u8>>::empty(),
            r.failure() == Some(message@),
    {
        let r = BoxBody { chunks: Vec::new(), err: Some(message) };
        proof {
            assert(r.chunks() =~~= Seq::<Seq<u8>>::empty());
        }
        r
    }

    /// Pulls every pending chunk into one flat byte string; fails with the
    /// terminal error if the body ends in one.
    #[verifier::loop_isolation(false)]
    pub fn collect_bytes(&mut self) -> (r: Result<Vec<u8>, Vec<u8>>)
        ensures
            final(self).chunks().len() == 0 && final(self).failure() is None,
            old(self).failure() is None ==> (r matches Ok(b) && b@ == flatten_chunks(
                old(self).chunks(),
            )),
            old(self).failure() matches Some(m) ==> (r matches Err(e) && e@ == m),
    {
        let mut out: Vec<u8> = Vec::new();
        loop
            invariant
                out@ + flatten_chunks(self.chunks()) == flatten_chunks(old(self).chunks()),
                self.failure() == old(self).failure(),
            decreases self.chunks().len() + (if self.failure() is Some {
                1int
            } else {
                0int
            }),
        {
            let ghost prev = self.chunks();
            match self.poll_next() {
                Some(Ok(mut c)) => {
                    proof {
                        assert(flatten_chunks(prev) == prev[0] + flatten_chunks(prev.drop_first()));
                    }
                    out.append(&mut c);
                },
                Some(Err(m)) => {
                    return Err(m);
                },
                None => {
                    proof {
                        assert(flatten_chunks(self.chunks()) =~= Seq::<u8>::empty());
                        assert(out@ =~= flatten_chunks(old(self).chunks()));
                    }
                    return Ok(out);
                },
            }
        }
    }
}

/// The concatenation of a sequence of chunks.
pub open spec fn flatten_chunks(chunks: Seq<Seq<u8>>) -> Seq<u8>
    decreases chunks.len(),
{
    if chunks.len() == 0 {
        Seq::empty()
    } else {
        chunks[0] + flatten_chunks(chunks.drop_first())
    }
}

impl Default for BoxBody {
    /// The default boxed body is empty.
    fn default() -> (r: BoxBody)
        ensures
            r.chunks() == Seq::<Seq<u8>>::empty(),
            r.failure() is None,
    {
        BoxBody::empty()
    }
}

} // verus!
