//! [`Signal`]: a lazy stream of hardware samples in a clock domain,
//! and [`Reset`]: a boolean signal used as a reset line.

use vstd::prelude::*;
use vstd::pervasive::cloned;
use core::marker::PhantomData;
use std::sync::Arc;

use comp_cat_rs::effect::io::Io;
use comp_cat_rs::effect::stream::Stream;

use crate::error::Error;
use crate::hw::Hw;
use crate::signal::domain::ClockDomain;

verus! {

/// Declares `comp_cat_rs`'s lazy stream type.
#[verifier::external_type_specification]
#[verifier::external_body]
#[verifier::reject_recursive_types(E)]
#[verifier::reject_recursive_types(A)]
pub struct ExStream<E, A>(Stream<E, A>);

/// `comp_cat_rs::effect::stream::Stream::from_vec`: a stream yielding
/// `items` in order.  The stream is opaque here, so nothing is stated
/// of it.
#[verifier::external_body]
fn stream_from_vec<T: Send + 'static>(items: Vec<T>) -> Stream<Error, T> {
    Stream::from_vec(items)
}

/// `comp_cat_rs::effect::stream::Stream::empty`: a stream yielding
/// nothing.  Nothing is stated of the opaque stream.
#[verifier::external_body]
fn stream_empty<T: Send + 'static>() -> Stream<Error, T> {
    Stream::empty()
}

/// `comp_cat_rs::effect::stream::Stream::map` with `f` shared behind an
/// `Arc`: applies `f` to each sample.  Nothing is stated of the opaque
/// stream.
#[verifier::external_body]
fn stream_map<T: Send + 'static, U: Send + 'static, F: Fn(T) -> U + Send + Sync + 'static>(
    s: Stream<Error, T>,
    f: F,
) -> Stream<Error, U> {
    s.map(Arc::new(f))
}

/// `comp_cat_rs::effect::stream::Stream::take`: at most the first `n`
/// samples.  Nothing is stated of the opaque stream.
#[verifier::external_body]
fn stream_take<T: Send + 'static>(s: Stream<Error, T>, n: usize) -> Stream<Error, T> {
    s.take(n)
}

/// `comp_cat_rs::effect::stream::Stream::concat`: the samples of `a`,
/// then those of `b`.  Nothing is stated of the opaque stream.
#[verifier::external_body]
fn stream_concat<T: Send + 'static>(a: Stream<Error, T>, b: Stream<Error, T>) -> Stream<Error, T> {
    a.concat(b)
}

/// `comp_cat_rs::effect::stream::Stream::collect`: an effect that pulls
/// every sample into a `Vec`.  The effect is opaque here, so nothing is
/// stated of it.
#[verifier::external_body]
fn stream_collect<T: Send + 'static>(s: Stream<Error, T>) -> Io<Error, Vec<T>> {
    s.collect()
}

/// `n` clones of `value`.
pub fn repeat_clone<T: Clone>(value: &T, n: usize) -> (r: Vec<T>)
    ensures
        r@.len() == n,
        forall|i: int| 0 <= i < n ==> cloned(*value, #[trigger] r@[i]),
{
    let mut v: Vec<T> = Vec::new();
    let mut i: usize = 0;
    while i < n
        invariant
            i <= n,
            v@.len() == i,
            forall|k: int| 0 <= k < i ==> cloned(*value, #[trigger] v@[k]),
        decreases n - i,
    {
        v.push(value.clone());
        i = i + 1;
    }
    v
}

/// How a signal's stream was put together: the stream calls this
/// library made to build it, with their arguments.  This records the
/// calls only: the stream is opaque to Verus, and nothing is proved of
/// the samples it yields.
pub ghost enum Pipeline<T> {
    /// A stream handed in from outside.
    Given,
    /// A stream passed through a closure by `Stream::map`.
    Mapped,
    /// `Stream::from_vec` of these samples.
    FromVec(Seq<T>),
    /// `Stream::empty`.
    Empty,
    /// `Stream::take` of at most `n` samples of a pipeline.
    Take(Box<Pipeline<T>>, nat),
    /// `Stream::concat` of two pipelines.
    Concat(Box<Pipeline<T>>, Box<Pipeline<T>>),
}

/// The samples a pipeline yields by what `comp_cat_rs` documents of its
/// stream constructors, where every part of it is known here; `None`
/// once a stream from outside or a closure is involved.  A meaning
/// given to the pipeline, not a fact proved of the stream.
pub open spec fn samples<T>(p: Pipeline<T>) -> Option<Seq<T>>
    decreases p,
{
    match p {
        Pipeline::Given => None,
        Pipeline::Mapped => None,
        Pipeline::FromVec(s) => Some(s),
        Pipeline::Empty => Some(Seq::empty()),
        Pipeline::Take(q, n) => match samples(*q) {
            Some(s) => Some(if n < s.len() { s.take(n as int) } else { s }),
            None => None,
        },
        Pipeline::Concat(a, b) => match samples(*a) {
            Some(x) => match samples(*b) {
                Some(y) => Some(x + y),
                None => None,
            },
            None => None,
        },
    }
}

/// A time-varying value of hardware type `T` in clock domain `D`,
/// pulled one sample at a time.  The samples live in an opaque
/// `comp_cat_rs` stream; the contracts state which stream calls built
/// it (see [`Pipeline`]), not what it yields.
#[verifier::reject_recursive_types(T)]
pub struct Signal<D, T> where D: ClockDomain, T: Hw + Send + 'static {
    inner: Stream<Error, T>,
    _domain: PhantomData<D>,
    plan: Ghost<Pipeline<T>>,
}

impl<D, T> Signal<D, T> where D: ClockDomain, T: Hw + Send + 'static {
    /// How this signal's stream was built: a record of calls kept beside
    /// the stream; nothing is proved of the stream itself.
    pub closed spec fn plan(&self) -> Pipeline<T> {
        self.plan@
    }

    /// The stream this signal wraps.
    pub closed spec fn stream(&self) -> Stream<Error, T> {
        self.inner
    }

    /// Wrap an existing stream as a signal in domain `D`.
    pub fn from_stream(stream: Stream<Error, T>) -> (r: Self)
        ensures
            r.plan() == Pipeline::<T>::Given,
            r.stream() == stream,
    {
        Signal { inner: stream, _domain: PhantomData, plan: Ghost(Pipeline::Given) }
    }

    /// Unwrap to the underlying stream.
    pub fn into_stream(self) -> (r: Stream<Error, T>)
        ensures
            r == self.stream(),
    {
        self.inner
    }

    /// A signal from a finite vector of samples.
    pub fn from_vec(items: Vec<T>) -> (r: Self)
        ensures
            r.plan() == Pipeline::FromVec(items@),
            samples(r.plan()) == Some(items@),
    {
        let ghost s = items@;
        Signal { inner: stream_from_vec(items), _domain: PhantomData, plan: Ghost(Pipeline::FromVec(s)) }
    }

    /// The signal with no samples.
    pub fn empty() -> (r: Self)
        ensures
            r.plan() == Pipeline::<T>::Empty,
            samples(r.plan()) == Some(Seq::<T>::empty()),
    {
        Signal { inner: stream_empty(), _domain: PhantomData, plan: Ghost(Pipeline::Empty) }
    }

    /// A signal emitting `value` exactly `n` times.
    pub fn constant_n(value: &T, n: usize) -> (r: Self) where T: Clone
        ensures
            r.plan() matches Pipeline::FromVec(s) && s.len() == n && forall|i: int|
                0 <= i < n ==> cloned(*value, #[trigger] s[i]),
    {
        Self::from_vec(repeat_clone(value, n))
    }

    /// Apply `f` to each sample.
    pub fn map<U, F>(self, f: F) -> (r: Signal<D, U>) where U: Hw + Send + 'static, F: Fn(T) -> U + Send + Sync + 'static
        ensures
            r.plan() == Pipeline::<U>::Mapped,
    {
        Signal { inner: stream_map(self.inner, f), _domain: PhantomData, plan: Ghost(Pipeline::Mapped) }
    }

    /// The first `n` samples.
    pub fn take(self, n: usize) -> (r: Self)
        ensures
            r.plan() == Pipeline::Take(Box::new(self.plan()), n as nat),
    {
        let ghost p = self.plan();
        Signal { inner: stream_take(self.inner, n), _domain: PhantomData, plan: Ghost(Pipeline::Take(Box::new(p), n as nat)) }
    }

    /// This signal's samples followed by `other`'s.
    pub fn concat(self, other: Self) -> (r: Self)
        ensures
            r.plan() == Pipeline::Concat(Box::new(self.plan()), Box::new(other.plan())),
    {
        let ghost p = Pipeline::Concat(Box::new(self.plan()), Box::new(other.plan()));
        Signal { inner: stream_concat(self.inner, other.inner), _domain: PhantomData, plan: Ghost(p) }
    }

    /// A one-cycle delay: `init` at cycle 0, then sample `k` at cycle
    /// `k + 1`.
    pub fn delay(self, init: T) -> (r: Self)
        ensures
            r.plan() == Pipeline::Concat(Box::new(Pipeline::FromVec(seq![init])), Box::new(self.plan())),
    {
        let ghost p = Pipeline::Concat(Box::new(Pipeline::FromVec(seq![init])), Box::new(self.plan()));
        let first = stream_from_vec(vec![init]);
        Signal { inner: stream_concat(first, self.inner), _domain: PhantomData, plan: Ghost(p) }
    }

    /// An effect collecting every sample, run at the simulation
    /// boundary.
    pub fn collect(self) -> (r: Io<Error, Vec<T>>) {
        stream_collect(self.inner)
    }
}

/// A reset line in clock domain `D`: `true` asserts reset.
pub struct Reset<D>(Signal<D, bool>) where D: ClockDomain;

impl<D: ClockDomain> Reset<D> {
    /// How the reset line's stream was built.
    pub closed spec fn plan(&self) -> Pipeline<bool> {
        self.0.plan()
    }

    /// The boolean signal this reset line is.
    pub closed spec fn signal(&self) -> Signal<D, bool> {
        self.0
    }

    /// Use a boolean signal as a reset line.
    pub fn from_signal(s: Signal<D, bool>) -> (r: Self)
        ensures
            r.plan() == s.plan(),
            r.signal() == s,
    {
        Reset(s)
    }

    /// The underlying boolean signal.
    pub fn into_signal(self) -> (r: Signal<D, bool>)
        ensures
            r.plan() == self.plan(),
            r == self.signal(),
    {
        self.0
    }

    /// A reset line held low for `n` cycles.
    pub fn deasserted_for(n: usize) -> (r: Self)
        ensures
            r.plan() == Pipeline::FromVec(Seq::new(n as nat, |i: int| false)),
            samples(r.plan()) == Some(Seq::new(n as nat, |i: int| false)),
    {
        let s = Signal::<D, bool>::constant_n(&false, n);
        proof {
            assert(s.plan()->FromVec_0 =~= Seq::new(n as nat, |i: int| false));
        }
        Reset(s)
    }

    /// A reset line held high for `n` cycles.
    pub fn asserted_for(n: usize) -> (r: Self)
        ensures
            r.plan() == Pipeline::FromVec(Seq::new(n as nat, |i: int| true)),
            samples(r.plan()) == Some(Seq::new(n as nat, |i: int| true)),
    {
        let s = Signal::<D, bool>::constant_n(&true, n);
        proof {
            assert(s.plan()->FromVec_0 =~= Seq::new(n as nat, |i: int| true));
        }
        Reset(s)
    }
}

} // verus!
