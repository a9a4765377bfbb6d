//! Results handed out as `comp_cat_rs` effect values, to be run at the
//! caller's boundary.  For each kind of result the library defers, a
//! name says what running the effect yields.

use vstd::prelude::*;

use comp_cat_rs::effect::io::Io;

use crate::bit_seq::BitSeq;
use crate::circom::ast::Template;
use crate::error::Error;
use crate::sim::sample::TimedSample;
use crate::verilog::ast::Module;

verus! {

/// Declares `comp_cat_rs`'s lazy effect type.
#[verifier::external_type_specification]
#[verifier::external_body]
#[verifier::reject_recursive_types(E)]
#[verifier::reject_recursive_types(A)]
pub struct ExIo<E, A>(Io<E, A>);

/// What running (`Io::run`) an effect that yields a Verilog module
/// returns.
pub uninterp spec fn yielded_module(io: Io<Error, Module>) -> Result<Module, Error>;

/// What running an effect that yields a Circom template returns.
pub uninterp spec fn yielded_template(io: Io<Error, Template>) -> Result<Template, Error>;

/// What running an effect that yields text returns.
pub uninterp spec fn yielded_text(io: Io<Error, String>) -> Result<String, Error>;

/// What running an effect that yields simulation samples returns.
pub uninterp spec fn yielded_samples(io: Io<Error, Vec<TimedSample<BitSeq>>>) -> Result<
    Vec<TimedSample<BitSeq>>,
    Error,
>;

/// `comp_cat_rs::effect::io::Io::suspend` around an already computed
/// module result: `Io::run` calls the suspended closure, which hands
/// back `r` unchanged.
#[verifier::external_body]
pub(crate) fn deferred_module(r: Result<Module, Error>) -> (io: Io<Error, Module>)
    ensures
        yielded_module(io) == r,
{
    Io::suspend(move || r)
}

/// `Io::suspend` around an already computed template result: running
/// the effect hands back `r` unchanged.
#[verifier::external_body]
pub(crate) fn deferred_template(r: Result<Template, Error>) -> (io: Io<Error, Template>)
    ensures
        yielded_template(io) == r,
{
    Io::suspend(move || r)
}

/// `Io::suspend` around already rendered text: running the effect
/// hands back `r` unchanged.
#[verifier::external_body]
pub(crate) fn deferred_text(r: Result<String, Error>) -> (io: Io<Error, String>)
    ensures
        yielded_text(io) == r,
{
    Io::suspend(move || r)
}

/// `Io::suspend` around an already computed simulation result: running
/// the effect hands back `r` unchanged.
#[verifier::external_body]
pub(crate) fn deferred_samples(r: Result<Vec<TimedSample<BitSeq>>, Error>) -> (io: Io<
    Error,
    Vec<TimedSample<BitSeq>>,
>)
    ensures
        yielded_samples(io) == r,
{
    Io::suspend(move || r)
}

} // verus!
