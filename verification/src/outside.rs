//! What the verifier is told of `crossbeam_deque` and `core_affinity`, apart from the calls that
//! are put on record, which are in [`journal`](crate::entry::journal).
//!
//! Of a call specified here a contract may say `call_ensures(function, arguments, answer)`: this
//! is a possible answer to this call. In a proof such a fact stems from a call that was made; but
//! it does not say when, how often, or that nothing else was called.

use vstd::prelude::*;

use core_affinity::CoreId;
use crossbeam_deque::{Injector, Steal, Stealer, Worker as LocalQueue};

verus! {

/// `crossbeam_deque::Injector`: the FIFO queue through which every job enters the pool.
#[verifier::external_type_specification]
#[verifier::external_body]
#[verifier::reject_recursive_types(T)]
pub struct ExInjector<T>(Injector<T>);

/// `crossbeam_deque::Worker`: the queue that a single worker owns.
#[verifier::external_type_specification]
#[verifier::external_body]
#[verifier::reject_recursive_types(T)]
pub struct ExLocalQueue<T>(LocalQueue<T>);

/// `crossbeam_deque::Stealer`: a handle by which any worker takes jobs out of another's queue.
#[verifier::external_type_specification]
#[verifier::external_body]
#[verifier::reject_recursive_types(T)]
pub struct ExStealer<T>(Stealer<T>);

/// `crossbeam_deque::Steal`: what an attempt to steal answers. Its three variants are public and
/// are read as they are declared.
#[verifier::external_type_specification]
#[verifier::reject_recursive_types(T)]
pub struct ExSteal<T>(Steal<T>);

/// `core_affinity::CoreId`: a logical core of the machine.
#[verifier::external_type_specification]
#[verifier::external_body]
pub struct ExCoreId(CoreId);

/// `Worker::stealer` makes a stealing handle on the queue it is called on.
pub assume_specification<T>[ LocalQueue::<T>::stealer ](queue: &LocalQueue<T>) -> Stealer<T>;

} // verus!
