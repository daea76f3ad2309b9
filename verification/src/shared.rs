//! Driver instances behind a lock, so that every holder of a capability can
//! reach the one device.

use crate::ns16550a::Ns16550a;
use spin::mutex::Mutex;
use spin::relax::Spin;
use std::sync::Arc;
use vstd::prelude::*;

verus! {

/// `spin::Mutex`: a lock around a value. Nothing is known of what is inside.
#[verifier::external_type_specification]
#[verifier::external_body]
#[verifier::reject_recursive_types(T)]
#[verifier::reject_recursive_types(R)]
pub struct ExMutex<T: ?Sized, R>(Mutex<T, R>);

/// `spin::relax::Spin`: how a lock waits.
#[verifier::external_type_specification]
#[verifier::external_body]
pub struct ExSpin(Spin);

/// A driver instance that the manager and every other holder share.
pub type SharedUart = Arc<Mutex<Ns16550a, Spin>>;

/// The instance that a lock was made around. It says nothing of what a
/// holder of the lock has stored in it since.
pub uninterp spec fn made_with(lock: Mutex<Ns16550a, Spin>) -> Ns16550a;

/// `spin::Mutex::new`: a new, unlocked lock around `device`.
#[verifier::external_body]
pub(crate) fn guard(device: Ns16550a) -> (lock: Mutex<Ns16550a, Spin>)
    ensures
        made_with(lock) == device,
{
    Mutex::new(device)
}

/// Puts a driver instance behind a lock that can be shared.
pub fn share(device: Ns16550a) -> (shared: SharedUart)
    ensures
        made_with(*shared) == device,
{
    Arc::new(guard(device))
}

} // verus!
