use vstd::prelude::*;

verus! {

/// A shared integer gauge of the external metrics registry; clones observe
/// and move the same underlying value. The gauge type itself cannot be
/// declared to the verifier (its type parameter is bound by an outside
/// trait), so it is held opaquely here.
#[verifier::external_body]
pub struct SharedGauge {
    inner: prometheus::core::GenericGauge<prometheus::core::AtomicU64>,
}

impl SharedGauge {
    /// Relies on prometheus's GenericGauge::new: a fresh gauge starts at
    /// zero; construction fails on an invalid metric name.
    #[verifier::external_body]
    pub fn new(name: &str, help: &str) -> (r: Option<SharedGauge>) {
        match prometheus::core::GenericGauge::new(name, help) {
            Ok(inner) => Some(SharedGauge { inner }),
            Err(_) => None,
        }
    }

    /// Relies on GenericGauge::get: the current value. It is shared with
    /// every clone of this gauge, so nothing is promised of it here.
    #[verifier::external_body]
    pub fn get(&self) -> u64 {
        self.inner.get()
    }

    /// Relies on GenericGauge::add: increases the shared value by `delta`.
    #[verifier::external_body]
    pub fn add(&self, delta: u64) {
        self.inner.add(delta)
    }

    /// Relies on GenericGauge::sub: decreases the shared value by `delta`.
    #[verifier::external_body]
    pub fn sub(&self, delta: u64) {
        self.inner.sub(delta)
    }
}

impl Clone for SharedGauge {
    /// Relies on GenericGauge::clone: the clone shares the same underlying
    /// value as this gauge.
    #[verifier::external_body]
    fn clone(&self) -> (r: SharedGauge) {
        SharedGauge { inner: self.inner.clone() }
    }
}

} // verus!
