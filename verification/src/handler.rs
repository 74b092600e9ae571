//! User-defined callback trait for Ember+ provider events.
use crate::error::Result;
use crate::glow::GlowValue;
use vstd::prelude::*;

verus! {

/// Application-provided handler for provider events.
///
/// The provider hands the consumer's requests to these methods and passes on
/// what they return; nothing is assumed of what an implementation does.
pub trait Handler: Send + Sync {
    /// Called when a consumer writes a new value to a parameter.
    ///
    /// The provided implementation accepts every write.
    fn on_value_change(&self, _path: &[u32], _value: &GlowValue) -> (r: Result<()>)
        default_ensures
            r is Ok,
    {
        Ok(())
    }

    /// Called when a consumer invokes a Function.
    ///
    /// The provided implementation succeeds with no results.
    fn on_invoke(&self, _path: &[u32], _args: &[GlowValue]) -> (r: Result<Vec<GlowValue>>)
        default_ensures
            r matches Ok(v) && v@.len() == 0,
    {
        Ok(Vec::new())
    }

    /// Called to read the current value of a parameter.
    ///
    /// The provided implementation reports no value.
    fn get_value(&self, _path: &[u32]) -> (r: Option<GlowValue>)
        default_ensures
            r is None,
    {
        None
    }
}

} // verus!
