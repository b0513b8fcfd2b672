//! Typed value handles with clip-mode, range and unit metadata.
//!
//! A leaf parameter wraps a *handle*: a thread-safe getter and/or setter the
//! application supplies.  The handle is wrapped together with purely
//! declarative metadata (clip-mode, range, unit) that is surfaced to remote
//! clients but never enforced on writes.

use vstd::prelude::*;

verus! {

/// How values outside the declared [`Range`] are handled by the method
/// backing a parameter.  Purely declarative: the library never clips.
#[derive(Copy, Clone, PartialEq, Eq, Structural, Debug)]
pub enum ClipMode {
    NoClip,
    Low,
    High,
    Both,
}

/// The declared range of a parameter's value.
#[derive(Clone, PartialEq, Debug)]
pub enum Range<T> {
    /// No restriction.
    NoLimit,
    /// Values should be at least the given value.
    Min(T),
    /// Values should be at most the given value.
    Max(T),
    /// Values should lie between the two given values, inclusive.
    MinMax(T, T),
    /// Values should be one of those listed.
    Vals(Vec<T>),
}

impl Default for ClipMode {
    fn default() -> (r: Self)
        ensures
            r == ClipMode::NoClip,
    {
        ClipMode::NoClip
    }
}

impl<T> Default for Range<T> {
    fn default() -> (r: Self)
        ensures
            r == Range::<T>::NoLimit,
    {
        Range::NoLimit
    }
}

/// A handle that can read the current value.
pub trait Get<T>: Send + Sync {
    fn get(&self) -> T;
}

/// A handle that can store a new value.
pub trait SetValue<T>: Send + Sync {
    fn set(&self, value: T);
}

/// A handle that can do both.
pub trait GetSet<T>: Get<T> + SetValue<T> {
}

/// A handle together with its declarative metadata.
pub struct Value<V, T> {
    pub value: V,
    pub clip_mode: ClipMode,
    pub range: Range<T>,
    pub unit: Option<String>,
}

/// Builds a [`Value`], starting from a handle with default metadata.
pub struct ValueBuilder<V, T> {
    pub value: Value<V, T>,
}

impl<V, T> ValueBuilder<V, T> {
    /// Start a builder around the given handle: clip-mode `None`, range
    /// `None`, no unit.
    pub fn new(value: V) -> (r: Self)
        ensures
            r.value.value == value,
            r.value.clip_mode == ClipMode::NoClip,
            r.value.range == Range::<T>::NoLimit,
            r.value.unit is None,
    {
        let value = Value {
            value,
            clip_mode: ClipMode::NoClip,
            range: Range::NoLimit,
            unit: Option::None,
        };
        Self { value }
    }

    /// Replace the clip-mode.
    pub fn with_clip_mode(self, clip_mode: ClipMode) -> (r: Self)
        ensures
            r.value == (Value { clip_mode, ..self.value }),
    {
        let mut s = self;
        s.value.clip_mode = clip_mode;
        s
    }

    /// Replace the range.
    pub fn with_range(self, range: Range<T>) -> (r: Self)
        ensures
            r.value == (Value { range, ..self.value }),
    {
        let mut s = self;
        s.value.range = range;
        s
    }

    /// Attach a unit string.
    pub fn with_unit(self, unit: String) -> (r: Self)
        ensures
            r.value == (Value { unit: Option::Some(unit), ..self.value }),
    {
        let mut s = self;
        s.value.unit = Option::Some(unit);
        s
    }

    /// Finish: hand out the configured value.
    pub fn build(self) -> (r: Value<V, T>)
        ensures
            r == self.value,
    {
        self.value
    }
}

impl<V, T> Value<V, T> {
    /// The stored handle.
    pub fn value(&self) -> (r: &V)
        ensures
            r == &self.value,
    {
        &self.value
    }

    /// The declared clip-mode.
    pub fn clip_mode(&self) -> (r: &ClipMode)
        ensures
            r == &self.clip_mode,
    {
        &self.clip_mode
    }

    /// The declared range.
    pub fn range(&self) -> (r: &Range<T>)
        ensures
            r == &self.range,
    {
        &self.range
    }

    /// The declared unit, if any.
    pub fn unit(&self) -> (r: &Option<String>)
        ensures
            r == &self.unit,
    {
        &self.unit
    }
}

impl<X, T> GetSet<T> for X where X: Get<T> + SetValue<T> {

}

/// A readable handle, type-erased.
pub type ValueGet<T> = Value<std::sync::Arc<dyn Get<T>>, T>;

/// A writable handle, type-erased.
pub type ValueSet<T> = Value<std::sync::Arc<dyn SetValue<T>>, T>;

/// A readable and writable handle, type-erased.
pub type ValueGetSet<T> = Value<std::sync::Arc<dyn GetSet<T>>, T>;

} // verus!
