use vstd::prelude::*;

verus! {

/// Display name of an entity; carried into log events so that the
/// presentation layer can format narrative lines.
#[derive(Clone, Debug)]
pub struct Name(pub String);

/// Coarse classification of a scalar drive such as aggression or hunger.
#[derive(Clone, Copy, Debug, PartialEq, Eq, Structural)]
pub enum SeverityLevel {
    Max,
    Moderate,
    Min,
}

/// Marker: this entity's doings are highlighted for observers.
#[derive(Clone, Copy, Debug, PartialEq, Eq, Structural)]
pub struct Followed;

/// A component whose magnitude can be classified into a severity band.
pub trait Severity {
    /// The band the component's current value falls in.
    spec fn severity_spec(&self) -> SeverityLevel;

    fn get_severity(&self) -> (r: SeverityLevel)
        ensures
            r == self.severity_spec(),
    ;
}

} // verus!
