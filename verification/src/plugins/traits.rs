//! What a transformation unit offers to the pipeline.

use crate::error::PluginError;
use crate::markup::Element;
use vstd::prelude::*;

verus! {

/// What a list of labels and values holds.
pub open spec fn statistics_view(statistics: Seq<(&str, String)>) -> Seq<(Seq<char>, Seq<char>)> {
    Seq::new(statistics.len(), |i: int| (statistics[i].0@, statistics[i].1@))
}

/// A unit that reports on what it has done.
pub trait PluginStatistics {
    /// Whether the unit, as it stands, reports `statistics`.
    open spec fn reports(&self, statistics: Seq<(Seq<char>, Seq<char>)>) -> bool {
        true
    }

    /// Labels and formatted values, in the order in which to show them.
    fn get_statistics(&self) -> (statistics: Vec<(&str, String)>)
        ensures
            self.reports(statistics_view(statistics@)),
    ;
}

/// A unit with settings.
pub trait ConfigurablePlugin {
    /// The settings of the unit.
    type Config;

    /// Applies `config` to the unit.
    fn configure(&mut self, config: Self::Config) -> Result<(), PluginError>;
}

/// A transformation unit. The pipeline calls `init` once before the first
/// event, `process_element` once for the opening of each element, and
/// `finalize` once after the last event.
///
/// A unit says in `initialized`, `processed` and `finalized` what its three
/// steps do; the pipeline's contracts are stated over them.
pub trait SVGPlugin: PluginStatistics {
    /// What holds of the unit between calls.
    open spec fn wf(&self) -> bool {
        true
    }

    /// Whether `init` can turn the unit into `after` with `result`.
    open spec fn initialized(&self, after: &Self, result: Result<(), PluginError>) -> bool {
        true
    }

    /// Whether `process_element` can turn the unit into `after` and
    /// `element` into `rewritten`, with `result`.
    open spec fn processed(
        &self,
        element: Element,
        after: &Self,
        rewritten: Element,
        result: Result<(), PluginError>,
    ) -> bool {
        true
    }

    /// Whether `finalize` can turn the unit into `after` with `result`.
    open spec fn finalized(&self, after: &Self, result: Result<(), PluginError>) -> bool {
        true
    }

    /// Prepares the unit for a document: whatever it has counted starts
    /// again from nothing.
    fn init(&mut self) -> (result: Result<(), PluginError>)
        requires
            old(self).wf(),
        ensures
            final(self).wf(),
            old(self).initialized(final(self), result),
    ;

    /// Offers the opening of one element to the unit, which may rewrite
    /// its attributes.
    fn process_element(&mut self, element: &mut Element) -> (result: Result<(), PluginError>)
        requires
            old(self).wf(),
        ensures
            final(self).wf(),
            old(self).processed(*old(element), final(self), *final(element), result),
    ;

    /// Ends the unit's work on a document.
    fn finalize(&mut self) -> (result: Result<(), PluginError>)
        requires
            old(self).wf(),
        ensures
            final(self).wf(),
            old(self).finalized(final(self), result),
    ;

    /// The name to report the unit under.
    fn name(&self) -> &str;
}

} // verus!
