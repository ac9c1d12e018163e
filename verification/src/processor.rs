//! The pipeline coordinator: an ordered list of transformation units and
//! the state of one run over a document.

use crate::error::{PluginError, ProcessError};
use crate::markup::{Element, MarkupEvent};
use crate::cli::PluginConfig;
use crate::plugins::path::PathOptimizerPlugin;
use crate::plugins::traits::SVGPlugin;
use vstd::prelude::*;

verus! {

/// Where a run stands. `start` passes through `Initializing` while it
/// prepares the units, and leads to `Streaming`; `finalize` ends their
/// work and leads to `Finalizing`; `complete` leads to `Done`. Every
/// failure leads to `Failed`.
#[derive(Debug, Clone, Copy, PartialEq, Eq, Structural)]
pub enum RunState {
    Idle,
    Initializing,
    Streaming,
    Finalizing,
    Done,
    Failed,
}

/// Whether `init` has succeeded on each of the first `count` units.
pub open spec fn initialized_upto<P: SVGPlugin>(before: Seq<P>, after: Seq<P>, count: int) -> bool {
    forall|i: int|
        #![trigger before[i]]
        #![trigger after[i]]
        0 <= i < count ==> before[i].initialized(&after[i], Ok(()))
}

/// Whether `finalize` has succeeded on each of the first `count` units.
pub open spec fn finalized_upto<P: SVGPlugin>(before: Seq<P>, after: Seq<P>, count: int) -> bool {
    forall|i: int|
        #![trigger before[i]]
        #![trigger after[i]]
        0 <= i < count ==> before[i].finalized(&after[i], Ok(()))
}

/// Whether the units after index `at` are as they were.
pub open spec fn untouched_after<P: SVGPlugin>(before: Seq<P>, after: Seq<P>, at: int) -> bool {
    forall|i: int| at < i < before.len() ==> #[trigger] after[i] == before[i]
}

/// Whether `stages` holds what an element is before the first unit and
/// after each of the first `count` units, every one of which succeeds.
pub open spec fn staged<P: SVGPlugin>(
    before: Seq<P>,
    after: Seq<P>,
    count: int,
    stages: Seq<Element>,
) -> bool {
    &&& stages.len() == count + 1
    &&& forall|i: int|
        0 <= i < count ==> (#[trigger] before[i]).processed(
            stages[i],
            &after[i],
            stages[i + 1],
            Ok(()),
        )
}

/// Whether the first `count` units, each called on what the one before it
/// made of the element, turn `element` into `rewritten`.
pub open spec fn offered<P: SVGPlugin>(
    before: Seq<P>,
    after: Seq<P>,
    count: int,
    element: Element,
    rewritten: Element,
) -> bool {
    exists|stages: Seq<Element>|
        {
            &&& #[trigger] staged(before, after, count, stages)
            &&& stages[0] == element
            &&& stages[count] == rewritten
        }
}

/// Whether the offer of `element` stopped at a unit that failed with
/// `cause`: the units before it succeeded, each on what the one before it
/// made of the element, and the units after it are as they were.
pub open spec fn stopped<P: SVGPlugin>(
    before: Seq<P>,
    after: Seq<P>,
    element: Element,
    cause: PluginError,
) -> bool {
    exists|at: int, offer: Element, rejected: Element|
        {
            &&& 0 <= at < before.len()
            &&& #[trigger] offered(before, after, at, element, offer)
            &&& #[trigger] before[at].processed(offer, &after[at], rejected, Err(cause))
            &&& untouched_after(before, after, at)
        }
}

/// The pipeline coordinator. It owns its units, calls them in the order
/// in which they were added, and keeps the state of the run.
pub struct SVGProcessor<P> {
    chunk_size: usize,
    plugins: Vec<P>,
    state: RunState,
    processed: bool,
}

impl<P: SVGPlugin> SVGProcessor<P> {
    /// The size in bytes of the buffers to read and write with.
    pub closed spec fn chunk_size(&self) -> usize {
        self.chunk_size
    }

    /// The units, in the order in which they were added.
    pub closed spec fn plugins(&self) -> Seq<P> {
        self.plugins@
    }

    pub closed spec fn state(&self) -> RunState {
        self.state
    }

    /// Whether the run has processed an event.
    pub closed spec fn has_processed(&self) -> bool {
        self.processed
    }

    /// Every unit is well-formed.
    pub open spec fn wf(&self) -> bool {
        forall|i: int| 0 <= i < self.plugins().len() ==> (#[trigger] self.plugins()[i]).wf()
    }

    /// A coordinator without units, at rest.
    pub fn new(chunk_size: usize) -> (processor: Self)
        ensures
            processor.wf(),
            processor.chunk_size() == chunk_size,
            processor.plugins() == Seq::<P>::empty(),
            processor.state() == RunState::Idle,
            !processor.has_processed(),
    {
        SVGProcessor { chunk_size, plugins: Vec::new(), state: RunState::Idle, processed: false }
    }

    /// Adds a unit after those already there.
    pub fn add_plugin(&mut self, plugin: P)
        requires
            old(self).wf(),
            plugin.wf(),
        ensures
            final(self).wf(),
            final(self).plugins() == old(self).plugins().push(plugin),
            final(self).chunk_size() == old(self).chunk_size(),
            final(self).state() == old(self).state(),
            final(self).has_processed() == old(self).has_processed(),
    {
        self.plugins.push(plugin);
        assert forall|i: int| 0 <= i < self.plugins().len() implies (#[trigger] self.plugins()[i]).wf() by {
            if i < old(self).plugins().len() {
                assert(self.plugins()[i] == old(self).plugins()[i]);
            }
        }
    }

    /// Begins a run: calls `init` on each unit, in order. The first
    /// failure ends the run, and the units after it are not called.
    pub fn start(&mut self) -> (result: Result<(), ProcessError>)
        requires
            old(self).wf(),
        ensures
            final(self).wf(),
            final(self).chunk_size() == old(self).chunk_size(),
            final(self).plugins().len() == old(self).plugins().len(),
            !final(self).has_processed(),
            match result {
                Ok(_) => {
                    &&& final(self).state() == RunState::Streaming
                    &&& initialized_upto(
                        old(self).plugins(),
                        final(self).plugins(),
                        old(self).plugins().len() as int,
                    )
                },
                Err(error) => {
                    &&& final(self).state() == RunState::Failed
                    &&& exists|at: int, cause: PluginError|
                        {
                            &&& 0 <= at < old(self).plugins().len()
                            &&& initialized_upto(old(self).plugins(), final(self).plugins(), at)
                            &&& (#[trigger] old(self).plugins()[at].initialized(
                                &final(self).plugins()[at],
                                Err(cause),
                            ))
                            &&& untouched_after(old(self).plugins(), final(self).plugins(), at)
                            &&& error == ProcessError::Unit(cause)
                        }
                },
            },
    {
        self.state = RunState::Initializing;
        self.processed = false;
        assert(self.plugins() == old(self).plugins());
        let mut i: usize = 0;
        while i < self.plugins.len()
            invariant
                i <= self.plugins.len(),
                self.plugins.len() == old(self).plugins.len(),
                self.chunk_size == old(self).chunk_size,
                self.state == RunState::Initializing,
                !self.processed,
                self.wf(),
                initialized_upto(old(self).plugins(), self.plugins(), i as int),
                untouched_after(old(self).plugins(), self.plugins(), i - 1),
            decreases self.plugins.len() - i,
        {
            let ghost units = self.plugins@;
            let outcome = self.plugins[i].init();
            assert(forall|j: int| 0 <= j < units.len() && j != i ==> self.plugins@[j] == units[j]);
            match outcome {
                Ok(()) => {
                    assert(outcome->Ok_0 == ());
                },
                Err(cause) => {
                    self.state = RunState::Failed;
                    assert(old(self).plugins()[i as int].initialized(
                        &self.plugins()[i as int],
                        Err(cause),
                    ));
                    return Err(ProcessError::Unit(cause));
                },
            }
            i += 1;
        }
        self.state = RunState::Streaming;
        Ok(())
    }

    /// Offers `element` to each unit, in order; each unit sees what the
    /// units before it made of the element. The first failure stops the
    /// offer, and the units after it are not called.
    fn offer(&mut self, element: &mut Element) -> (result: Result<(), PluginError>)
        requires
            old(self).wf(),
        ensures
            final(self).wf(),
            final(self).chunk_size() == old(self).chunk_size(),
            final(self).state() == old(self).state(),
            final(self).has_processed() == old(self).has_processed(),
            final(self).plugins().len() == old(self).plugins().len(),
            match result {
                Ok(_) => offered(
                    old(self).plugins(),
                    final(self).plugins(),
                    old(self).plugins().len() as int,
                    *old(element),
                    *final(element),
                ),
                Err(cause) => stopped(
                    old(self).plugins(),
                    final(self).plugins(),
                    *old(element),
                    cause,
                ),
            },
    {
        let ghost stages: Seq<Element> = seq![*element];
        let mut i: usize = 0;
        while i < self.plugins.len()
            invariant
                i <= self.plugins.len(),
                self.plugins.len() == old(self).plugins.len(),
                self.chunk_size == old(self).chunk_size,
                self.state == old(self).state,
                self.processed == old(self).processed,
                self.wf(),
                staged(old(self).plugins(), self.plugins(), i as int, stages),
                stages[0] == *old(element),
                stages[i as int] == *element,
                untouched_after(old(self).plugins(), self.plugins(), i - 1),
            decreases self.plugins.len() - i,
        {
            let ghost units = self.plugins@;
            let outcome = self.plugins[i].process_element(element);
            assert(forall|j: int| 0 <= j < units.len() && j != i ==> self.plugins@[j] == units[j]);
            match outcome {
                Ok(()) => {
                    assert(outcome->Ok_0 == ());
                    proof {
                        stages = stages.push(*element);
                    }
                },
                Err(cause) => {
                    proof {
                        let rejected = *element;
                        assert(staged(old(self).plugins(), self.plugins(), i as int, stages));
                        assert(offered(
                            old(self).plugins(),
                            self.plugins(),
                            i as int,
                            *old(element),
                            stages[i as int],
                        ));
                        assert(old(self).plugins()[i as int].processed(
                            stages[i as int],
                            &self.plugins()[i as int],
                            rejected,
                            Err(cause),
                        ));
                        assert(untouched_after(old(self).plugins(), self.plugins(), i as int));
                    }
                    return Err(cause);
                },
            }
            i += 1;
        }
        Ok(())
    }

    /// Takes one event of the document through the pipeline and hands
    /// back the event to write. The opening of an element is offered to
    /// every unit in order; every other event comes back as it is.
    pub fn process_event(&mut self, event: MarkupEvent) -> (result: Result<
        MarkupEvent,
        ProcessError,
    >)
        requires
            old(self).wf(),
            old(self).state() == RunState::Streaming,
        ensures
            final(self).wf(),
            final(self).chunk_size() == old(self).chunk_size(),
            final(self).plugins().len() == old(self).plugins().len(),
            match event {
                MarkupEvent::ElementStart(element) | MarkupEvent::ElementEmpty(element) => {
                    match result {
                        Ok(written) => {
                            &&& final(self).state() == RunState::Streaming
                            &&& final(self).has_processed()
                            &&& written.is_element()
                            &&& written is ElementStart <==> event is ElementStart
                            &&& offered(
                                old(self).plugins(),
                                final(self).plugins(),
                                old(self).plugins().len() as int,
                                element,
                                written.element(),
                            )
                        },
                        Err(error) => {
                            &&& final(self).state() == RunState::Failed
                            &&& final(self).has_processed() == old(self).has_processed()
                            &&& error matches ProcessError::Unit(cause)
                            &&& stopped(old(self).plugins(), final(self).plugins(), element, cause)
                        },
                    }
                },
                _ => {
                    &&& result == Ok::<MarkupEvent, ProcessError>(event)
                    &&& final(self).plugins() == old(self).plugins()
                    &&& final(self).state() == RunState::Streaming
                    &&& final(self).has_processed()
                },
            },
    {
        match event {
            MarkupEvent::ElementStart(mut element) => {
                match self.offer(&mut element) {
                    Ok(()) => {
                        self.processed = true;
                        Ok(MarkupEvent::ElementStart(element))
                    },
                    Err(cause) => {
                        self.state = RunState::Failed;
                        Err(ProcessError::Unit(cause))
                    },
                }
            },
            MarkupEvent::ElementEmpty(mut element) => {
                match self.offer(&mut element) {
                    Ok(()) => {
                        self.processed = true;
                        Ok(MarkupEvent::ElementEmpty(element))
                    },
                    Err(cause) => {
                        self.state = RunState::Failed;
                        Err(ProcessError::Unit(cause))
                    },
                }
            },
            other => {
                self.processed = true;
                Ok(other)
            },
        }
    }

    /// Ends the units' work: calls `finalize` on each unit, in order. The
    /// first failure ends the run, and the units after it are not called.
    pub fn finalize(&mut self) -> (result: Result<(), ProcessError>)
        requires
            old(self).wf(),
            old(self).state() == RunState::Streaming,
        ensures
            final(self).wf(),
            final(self).chunk_size() == old(self).chunk_size(),
            final(self).plugins().len() == old(self).plugins().len(),
            final(self).has_processed() == old(self).has_processed(),
            match result {
                Ok(_) => {
                    &&& final(self).state() == RunState::Finalizing
                    &&& finalized_upto(
                        old(self).plugins(),
                        final(self).plugins(),
                        old(self).plugins().len() as int,
                    )
                },
                Err(error) => {
                    &&& final(self).state() == RunState::Failed
                    &&& exists|at: int, cause: PluginError|
                        {
                            &&& 0 <= at < old(self).plugins().len()
                            &&& finalized_upto(old(self).plugins(), final(self).plugins(), at)
                            &&& (#[trigger] old(self).plugins()[at].finalized(
                                &final(self).plugins()[at],
                                Err(cause),
                            ))
                            &&& untouched_after(old(self).plugins(), final(self).plugins(), at)
                            &&& error == ProcessError::Unit(cause)
                        }
                },
            },
    {
        let mut i: usize = 0;
        while i < self.plugins.len()
            invariant
                i <= self.plugins.len(),
                self.plugins.len() == old(self).plugins.len(),
                self.chunk_size == old(self).chunk_size,
                self.processed == old(self).processed,
                self.wf(),
                finalized_upto(old(self).plugins(), self.plugins(), i as int),
                untouched_after(old(self).plugins(), self.plugins(), i - 1),
            decreases self.plugins.len() - i,
        {
            let ghost units = self.plugins@;
            let outcome = self.plugins[i].finalize();
            assert(forall|j: int| 0 <= j < units.len() && j != i ==> self.plugins@[j] == units[j]);
            match outcome {
                Ok(()) => {
                    assert(outcome->Ok_0 == ());
                },
                Err(cause) => {
                    self.state = RunState::Failed;
                    assert(old(self).plugins()[i as int].finalized(
                        &self.plugins()[i as int],
                        Err(cause),
                    ));
                    return Err(ProcessError::Unit(cause));
                },
            }
            i += 1;
        }
        self.state = RunState::Finalizing;
        Ok(())
    }

    /// Ends the run once the output is flushed: a run that has processed
    /// no event fails with `EmptyDocument`.
    pub fn complete(&mut self) -> (result: Result<(), ProcessError>)
        requires
            old(self).state() == RunState::Finalizing,
        ensures
            final(self).chunk_size() == old(self).chunk_size(),
            final(self).plugins() == old(self).plugins(),
            final(self).has_processed() == old(self).has_processed(),
            old(self).has_processed() ==> result is Ok && final(self).state() == RunState::Done,
            !old(self).has_processed() ==> result == Err::<(), ProcessError>(
                ProcessError::EmptyDocument,
            ) && final(self).state() == RunState::Failed,
    {
        if self.processed {
            self.state = RunState::Done;
            Ok(())
        } else {
            self.state = RunState::Failed;
            Err(ProcessError::EmptyDocument)
        }
    }

    /// Ends the run because the input is malformed.
    pub fn source_failed(&mut self, detail: String) -> (error: ProcessError)
        ensures
            error == ProcessError::Parse(detail),
            final(self).state() == RunState::Failed,
            final(self).chunk_size() == old(self).chunk_size(),
            final(self).plugins() == old(self).plugins(),
            final(self).has_processed() == old(self).has_processed(),
    {
        self.state = RunState::Failed;
        ProcessError::Parse(detail)
    }

    /// Ends the run because reading or writing failed.
    pub fn io_failed(&mut self, detail: String) -> (error: ProcessError)
        ensures
            error == ProcessError::Io(detail),
            final(self).state() == RunState::Failed,
            final(self).chunk_size() == old(self).chunk_size(),
            final(self).plugins() == old(self).plugins(),
            final(self).has_processed() == old(self).has_processed(),
    {
        self.state = RunState::Failed;
        ProcessError::Io(detail)
    }

    /// The size in bytes of the buffers to read and write with.
    pub fn buffer_size(&self) -> (size: usize)
        ensures
            size == self.chunk_size(),
    {
        self.chunk_size
    }

    /// Where the run stands.
    pub fn run_state(&self) -> (state: RunState)
        ensures
            state == self.state(),
    {
        self.state
    }

    /// The units, in the order in which they are called.
    pub fn units(&self) -> (units: &Vec<P>)
        ensures
            units@ == self.plugins(),
    {
        &self.plugins
    }
}

/// The size in bytes of a buffer of `size` kilobytes, held within the
/// bounds of a size.
pub open spec fn kilobytes(size: usize) -> usize {
    if size <= usize::MAX / 1024 {
        (size * 1024) as usize
    } else {
        usize::MAX
    }
}

/// A coordinator set up from the options of the command line.
pub struct SVGProcessorCLI<F> {
    pub processor: SVGProcessor<PathOptimizerPlugin<F>>,
    pub verbose: bool,
}

impl<F: Fn(&str, usize) -> Option<String>> SVGProcessorCLI<F> {
    /// A coordinator without units, with buffers of `buffer_size`
    /// kilobytes.
    pub fn new(buffer_size: usize, verbose: bool) -> (cli: Self)
        ensures
            cli.verbose == verbose,
            cli.processor.wf(),
            cli.processor.chunk_size() == kilobytes(buffer_size),
            cli.processor.plugins().len() == 0,
            cli.processor.state() == RunState::Idle,
            !cli.processor.has_processed(),
    {
        let chunk_size = if buffer_size <= usize::MAX / 1024 {
            buffer_size * 1024
        } else {
            usize::MAX
        };
        SVGProcessorCLI { processor: SVGProcessor::new(chunk_size), verbose }
    }

    /// Adds the units that `config` asks for: the path optimizer, with
    /// the decimal places asked for and nothing counted, where it is
    /// enabled. The gradient deduplicator, the ID remover and the
    /// data-attribute remover have no unit yet: asking for them adds
    /// nothing.
    pub fn configure(&mut self, config: PluginConfig, formatter: F) -> (this: &mut Self)
        requires
            old(self).processor.wf(),
            PathOptimizerPlugin::<F>::callable(formatter),
        ensures
            *final(this) == *final(self),
            this.verbose == old(self).verbose,
            this.processor.wf(),
            this.processor.chunk_size() == old(self).processor.chunk_size(),
            this.processor.state() == old(self).processor.state(),
            this.processor.has_processed() == old(self).processor.has_processed(),
            match config.path_optimizer {
                Some(settings) => {
                    let units = this.processor.plugins();
                    &&& units.len() == old(self).processor.plugins().len() + 1
                    &&& units.drop_last() == old(self).processor.plugins()
                    &&& units.last().decimal_places() == settings.decimal_places
                    &&& units.last().formatter() == formatter
                    &&& units.last().path_count() == 0
                    &&& units.last().total_chars_saved() == 0
                },
                None => this.processor.plugins() == old(self).processor.plugins(),
            },
    {
        match config.path_optimizer {
            Some(settings) => {
                let plugin = PathOptimizerPlugin::new(settings.decimal_places, formatter);
                self.processor.add_plugin(plugin);
                assert(self.processor.plugins().drop_last() =~= old(self).processor.plugins());
            },
            None => {},
        }
        self
    }
}

} // verus!
