use svgo_rs::cli::{IdRemoverConfig, PathOptimizerConfig, PluginConfig};
use svgo_rs::error::{PluginError, ProcessError};
use svgo_rs::markup::{Attribute, Element, MarkupEvent};
use svgo_rs::plugins::traits::{PluginStatistics, SVGPlugin};
use svgo_rs::processor::{RunState, SVGProcessor, SVGProcessorCLI};

/// A unit that writes its label at the end of the `trace` attribute and
/// keeps count of its calls; it fails in the step named by `fails_in`.
struct Tracer {
    label: &'static str,
    fails_in: &'static str,
    inits: usize,
    elements: usize,
    finalizes: usize,
}

impl Tracer {
    fn new(label: &'static str) -> Self {
        Tracer { label, fails_in: "", inits: 0, elements: 0, finalizes: 0 }
    }

    fn failing(label: &'static str, fails_in: &'static str) -> Self {
        Tracer { label, fails_in, inits: 0, elements: 0, finalizes: 0 }
    }

    fn outcome(&self, step: &str) -> Result<(), PluginError> {
        if self.fails_in == step {
            Err(PluginError { message: format!("{} failed in {}", self.label, step) })
        } else {
            Ok(())
        }
    }
}

impl PluginStatistics for Tracer {
    fn get_statistics(&self) -> Vec<(&str, String)> {
        vec![("Elements", self.elements.to_string())]
    }
}

impl SVGPlugin for Tracer {
    fn init(&mut self) -> Result<(), PluginError> {
        self.inits += 1;
        self.elements = 0;
        self.outcome("init")
    }

    fn process_element(&mut self, element: &mut Element) -> Result<(), PluginError> {
        self.elements += 1;
        for attribute in element.attributes.iter_mut() {
            if attribute.name == b"trace" {
                attribute.value.extend_from_slice(self.label.as_bytes());
            }
        }
        self.outcome("process_element")
    }

    fn finalize(&mut self) -> Result<(), PluginError> {
        self.finalizes += 1;
        self.outcome("finalize")
    }

    fn name(&self) -> &str {
        self.label
    }
}

fn traced(tag: &str) -> Element {
    Element {
        tag: tag.as_bytes().to_vec(),
        attributes: vec![Attribute { name: b"trace".to_vec(), value: b">".to_vec() }],
    }
}

fn trace_of(event: &MarkupEvent) -> String {
    match event {
        MarkupEvent::ElementStart(element) | MarkupEvent::ElementEmpty(element) => {
            String::from_utf8(element.attributes[0].value.clone()).unwrap()
        }
        _ => panic!("no element"),
    }
}

fn three(first: Tracer, second: Tracer, third: Tracer) -> SVGProcessor<Tracer> {
    let mut processor = SVGProcessor::new(1024);
    processor.add_plugin(first);
    processor.add_plugin(second);
    processor.add_plugin(third);
    processor
}

fn calls(processor: &SVGProcessor<Tracer>) -> Vec<(usize, usize, usize)> {
    processor.units().iter().map(|unit| (unit.inits, unit.elements, unit.finalizes)).collect()
}

fn unit_error(message: &str) -> ProcessError {
    ProcessError::Unit(PluginError { message: message.to_string() })
}

#[test]
fn new_processor_is_idle_and_empty() {
    let processor: SVGProcessor<Tracer> = SVGProcessor::new(4096);
    assert_eq!(processor.run_state(), RunState::Idle);
    assert_eq!(processor.buffer_size(), 4096);
    assert!(processor.units().is_empty());
}

#[test]
fn add_plugin_keeps_the_order() {
    let processor = three(Tracer::new("a"), Tracer::new("b"), Tracer::new("c"));
    let names: Vec<&str> = processor.units().iter().map(|unit| unit.name()).collect();
    assert_eq!(names, vec!["a", "b", "c"]);
    assert_eq!(processor.run_state(), RunState::Idle);
}

#[test]
fn start_initializes_every_unit_once() {
    let mut processor = three(Tracer::new("a"), Tracer::new("b"), Tracer::new("c"));
    assert_eq!(processor.start(), Ok(()));
    assert_eq!(processor.run_state(), RunState::Streaming);
    assert_eq!(calls(&processor), vec![(1, 0, 0), (1, 0, 0), (1, 0, 0)]);
}

#[test]
fn start_stops_at_the_first_failure() {
    let mut processor = three(Tracer::new("a"), Tracer::failing("b", "init"), Tracer::new("c"));
    assert_eq!(processor.start(), Err(unit_error("b failed in init")));
    assert_eq!(processor.run_state(), RunState::Failed);
    assert_eq!(calls(&processor), vec![(1, 0, 0), (1, 0, 0), (0, 0, 0)]);
}

#[test]
fn process_event_offers_elements_to_the_units_in_order() {
    let mut processor = three(Tracer::new("a"), Tracer::new("b"), Tracer::new("c"));
    assert_eq!(processor.start(), Ok(()));
    let written = processor.process_event(MarkupEvent::ElementStart(traced("g"))).unwrap();
    assert!(matches!(written, MarkupEvent::ElementStart(_)));
    assert_eq!(trace_of(&written), ">abc");
    let written = processor.process_event(MarkupEvent::ElementEmpty(traced("path"))).unwrap();
    assert!(matches!(written, MarkupEvent::ElementEmpty(_)));
    assert_eq!(trace_of(&written), ">abc");
    assert_eq!(calls(&processor), vec![(1, 2, 0), (1, 2, 0), (1, 2, 0)]);
    assert_eq!(processor.run_state(), RunState::Streaming);
}

#[test]
fn process_event_hands_other_events_back_unchanged() {
    let mut processor = three(Tracer::new("a"), Tracer::new("b"), Tracer::new("c"));
    assert_eq!(processor.start(), Ok(()));
    for event in [
        MarkupEvent::DocumentStart(b"xml version=\"1.0\"".to_vec()),
        MarkupEvent::ElementEnd(b"svg".to_vec()),
        MarkupEvent::Text(b"  \n".to_vec()),
        MarkupEvent::Comment(b" trace ".to_vec()),
        MarkupEvent::ProcessingInstruction(b"pi x".to_vec()),
        MarkupEvent::DocumentEnd,
    ] {
        assert_eq!(processor.process_event(event.clone()), Ok(event));
    }
    assert_eq!(calls(&processor), vec![(1, 0, 0), (1, 0, 0), (1, 0, 0)]);
    assert_eq!(processor.run_state(), RunState::Streaming);
}

#[test]
fn process_event_stops_at_the_first_failure() {
    let mut processor =
        three(Tracer::new("a"), Tracer::failing("b", "process_element"), Tracer::new("c"));
    assert_eq!(processor.start(), Ok(()));
    assert_eq!(
        processor.process_event(MarkupEvent::ElementStart(traced("g"))),
        Err(unit_error("b failed in process_element"))
    );
    assert_eq!(processor.run_state(), RunState::Failed);
    assert_eq!(calls(&processor), vec![(1, 1, 0), (1, 1, 0), (1, 0, 0)]);
}

#[test]
fn finalize_ends_every_unit_once() {
    let mut processor = three(Tracer::new("a"), Tracer::new("b"), Tracer::new("c"));
    assert_eq!(processor.start(), Ok(()));
    assert!(processor.process_event(MarkupEvent::Text(b"x".to_vec())).is_ok());
    assert_eq!(processor.finalize(), Ok(()));
    assert_eq!(processor.run_state(), RunState::Finalizing);
    assert_eq!(calls(&processor), vec![(1, 0, 1), (1, 0, 1), (1, 0, 1)]);
    assert_eq!(processor.complete(), Ok(()));
    assert_eq!(processor.run_state(), RunState::Done);
}

#[test]
fn finalize_stops_at_the_first_failure() {
    let mut processor = three(Tracer::failing("a", "finalize"), Tracer::new("b"), Tracer::new("c"));
    assert_eq!(processor.start(), Ok(()));
    assert!(processor.process_event(MarkupEvent::Text(b"x".to_vec())).is_ok());
    assert_eq!(processor.finalize(), Err(unit_error("a failed in finalize")));
    assert_eq!(processor.run_state(), RunState::Failed);
    assert_eq!(calls(&processor), vec![(1, 0, 1), (1, 0, 0), (1, 0, 0)]);
}

#[test]
fn run_without_events_is_an_empty_document() {
    let mut processor = three(Tracer::new("a"), Tracer::new("b"), Tracer::new("c"));
    assert_eq!(processor.start(), Ok(()));
    assert_eq!(processor.finalize(), Ok(()));
    assert_eq!(processor.complete(), Err(ProcessError::EmptyDocument));
    assert_eq!(processor.run_state(), RunState::Failed);
}

#[test]
fn run_without_units_passes_events_through() {
    let mut processor: SVGProcessor<Tracer> = SVGProcessor::new(16);
    assert_eq!(processor.start(), Ok(()));
    let element = MarkupEvent::ElementStart(traced("svg"));
    assert_eq!(processor.process_event(element.clone()), Ok(element));
    assert_eq!(processor.finalize(), Ok(()));
    assert_eq!(processor.complete(), Ok(()));
    assert_eq!(processor.run_state(), RunState::Done);
}

#[test]
fn source_failure_ends_the_run_with_a_parse_error() {
    let mut processor = three(Tracer::new("a"), Tracer::new("b"), Tracer::new("c"));
    assert_eq!(processor.start(), Ok(()));
    assert!(processor.process_event(MarkupEvent::ElementStart(traced("svg"))).is_ok());
    let error = processor.source_failed("unterminated tag at 12".to_string());
    assert_eq!(error, ProcessError::Parse("unterminated tag at 12".to_string()));
    assert_eq!(processor.run_state(), RunState::Failed);
    // the units are not finalized
    assert_eq!(calls(&processor), vec![(1, 1, 0), (1, 1, 0), (1, 1, 0)]);
}

#[test]
fn io_failure_ends_the_run_with_an_io_error() {
    let mut processor = three(Tracer::new("a"), Tracer::new("b"), Tracer::new("c"));
    assert_eq!(processor.start(), Ok(()));
    let error = processor.io_failed("disk full".to_string());
    assert_eq!(error, ProcessError::Io("disk full".to_string()));
    assert_eq!(processor.run_state(), RunState::Failed);
}

#[test]
fn a_processor_runs_again_after_a_run() {
    let mut processor = three(Tracer::new("a"), Tracer::new("b"), Tracer::new("c"));
    assert_eq!(processor.start(), Ok(()));
    assert!(processor.process_event(MarkupEvent::ElementStart(traced("svg"))).is_ok());
    assert_eq!(processor.finalize(), Ok(()));
    assert_eq!(processor.complete(), Ok(()));

    assert_eq!(processor.start(), Ok(()));
    assert_eq!(processor.run_state(), RunState::Streaming);
    assert_eq!(calls(&processor), vec![(2, 0, 1), (2, 0, 1), (2, 0, 1)]);
    assert_eq!(processor.finalize(), Ok(()));
    assert_eq!(processor.complete(), Err(ProcessError::EmptyDocument));
}

#[test]
fn messages_of_the_errors() {
    assert_eq!(ProcessError::EmptyDocument.message(), "No SVG content was processed");
    assert_eq!(ProcessError::Parse("bad tag".to_string()).message(), "bad tag");
    assert_eq!(ProcessError::Io("denied".to_string()).message(), "denied");
    assert_eq!(unit_error("unit broke").message(), "unit broke");
}

fn fixed_point(text: &str, places: usize) -> Option<String> {
    text.parse::<f64>().ok().map(|value| format!("{:.1$}", value, places))
}

type Formatter = fn(&str, usize) -> Option<String>;

fn all_units(path_optimizer: Option<PathOptimizerConfig>) -> PluginConfig {
    PluginConfig {
        path_optimizer,
        gradient_deduplicator: true,
        id_remover: IdRemoverConfig { enabled: true, preserve: vec!["keep".to_string()] },
        data_attr_remover: true,
    }
}

#[test]
fn command_line_processor_counts_its_buffer_in_kilobytes() {
    let cli: SVGProcessorCLI<Formatter> = SVGProcessorCLI::new(8, true);
    assert_eq!(cli.processor.buffer_size(), 8192);
    assert!(cli.verbose);
    assert!(cli.processor.units().is_empty());
    assert_eq!(cli.processor.run_state(), RunState::Idle);
    let zero: SVGProcessorCLI<Formatter> = SVGProcessorCLI::new(0, false);
    assert_eq!(zero.processor.buffer_size(), 0);
    assert!(!zero.verbose);
    let largest: SVGProcessorCLI<Formatter> = SVGProcessorCLI::new(usize::MAX / 1024, false);
    assert_eq!(largest.processor.buffer_size(), (usize::MAX / 1024) * 1024);
    let beyond: SVGProcessorCLI<Formatter> = SVGProcessorCLI::new(usize::MAX / 1024 + 1, false);
    assert_eq!(beyond.processor.buffer_size(), usize::MAX);
}

#[test]
fn configure_adds_the_path_optimizer_where_asked() {
    let mut cli: SVGProcessorCLI<Formatter> = SVGProcessorCLI::new(8, false);
    cli.configure(all_units(Some(PathOptimizerConfig { decimal_places: 3 })), fixed_point);
    assert_eq!(cli.processor.units().len(), 1);
    assert_eq!(cli.processor.units()[0].name(), "PathOptimizer");
    assert_eq!(cli.processor.units()[0].get_statistics(), (0, 0));

    assert_eq!(cli.processor.start(), Ok(()));
    let path = Element {
        tag: b"path".to_vec(),
        attributes: vec![Attribute { name: b"d".to_vec(), value: b"M 1.23456 2".to_vec() }],
    };
    let written = cli.processor.process_event(MarkupEvent::ElementEmpty(path)).unwrap();
    assert_eq!(
        written,
        MarkupEvent::ElementEmpty(Element {
            tag: b"path".to_vec(),
            attributes: vec![Attribute { name: b"d".to_vec(), value: b"M1.235 2".to_vec() }],
        })
    );
}

#[test]
fn configure_adds_no_unit_for_the_others() {
    let mut cli: SVGProcessorCLI<Formatter> = SVGProcessorCLI::new(8, false);
    cli.configure(all_units(None), fixed_point);
    assert!(cli.processor.units().is_empty());
    cli.configure(PluginConfig::default(), fixed_point);
    assert!(cli.processor.units().is_empty());
}

#[test]
fn configure_can_be_chained() {
    let mut cli: SVGProcessorCLI<Formatter> = SVGProcessorCLI::new(8, false);
    cli.configure(all_units(Some(PathOptimizerConfig { decimal_places: 1 })), fixed_point)
        .configure(all_units(Some(PathOptimizerConfig { decimal_places: 2 })), fixed_point);
    assert_eq!(cli.processor.units().len(), 2);
}
