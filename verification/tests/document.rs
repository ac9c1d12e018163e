use quick_xml::events::attributes::Attribute as XmlAttribute;
use quick_xml::events::{BytesStart, Event};
use quick_xml::name::QName;
use quick_xml::reader::Reader;
use quick_xml::writer::Writer;
use std::borrow::Cow;

use svgo_rs::error::ProcessError;
use svgo_rs::markup::{Attribute, Element, MarkupEvent};
use svgo_rs::plugins::path::PathOptimizerPlugin;
use svgo_rs::processor::{RunState, SVGProcessor};

type Formatter = fn(&str, usize) -> Option<String>;

fn fixed_point(text: &str, places: usize) -> Option<String> {
    text.parse::<f64>().ok().map(|value| format!("{:.1$}", value, places))
}

fn to_element(start: &BytesStart) -> Element {
    Element {
        tag: start.name().as_ref().to_vec(),
        attributes: start
            .attributes()
            .flatten()
            .map(|attribute| Attribute {
                name: attribute.key.as_ref().to_vec(),
                value: attribute.value.into_owned(),
            })
            .collect(),
    }
}

fn to_markup(event: &Event) -> MarkupEvent {
    match event {
        Event::Start(start) => MarkupEvent::ElementStart(to_element(start)),
        Event::Empty(start) => MarkupEvent::ElementEmpty(to_element(start)),
        Event::End(end) => MarkupEvent::ElementEnd(end.name().as_ref().to_vec()),
        Event::Comment(text) => MarkupEvent::Comment(text.to_vec()),
        Event::Decl(declaration) => MarkupEvent::DocumentStart(declaration.to_vec()),
        Event::PI(instruction) => MarkupEvent::ProcessingInstruction(instruction.to_vec()),
        Event::Eof => MarkupEvent::DocumentEnd,
        other => MarkupEvent::Text(other.to_vec()),
    }
}

fn to_start(element: &Element) -> BytesStart<'static> {
    let mut start = BytesStart::new(String::from_utf8_lossy(&element.tag).into_owned());
    for attribute in &element.attributes {
        start.push_attribute(XmlAttribute {
            key: QName(&attribute.name),
            value: Cow::Borrowed(&attribute.value[..]),
        });
    }
    start
}

/// One run of the pipeline over a document held in memory.
fn run(processor: &mut SVGProcessor<PathOptimizerPlugin<Formatter>>, input: &str) -> Result<String, ProcessError> {
    processor.start()?;
    let mut reader = Reader::from_reader(input.as_bytes());
    let mut writer = Writer::new(Vec::new());
    let mut buffer = Vec::new();
    loop {
        match reader.read_event_into(&mut buffer) {
            Ok(Event::Eof) => break,
            Ok(event) => {
                let before = to_markup(&event);
                let after = processor.process_event(before.clone())?;
                let written = if before == after {
                    event
                } else {
                    match after {
                        MarkupEvent::ElementStart(element) => Event::Start(to_start(&element)),
                        MarkupEvent::ElementEmpty(element) => Event::Empty(to_start(&element)),
                        _ => unreachable!(),
                    }
                };
                writer.write_event(written).unwrap();
            }
            Err(error) => return Err(processor.source_failed(error.to_string())),
        }
        buffer.clear();
    }
    processor.finalize()?;
    processor.complete()?;
    Ok(String::from_utf8(writer.into_inner()).unwrap())
}

fn path_optimizer(places: usize) -> SVGProcessor<PathOptimizerPlugin<Formatter>> {
    let mut processor = SVGProcessor::new(1024);
    processor.add_plugin(PathOptimizerPlugin::new(places, fixed_point as Formatter));
    processor
}

#[test]
fn processor_test_path_optimization() {
    let mut processor = path_optimizer(2);

    let test_svg = "<?xml version=\"1.0\"?>
            <svg>
                <path d=\"M 100.000 200.000 L 300.000 400.000\"/>
            </svg>";

    let output_content = run(&mut processor, test_svg).unwrap();
    assert!(output_content.contains("d=\"M100 200L300 400\""));
}

#[test]
fn document_comes_out_as_it_went_in_but_for_path_data() {
    let mut processor = path_optimizer(1);
    let input = "<?xml version=\"1.0\"?>\n<!-- drawing -->\n<svg  width='10' height=\"20\">\n  <g id=\"a&amp;b\"><path fill=\"red\"  d=\"M 1.25 , 2.00 z\" id=\"p\"/></g>\n  <rect d=\"M 1.000\"/>text &lt; <![CDATA[ 1.000 ]]>\n</svg>\n";
    let expected = "<?xml version=\"1.0\"?>\n<!-- drawing -->\n<svg  width='10' height=\"20\">\n  <g id=\"a&amp;b\"><path fill=\"red\" id=\"p\" d=\"M1.2 2z\"/></g>\n  <rect d=\"M 1.000\"/>text &lt; <![CDATA[ 1.000 ]]>\n</svg>\n";
    assert_eq!(run(&mut processor, input).unwrap(), expected);
    assert_eq!(processor.run_state(), RunState::Done);
    assert_eq!(processor.units()[0].get_statistics(), (1, 8));
}

#[test]
fn document_without_events_is_empty() {
    let mut processor = path_optimizer(2);
    assert_eq!(run(&mut processor, ""), Err(ProcessError::EmptyDocument));
    assert_eq!(processor.run_state(), RunState::Failed);
}

#[test]
fn document_with_an_unterminated_tag_is_a_parse_error() {
    let mut processor = path_optimizer(2);
    let outcome = run(&mut processor, "<svg><path d=\"M 1.000 2.000\"");
    assert!(matches!(outcome, Err(ProcessError::Parse(_))));
    assert_eq!(processor.run_state(), RunState::Failed);
}

#[test]
fn counts_start_again_with_each_document() {
    let mut processor = path_optimizer(2);
    let input = "<svg><path d=\"M 1.000 2.000\"/><path d=\"L 3.50\"/></svg>";
    assert_eq!(run(&mut processor, input).unwrap(), "<svg><path d=\"M1 2\"/><path d=\"L3.5\"/></svg>");
    assert_eq!(processor.units()[0].get_statistics(), (2, 11));
    assert_eq!(run(&mut processor, "<svg><path d=\"M 1.000\"/></svg>").unwrap(), "<svg><path d=\"M1\"/></svg>");
    assert_eq!(processor.units()[0].get_statistics(), (1, 5));
}
