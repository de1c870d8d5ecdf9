use link_titles::dash::{highest_stream, select_stream, ManifestError, XmlAttribute, XmlEvent};

fn start(name: &str, attributes: &[(&str, &str)]) -> XmlEvent {
    XmlEvent::Start {
        name: name.as_bytes().to_vec(),
        attributes: attributes
            .iter()
            .map(|(k, v)| {
                Some(XmlAttribute {
                    key: k.as_bytes().to_vec(),
                    value: v.as_bytes().to_vec(),
                })
            })
            .collect(),
    }
}

fn end(name: &str) -> XmlEvent {
    XmlEvent::End {
        name: name.as_bytes().to_vec(),
    }
}

fn text(content: &str) -> XmlEvent {
    XmlEvent::Text {
        content: Some(content.to_string()),
    }
}

fn representation(bandwidth: &str, url: &str) -> Vec<XmlEvent> {
    vec![
        start("Representation", &[("id", "x"), ("bandwidth", bandwidth)]),
        start("BaseURL", &[]),
        text(url),
        end("BaseURL"),
        end("Representation"),
    ]
}

const PLAYLIST: &str = r#"<?xml version="1.0" encoding="UTF-8"?>
<MPD mediaPresentationDuration="PT14.9S" minBufferTime="PT1.500S" type="static">
  <Period duration="PT14.9S">
    <AdaptationSet segmentAlignment="true" subsegmentAlignment="true">
      <Representation bandwidth="1210321" codecs="avc1.4d401f" height="480" id="VIDEO-1" width="480">
        <BaseURL>DASH_1_2_M</BaseURL>
        <SegmentBase indexRange="915-958"><Initialization range="0-914"/></SegmentBase>
      </Representation>
      <Representation bandwidth="2420018" codecs="avc1.4d401f" height="720" id="VIDEO-2" width="720">
        <BaseURL>DASH_2_4_M</BaseURL>
        <SegmentBase indexRange="916-959"><Initialization range="0-915"/></SegmentBase>
      </Representation>
      <Representation bandwidth="612345" codecs="avc1.4d401e" height="360" id="VIDEO-3" width="360">
        <BaseURL>DASH_600_K</BaseURL>
      </Representation>
    </AdaptationSet>
    <AdaptationSet>
      <Representation audioSamplingRate="48000" bandwidth="131585" codecs="mp4a.40.2" id="AUDIO-1">
        <BaseURL>audio</BaseURL>
      </Representation>
    </AdaptationSet>
  </Period>
</MPD>
"#;

#[test]
fn highest() {
    assert_eq!(Ok("DASH_2_4_M".to_string()), highest_stream(PLAYLIST));
}

#[test]
fn highest_keeps_the_first_of_equals() {
    let doc = r#"<MPD><Representation bandwidth="7"><BaseURL>a</BaseURL></Representation>
        <Representation bandwidth="9"><BaseURL>b</BaseURL></Representation>
        <Representation bandwidth="9"><BaseURL>c</BaseURL></Representation></MPD>"#;
    assert_eq!(Ok("b".to_string()), highest_stream(doc));
}

#[test]
fn highest_without_representation() {
    assert_eq!(
        Err(ManifestError::NoRepresentation),
        highest_stream("<MPD><Period/></MPD>")
    );
    assert_eq!(Err(ManifestError::NoRepresentation), highest_stream(""));
}

#[test]
fn highest_keeps_a_bandwidth_of_zero() {
    let doc = r#"<Representation bandwidth="0"><BaseURL>a</BaseURL></Representation>"#;
    assert_eq!(Ok("a".to_string()), highest_stream(doc));
    let doc = r#"<R><Representation bandwidth="0"><BaseURL>a</BaseURL></Representation>
        <Representation bandwidth="0"><BaseURL>b</BaseURL></Representation></R>"#;
    assert_eq!(Ok("a".to_string()), highest_stream(doc));
    let events = representation("0", "zero");
    assert_eq!(Ok("zero".to_string()), select_stream(&events));
}

#[test]
fn highest_among_other_elements() {
    let doc = r#"<?xml version="1.0"?>
<MPD>
  <!-- two sets -->
  <Period>
    <AdaptationSet>
      <Representation id="a" bandwidth="5"><SegmentBase/> <BaseURL>five</BaseURL> </Representation>
      <Representation bandwidth="9" id="b"><BaseURL serviceLocation="x">ni<!-- -->ne</BaseURL><SegmentBase><Initialization/></SegmentBase></Representation>
    </AdaptationSet>
    <AdaptationSet>
      <Representation bandwidth="9"><BaseURL>late</BaseURL></Representation>
      <Representation bandwidth="7"><BaseURL>seven</BaseURL></Representation>
    </AdaptationSet>
  </Period>
</MPD>"#;
    assert_eq!(Ok("nine".to_string()), highest_stream(doc));
}

#[test]
fn highest_of_ill_formed_document() {
    let doc = r#"<Representation bandwidth="5"><BaseURL>a</Representation></BaseURL>"#;
    assert_eq!(Err(ManifestError::Malformed), highest_stream(doc));
}

#[test]
fn highest_ignores_unreadable_bandwidth() {
    let doc = r#"<R><Representation bandwidth="fast"><BaseURL>a</BaseURL></Representation>
        <Representation bandwidth="+3"><BaseURL>b</BaseURL></Representation>
        <Representation><BaseURL>c</BaseURL></Representation></R>"#;
    assert_eq!(Ok("b".to_string()), highest_stream(doc));
}

#[test]
fn highest_scopes_bandwidth_to_its_element() {
    let doc = r#"<R><Representation bandwidth="5"></Representation><BaseURL>a</BaseURL></R>"#;
    assert_eq!(Err(ManifestError::NoRepresentation), highest_stream(doc));
}

#[test]
fn select_stream_on_events() {
    let mut events = Vec::new();
    events.extend(representation("10", "low"));
    events.extend(representation("30", "high"));
    events.extend(representation("30", "late"));
    events.extend(representation("20", "mid"));
    events.push(XmlEvent::Eof);
    assert_eq!(Ok("high".to_string()), select_stream(&events));
}

#[test]
fn select_stream_gathers_split_text() {
    let events = vec![
        start("Representation", &[("bandwidth", "1")]),
        start("BaseURL", &[]),
        text("a"),
        XmlEvent::Other,
        text("b"),
        end("BaseURL"),
        end("Representation"),
    ];
    assert_eq!(Ok("ab".to_string()), select_stream(&events));
}

#[test]
fn select_stream_stops_at_the_end_of_the_document() {
    let mut events = representation("1", "first");
    events.push(XmlEvent::Eof);
    events.extend(representation("2", "second"));
    assert_eq!(Ok("first".to_string()), select_stream(&events));
}

#[test]
fn select_stream_errors() {
    assert_eq!(Err(ManifestError::NoRepresentation), select_stream(&vec![]));
    assert_eq!(
        Err(ManifestError::Malformed),
        select_stream(&vec![XmlEvent::Malformed])
    );
    let events = vec![
        start("Representation", &[("bandwidth", "1")]),
        start("BaseURL", &[]),
        XmlEvent::Text { content: None },
    ];
    assert_eq!(Err(ManifestError::Undecodable), select_stream(&events));
    let ignored = vec![XmlEvent::Text { content: None }];
    assert_eq!(Err(ManifestError::NoRepresentation), select_stream(&ignored));
}
