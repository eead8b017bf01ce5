use audio_waveform::ixml::{find_xml_tag, parse_ixml, xml_get, xml_unescape};

fn model_unescape(s: &str) -> String {
    s.replace("&lt;", "<")
        .replace("&gt;", ">")
        .replace("&amp;", "&")
        .replace("&quot;", "\"")
        .replace("&apos;", "'")
}

fn model_get(xml: &str, tag: &str, cdata: bool) -> Option<String> {
    let lower = xml.to_ascii_lowercase();
    let tag_l = tag.to_ascii_lowercase();
    let open_idx = lower.find(&format!("<{}", tag_l))?;
    let start = lower[open_idx..].find('>')? + open_idx + 1;
    let close_pat = format!("</{}>", tag_l);
    let end = lower[start..].find(&close_pat)? + start;
    let mut val = xml[start..end].to_string();
    if cdata {
        let trimmed = val.trim_start();
        if trimmed.starts_with("<![CDATA[") {
            if let Some(s) = val.find("<![CDATA[") {
                let s1 = s + 9;
                if let Some(e) = val[s1..].find("]]>") {
                    val = val[s1..s1 + e].to_string();
                }
            }
        }
    }
    let collapsed = val.split_whitespace().collect::<Vec<_>>().join(" ");
    Some(model_unescape(&collapsed))
}

const DOC: &str = "<BWFXML><IXML_VERSION>2.10</IXML_VERSION>\n<PROJECT> My  Film </PROJECT>\
<SCENE>12A</SCENE><TAKE>3</TAKE><TAPE>Day\u{e9}1</TAPE>\
<NOTE><![CDATA[ gun  shot & echo ]]></NOTE><speed><TIMECODE_RATE>24/1</TIMECODE_RATE>\
<TIMECODE_FLAG>NDF</TIMECODE_FLAG><SAMPLE_RATE attr=\"x\">48000</SAMPLE_RATE></speed>\
<LOCATION>Tom &amp; Jerry&apos;s &lt;house&gt;</LOCATION></BWFXML>";

#[test]
fn xml_unescape_entities() {
    assert_eq!(xml_unescape("a &lt;b&gt; &amp; &quot;c&quot; &apos;d&apos;"), "a <b> & \"c\" 'd'");
    assert_eq!(xml_unescape("&amp;lt;"), "&lt;");
    assert_eq!(xml_unescape("plain"), "plain");
    for s in ["&&amp;amp;", "&lt", "&&lt;;", "\u{e9}&gt;\u{e9}"] {
        assert_eq!(xml_unescape(s), model_unescape(s));
    }
}

#[test]
fn xml_get_reads_tags() {
    assert_eq!(xml_get(DOC, "PROJECT").as_deref(), Some("My Film"));
    assert_eq!(xml_get(DOC, "project").as_deref(), Some("My Film"));
    assert_eq!(xml_get(DOC, "NOTE").as_deref(), Some("gun shot & echo"));
    assert_eq!(xml_get(DOC, "SAMPLE_RATE").as_deref(), Some("48000"));
    assert_eq!(xml_get(DOC, "LOCATION").as_deref(), Some("Tom & Jerry's <house>"));
    assert_eq!(xml_get(DOC, "MISSING"), None);
    assert_eq!(xml_get("<a>x", "a"), None);
    assert_eq!(xml_get("<a", "a"), None);
}

#[test]
fn find_xml_tag_keeps_cdata() {
    assert_eq!(find_xml_tag(DOC, "NOTE").as_deref(), Some("<![CDATA[ gun shot & echo ]]>"));
    assert_eq!(find_xml_tag(DOC, "TAKE").as_deref(), Some("3"));
    assert_eq!(find_xml_tag(DOC, "nothing"), None);
}

#[test]
fn xml_lookups_agree_with_model() {
    let docs = [
        DOC,
        "<x><TIMECODE>01:00:00:00</TIMECODE><TIMECODE_RATE>25</TIMECODE_RATE></x>",
        "<TAKE >1</TAKE><TAKE>2</TAKE>",
        "<NOTE>  <![CDATA[unterminated </NOTE>",
        "<NOTE>x<![CDATA[late]]></NOTE>",
        "<\u{c9}T\u{c9}>v</\u{c9}t\u{c9}>",
        "",
    ];
    let tags = ["PROJECT", "TIMECODE", "TIMECODE_RATE", "TAKE", "NOTE", "\u{c9}T\u{c9}", "", "x"];
    for d in docs {
        for t in tags {
            assert_eq!(xml_get(d, t), model_get(d, t, true), "{:?} {:?}", d, t);
            assert_eq!(find_xml_tag(d, t), model_get(d, t, false), "{:?} {:?}", d, t);
        }
    }
}

#[test]
fn parse_ixml_fields() {
    let x = parse_ixml(DOC);
    assert_eq!(x.project.as_deref(), Some("My Film"));
    assert_eq!(x.scene.as_deref(), Some("12A"));
    assert_eq!(x.take.as_deref(), Some("3"));
    assert_eq!(x.tape.as_deref(), Some("Day\u{e9}1"));
    assert_eq!(x.note.as_deref(), Some("gun shot & echo"));
    assert_eq!(x.location.as_deref(), Some("Tom & Jerry's <house>"));
    assert_eq!(x.ixml_version.as_deref(), Some("2.10"));
    assert_eq!(x.timecode, None);
    assert_eq!(x.tc_rate.as_deref(), Some("24/1"));
    assert_eq!(x.tc_flag.as_deref(), Some("NDF"));
    assert_eq!(x.speed_sample_rate.as_deref(), Some("48000"));
}
