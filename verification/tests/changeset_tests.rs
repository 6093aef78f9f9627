use osm_changesets::changesets::{
    changeset_file_name, changeset_title, changesets_url, chunk_changesets, collect_changeset_ids,
    front_matter, get_changesets_list, get_tag_value, XmlAttribute, XmlItem, CHANGESETS_PER_REQUEST,
};
use osm_changesets::model::Tag;

const DIFF: &str = r#"<?xml version='1.0' encoding='UTF-8'?>
<osmChange version="0.6" generator="Osmosis">
  <modify>
    <node id="1" version="2" timestamp="2024-06-01T10:20:00Z" uid="7" user="a" changeset="101" lat="42.1" lon="19.1"/>
    <way id="5" version="3" changeset="102"><nd ref="1"/></way>
  </modify>
  <create>
    <node id="2" version="1" changeset="101" lat="42.2" lon="19.2"><tag k="changeset" v="999"/></node>
  </create>
</osmChange>
"#;

fn sorted(mut v: Vec<String>) -> Vec<String> {
    v.sort();
    v
}

#[test]
fn diff_lists_each_changeset_once() {
    let ids = get_changesets_list(DIFF).unwrap();
    assert_eq!(sorted(ids), vec!["101".to_string(), "102".to_string()]);
}

#[test]
fn diff_parse_error() {
    let r = get_changesets_list("<osmChange><modify changeset=\"1\"></osmChange>");
    assert!(r.is_err());
    assert!(!r.unwrap_err().message.is_empty());
}

#[test]
fn diff_without_changesets() {
    assert_eq!(get_changesets_list("<osmChange/>").unwrap(), Vec::<String>::new());
}

fn attr(name: &str, value: &str) -> XmlAttribute {
    XmlAttribute { local_name: name.to_string(), value: value.to_string() }
}

#[test]
fn collect_stops_at_end_of_document() {
    let items = vec![
        XmlItem::StartElement(vec![attr("changeset", "1"), attr("id", "2"), attr("changeset", "3")]),
        XmlItem::Other,
        XmlItem::StartElement(vec![attr("changeset", "1")]),
        XmlItem::EndDocument,
        XmlItem::StartElement(vec![attr("changeset", "9")]),
        XmlItem::Failure("late".to_string()),
    ];
    let ids = collect_changeset_ids(&items).unwrap();
    assert_eq!(sorted(ids), vec!["1".to_string(), "3".to_string()]);
}

#[test]
fn collect_reports_first_error() {
    let items = vec![
        XmlItem::StartElement(vec![attr("changeset", "1")]),
        XmlItem::Failure("1:5 Unexpected end of stream".to_string()),
        XmlItem::Failure("second".to_string()),
    ];
    let e = collect_changeset_ids(&items).unwrap_err();
    assert_eq!(e.message, "1:5 Unexpected end of stream");
}

fn ids(n: usize) -> Vec<String> {
    (0..n).map(|i| i.to_string()).collect()
}

#[test]
fn batches_of_twenty() {
    let list = ids(45);
    let chunks = chunk_changesets(&list, CHANGESETS_PER_REQUEST);
    assert_eq!(chunks.iter().map(|c| c.len()).collect::<Vec<_>>(), vec![20, 20, 5]);
    assert_eq!(chunks.concat(), list);
    let expected: Vec<Vec<String>> = list.chunks(20).map(|c| c.to_vec()).collect();
    assert_eq!(chunks, expected);
    assert!(chunk_changesets(&ids(0), 20).is_empty());
    assert_eq!(chunk_changesets(&ids(40), 20).len(), 2);
}

#[test]
fn api_address() {
    assert_eq!(
        changesets_url(&ids(3)),
        "https://api.openstreetmap.org/api/0.6/changesets?changesets=0,1,2"
    );
    assert_eq!(changesets_url(&[]), "https://api.openstreetmap.org/api/0.6/changesets?changesets=");
}

fn tag(k: &str, v: &str) -> Tag {
    Tag { k: k.to_string(), v: v.to_string() }
}

#[test]
fn tag_lookup() {
    let tags = Some(vec![tag("created_by", "JOSM"), tag("comment", "fix"), tag("comment", "later")]);
    assert_eq!(get_tag_value(&tags, "comment"), "fix");
    assert_eq!(get_tag_value(&tags, "created_by"), "JOSM");
    assert_eq!(get_tag_value(&tags, "source"), "");
    assert_eq!(get_tag_value(&None, "comment"), "");
}

#[test]
fn page_names() {
    assert_eq!(changeset_title(151234567), "Changeset #151234567");
    assert_eq!(changeset_file_name(151234567), "151234567.md");
    assert_eq!(front_matter("id: 1\n"), "---\nid: 1\n\n---\n");
}

#[test]
fn two_lists_of_one_document_agree() {
    let a = sorted(get_changesets_list(DIFF).unwrap());
    let b = sorted(get_changesets_list(DIFF).unwrap());
    assert_eq!(a, b);
    let bad = "<osmChange><modify changeset=\"1\"></osmChange>";
    assert_eq!(get_changesets_list(bad).unwrap_err().message, get_changesets_list(bad).unwrap_err().message);
}
