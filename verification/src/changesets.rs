//! Changesets: which ones a replication diff touches, how they are asked
//! for in batches, and what the feed writes for each of them.
use vstd::prelude::*;

use crate::model::Tag;
use crate::replication::concat;
use crate::text::{decimal, u64_to_decimal};

verus! {

/// An attribute of an XML start tag: its local name and its value.
#[derive(Debug)]
pub struct XmlAttribute {
    pub local_name: String,
    pub value: String,
}

/// What a pull parser reports, as far as the changeset list needs it.
#[derive(Debug)]
pub enum XmlItem {
    /// A start tag, with its attributes in order.
    StartElement(Vec<XmlAttribute>),
    /// The end of the document.
    EndDocument,
    /// A parse error, with the parser's message.
    Failure(String),
    /// Anything else (text, end tags, comments, ...).
    Other,
}

/// The plain value of an [`XmlItem`].
pub enum XmlItemView {
    StartElement(Seq<(Seq<char>, Seq<char>)>),
    EndDocument,
    Failure(Seq<char>),
    Other,
}

/// The plain value of a parser report.
pub open spec fn item_view(e: XmlItem) -> XmlItemView {
    match e {
        XmlItem::StartElement(attrs) => XmlItemView::StartElement(
            Seq::new(attrs@.len(), |j: int| (attrs@[j].local_name@, attrs@[j].value@)),
        ),
        XmlItem::EndDocument => XmlItemView::EndDocument,
        XmlItem::Failure(m) => XmlItemView::Failure(m@),
        XmlItem::Other => XmlItemView::Other,
    }
}

/// The plain values of a list of parser reports.
pub open spec fn items_view(items: Seq<XmlItem>) -> Seq<XmlItemView> {
    Seq::new(items.len(), |i: int| item_view(items[i]))
}

/// What `xml::reader::EventReader` reports for a document, up to and
/// including its end or its first error.
pub uninterp spec fn xml_items(text: Seq<char>) -> Seq<XmlItemView>;

/// Runs the `xml-rs` pull parser (`EventReader::from_str`) over a whole
/// document and keeps, of each event, what the changeset list reads.
/// Claimed: the reports equal `xml_items` of the text; the event stream
/// stops after the end of the document or the first error, as the
/// parser's iterator does. What `xml_items` is on a given text, and on which
/// texts the parser panics, is not stated.
#[verifier::external_body]
fn read_xml_items(text: &str) -> (items: Vec<XmlItem>)
    ensures
        items_view(items@) == xml_items(text@),
{
    xml::reader::EventReader::from_str(text).into_iter().map(|event| match event {
        Ok(xml::reader::XmlEvent::StartElement { attributes, .. }) => XmlItem::StartElement(
            attributes.into_iter().map(|a| XmlAttribute { local_name: a.name.local_name, value: a.value }).collect(),
        ),
        Ok(xml::reader::XmlEvent::EndDocument) => XmlItem::EndDocument,
        Ok(_) => XmlItem::Other,
        Err(e) => XmlItem::Failure(e.to_string()),
    }).collect()
}

/// The values of the `changeset` attributes among `attrs`, in order.
pub open spec fn changeset_attributes(attrs: Seq<(Seq<char>, Seq<char>)>) -> Seq<Seq<char>>
    decreases attrs.len(),
{
    if attrs.len() == 0 {
        seq![]
    } else {
        let rest = changeset_attributes(attrs.drop_last());
        if attrs.last().0 == "changeset"@ {
            rest.push(attrs.last().1)
        } else {
            rest
        }
    }
}

/// The values of all `changeset` attributes of the start tags before the end
/// of the document, in document order; or the message of the first parse
/// error met before that end.
pub open spec fn changeset_values(items: Seq<XmlItemView>) -> Result<Seq<Seq<char>>, Seq<char>>
    decreases items.len(),
{
    if items.len() == 0 {
        Ok(seq![])
    } else {
        match items[0] {
            XmlItemView::EndDocument => Ok(seq![]),
            XmlItemView::Failure(m) => Err(m),
            XmlItemView::StartElement(attrs) => match changeset_values(items.drop_first()) {
                Ok(vs) => Ok(changeset_attributes(attrs) + vs),
                Err(m) => Err(m),
            },
            XmlItemView::Other => changeset_values(items.drop_first()),
        }
    }
}

/// A parse error of a replication diff, with the parser's message.
#[derive(Debug)]
pub struct XmlError {
    pub message: String,
}

/// `ids` lists the values `vs` holds, each once (in no promised order).
pub open spec fn lists_each_once(ids: Seq<String>, vs: Seq<Seq<char>>) -> bool {
    &&& forall|a: int, b: int| 0 <= a < b < ids.len() ==> ids[a]@ != ids[b]@
    &&& forall|a: int| 0 <= a < ids.len() ==> vs.contains(#[trigger] ids[a]@)
    &&& forall|v: Seq<char>| #[trigger] vs.contains(v) ==> exists|a: int| 0 <= a < ids.len() && ids[a]@ == v
}

/// Whether one of `ids` reads `v`.
fn contains_string(ids: &Vec<String>, v: &String) -> (b: bool)
    ensures
        b == exists|a: int| 0 <= a < ids@.len() && ids@[a]@ == v@,
{
    let mut i: usize = 0;
    while i < ids.len()
        invariant
            i <= ids@.len(),
            forall|a: int| 0 <= a < i ==> ids@[a]@ != v@,
        decreases ids@.len() - i,
    {
        if ids[i] == *v {
            return true;
        }
        i = i + 1;
    }
    false
}

/// Adds the `changeset` attribute values of one start tag to `ids`, each
/// value at most once.
fn add_changeset_attributes(attrs: &Vec<XmlAttribute>, ids: &mut Vec<String>, seen: Ghost<Seq<Seq<char>>>)
    requires
        lists_each_once(old(ids)@, seen@),
    ensures
        lists_each_once(
            final(ids)@,
            seen@ + changeset_attributes(Seq::new(attrs@.len(), |j: int| (attrs@[j].local_name@, attrs@[j].value@))),
        ),
{
    let ghost view = Seq::new(attrs@.len(), |j: int| (attrs@[j].local_name@, attrs@[j].value@));
    let key = String::from_str("changeset");
    let mut i: usize = 0;
    while i < attrs.len()
        invariant
            i <= attrs@.len(),
            view == Seq::new(attrs@.len(), |j: int| (attrs@[j].local_name@, attrs@[j].value@)),
            key@ == "changeset"@,
            lists_each_once(ids@, seen@ + changeset_attributes(view.take(i as int))),
        decreases attrs@.len() - i,
    {
        let ghost before = seen@ + changeset_attributes(view.take(i as int));
        let ghost after = seen@ + changeset_attributes(view.take(i + 1));
        assert(view.take(i + 1).drop_last() =~= view.take(i as int));
        let a = &attrs[i];
        if a.local_name == key {
            assert(after =~= before.push(a.value@));
            if !contains_string(ids, &a.value) {
                let ghost old_ids = ids@;
                ids.push(a.value.clone());
                assert forall|v: Seq<char>| #[trigger] after.contains(v) implies exists|b: int|
                    0 <= b < ids@.len() && ids@[b]@ == v by {
                    if v == a.value@ {
                        assert(ids@[old_ids.len() as int]@ == v);
                    } else {
                        let k = choose|k: int| 0 <= k < after.len() && after[k] == v;
                        assert(before.contains(v)) by {
                            assert(before[k] == v);
                        }
                        let b = choose|b: int| 0 <= b < old_ids.len() && old_ids[b]@ == v;
                        assert(ids@[b]@ == v);
                    }
                }
                assert forall|b: int| 0 <= b < ids@.len() implies after.contains(#[trigger] ids@[b]@) by {
                    if b < old_ids.len() {
                        let k = choose|k: int| 0 <= k < before.len() && before[k] == ids@[b]@;
                        assert(after[k] == ids@[b]@);
                    } else {
                        assert(after[before.len() as int] == a.value@);
                    }
                }
            } else {
                assert forall|v: Seq<char>| #[trigger] after.contains(v) implies exists|b: int|
                    0 <= b < ids@.len() && ids@[b]@ == v by {
                    if v != a.value@ {
                        let k = choose|k: int| 0 <= k < after.len() && after[k] == v;
                        assert(before[k] == v);
                        assert(before.contains(v));
                    }
                }
                assert forall|b: int| 0 <= b < ids@.len() implies after.contains(#[trigger] ids@[b]@) by {
                    let k = choose|k: int| 0 <= k < before.len() && before[k] == ids@[b]@;
                    assert(after[k] == ids@[b]@);
                }
            }
        } else {
            assert(after =~= before);
        }
        i = i + 1;
    }
    assert(view.take(attrs@.len() as int) =~= view);
}

/// Lists, each once, the changesets that the start tags of a parsed
/// document name in their `changeset` attributes, up to the end of the
/// document; fails with the message of the first parse error before it
/// (`get_changesets_list` after the parse).
pub fn collect_changeset_ids(items: &Vec<XmlItem>) -> (r: Result<Vec<String>, XmlError>)
    ensures
        match changeset_values(items_view(items@)) {
            Ok(vs) => r matches Ok(ids) && lists_each_once(ids@, vs),
            Err(m) => r matches Err(e) && e.message@ == m,
        },
{
    let ghost all = items_view(items@);
    let mut ids: Vec<String> = Vec::new();
    let ghost mut seen: Seq<Seq<char>> = seq![];
    let n: usize = items.len();
    let mut i: usize = 0;
    assert(all.skip(0) =~= all);
    while i < n
        invariant
            i <= n == items@.len(),
            all == items_view(items@),
            lists_each_once(ids@, seen),
            changeset_values(all) == match changeset_values(all.skip(i as int)) {
                Ok(vs) => Ok(seen + vs),
                Err(m) => Err(m),
            },
        decreases n - i,
    {
        let ghost rest = all.skip(i as int);
        assert(rest.drop_first() =~= all.skip(i + 1));
        assert(rest[0] == item_view(items@[i as int]));
        match &items[i] {
            XmlItem::EndDocument => {
                assert(seen + Seq::<Seq<char>>::empty() =~= seen);
                return Ok(ids);
            },
            XmlItem::Failure(m) => {
                return Err(XmlError { message: m.clone() });
            },
            XmlItem::StartElement(attrs) => {
                let ghost attr_view = Seq::new(
                    attrs@.len(),
                    |j: int| (attrs@[j].local_name@, attrs@[j].value@),
                );
                add_changeset_attributes(attrs, &mut ids, Ghost(seen));
                proof {
                    let old_seen = seen;
                    seen = seen + changeset_attributes(attr_view);
                    match changeset_values(all.skip(i + 1)) {
                        Ok(vs) => {
                            assert(old_seen + (changeset_attributes(attr_view) + vs) =~= seen + vs);
                        },
                        Err(_) => {},
                    }
                }
            },
            XmlItem::Other => {},
        }
        i = i + 1;
    }
    assert(all.skip(n as int) =~= Seq::<XmlItemView>::empty());
    assert(seen + Seq::<Seq<char>>::empty() =~= seen);
    Ok(ids)
}

/// `r` is what the changeset list of the document `text` may be: each
/// changeset it names listed once, or the first parse error.
pub open spec fn is_changeset_list_of(text: Seq<char>, r: Result<Vec<String>, XmlError>) -> bool {
    match changeset_values(xml_items(text)) {
        Ok(vs) => r matches Ok(ids) && lists_each_once(ids@, vs),
        Err(m) => r matches Err(e) && e.message@ == m,
    }
}

/// Lists, each once, the changesets a replication diff touches
/// (`get_changesets_list`).
pub fn get_changesets_list(xml_data: &str) -> (r: Result<Vec<String>, XmlError>)
    ensures
        is_changeset_list_of(xml_data@, r),
{
    let items = read_xml_items(xml_data);
    collect_changeset_ids(&items)
}

} // verus!

verus! {

/// How many changesets one API request asks for, so that the request line
/// stays short enough for the server.
pub const CHANGESETS_PER_REQUEST: usize = 20;

/// `ids` cut, in order, into pieces of `size` (the last one may be
/// shorter), as `slice::chunks` does.
pub open spec fn chunks(ids: Seq<String>, size: nat) -> Seq<Seq<String>>
    decreases ids.len(),
{
    if ids.len() == 0 || size == 0 {
        seq![]
    } else if ids.len() <= size {
        seq![ids]
    } else {
        seq![ids.take(size as int)] + chunks(ids.skip(size as int), size)
    }
}

/// The pieces of a chunking, put back together.
pub open spec fn joined(pieces: Seq<Seq<String>>) -> Seq<String>
    decreases pieces.len(),
{
    if pieces.len() == 0 {
        seq![]
    } else {
        pieces[0] + joined(pieces.drop_first())
    }
}

/// The `Vec`s of a `Vec<Vec<String>>` as sequences.
pub open spec fn vecs_view(v: Seq<Vec<String>>) -> Seq<Seq<String>> {
    Seq::new(v.len(), |i: int| v[i]@)
}

/// Clones `ids[from..to]`.
fn clone_range(ids: &Vec<String>, from: usize, to: usize) -> (r: Vec<String>)
    requires
        from <= to <= ids@.len(),
    ensures
        r@ == ids@.subrange(from as int, to as int),
{
    let mut r: Vec<String> = Vec::new();
    let mut i: usize = from;
    while i < to
        invariant
            from <= i <= to <= ids@.len(),
            r@ == ids@.subrange(from as int, i as int),
        decreases to - i,
    {
        r.push(ids[i].clone());
        assert(r@ =~= ids@.subrange(from as int, i + 1));
        i = i + 1;
    }
    r
}

/// Cuts a changeset list into request batches (`slice::chunks` in `main`).
pub fn chunk_changesets(ids: &Vec<String>, size: usize) -> (r: Vec<Vec<String>>)
    requires
        size > 0,
    ensures
        vecs_view(r@) == chunks(ids@, size as nat),
{
    let n: usize = ids.len();
    let mut r: Vec<Vec<String>> = Vec::new();
    let mut i: usize = 0;
    assert(ids@.skip(0) =~= ids@);
    while i < n
        invariant
            i <= n == ids@.len(),
            size > 0,
            chunks(ids@, size as nat) == vecs_view(r@) + chunks(ids@.skip(i as int), size as nat),
        decreases n - i,
    {
        let rest = n - i;
        let end: usize = if rest <= size {
            n
        } else {
            i + size
        };
        let piece = clone_range(ids, i, end);
        let ghost tail = ids@.skip(i as int);
        if rest <= size {
            assert(tail =~= ids@.subrange(i as int, end as int));
        } else {
            assert(tail.take(size as int) =~= ids@.subrange(i as int, end as int));
            assert(tail.skip(size as int) =~= ids@.skip(end as int));
        }
        let ghost before = vecs_view(r@);
        r.push(piece);
        assert(vecs_view(r@) =~= before.push(ids@.subrange(i as int, end as int)));
        if rest <= size {
            assert(ids@.skip(end as int) =~= Seq::<String>::empty());
            assert(before + seq![ids@.subrange(i as int, end as int)] =~= vecs_view(r@) + chunks(
                ids@.skip(end as int),
                size as nat,
            ));
        } else {
            assert(before + (seq![ids@.subrange(i as int, end as int)] + chunks(
                ids@.skip(end as int),
                size as nat,
            )) =~= vecs_view(r@) + chunks(ids@.skip(end as int), size as nat));
        }
        i = end;
    }
    assert(ids@.skip(n as int) =~= Seq::<String>::empty());
    assert(vecs_view(r@) + Seq::<Seq<String>>::empty() =~= vecs_view(r@));
    r
}

/// Law: the batches put back together are the list, and each batch holds
/// between one and `size` changesets.
pub proof fn law_chunks_partition(ids: Seq<String>, size: nat)
    requires
        size > 0,
    ensures
        joined(chunks(ids, size)) == ids,
        forall|c: int|
            0 <= c < chunks(ids, size).len() ==> 1 <= (#[trigger] chunks(ids, size)[c]).len() <= size,
    decreases ids.len(),
{
    if ids.len() == 0 {
    } else if ids.len() <= size {
        let p = chunks(ids, size);
        assert(p.drop_first() =~= Seq::<Seq<String>>::empty());
        assert(joined(p.drop_first()) == Seq::<String>::empty());
        assert(joined(p) =~= ids + Seq::<String>::empty());
    } else {
        law_chunks_partition(ids.skip(size as int), size);
        let p = chunks(ids, size);
        let rest = chunks(ids.skip(size as int), size);
        assert(p.drop_first() =~= rest);
        assert(joined(p) == ids.take(size as int) + joined(rest));
        assert(ids.take(size as int) + ids.skip(size as int) =~= ids);
        assert forall|c: int| 0 <= c < p.len() implies 1 <= (#[trigger] p[c]).len() <= size by {
            if c > 0 {
                assert(p[c] == rest[c - 1]);
            }
        }
    }
}

/// `list` joined with `sep` between neighbours (`[String]::join`).
pub open spec fn join_with(list: Seq<Seq<char>>, sep: Seq<char>) -> Seq<char>
    decreases list.len(),
{
    if list.len() == 0 {
        seq![]
    } else if list.len() == 1 {
        list[0]
    } else {
        join_with(list.drop_last(), sep) + sep + list.last()
    }
}

/// The plain values of a list of strings.
pub open spec fn strings_view(list: Seq<String>) -> Seq<Seq<char>> {
    Seq::new(list.len(), |i: int| list[i]@)
}

/// The API address that asks for the changesets `chunk`, comma-separated
/// (`get_osm_data` before the download).
pub fn changesets_url(chunk: &[String]) -> (url: String)
    ensures
        url@ == "https://api.openstreetmap.org/api/0.6/changesets?changesets="@ + join_with(
            strings_view(chunk@),
            ","@,
        ),
{
    let mut url = String::from_str("https://api.openstreetmap.org/api/0.6/changesets?changesets=");
    let ghost base = url@;
    let ghost list = strings_view(chunk@);
    let mut i: usize = 0;
    while i < chunk.len()
        invariant
            i <= chunk@.len(),
            list == strings_view(chunk@),
            url@ == base + join_with(list.take(i as int), ","@),
        decreases chunk@.len() - i,
    {
        assert(list.take(i + 1).drop_last() =~= list.take(i as int));
        if i > 0 {
            url.append(",");
        } else {
            assert(join_with(list.take(i as int), ","@) =~= Seq::<char>::empty());
        }
        url.append(chunk[i].as_str());
        assert(url@ =~= base + join_with(list.take(i + 1), ","@));
        i = i + 1;
    }
    assert(list.take(chunk@.len() as int) =~= list);
    url
}

/// The value of the first tag named `name`, or the empty text when there
/// is none.
pub open spec fn tag_value(tags: Seq<Tag>, name: Seq<char>) -> Seq<char>
    decreases tags.len(),
{
    if tags.len() == 0 {
        seq![]
    } else if tags[0].k@ == name {
        tags[0].v@
    } else {
        tag_value(tags.drop_first(), name)
    }
}

/// The value of a changeset's tag `tag_name`, empty when the changeset has
/// no such tag or no tags at all (`get_tag_value`).
pub fn get_tag_value(tags: &Option<Vec<Tag>>, tag_name: &str) -> (v: String)
    ensures
        v@ == match tags {
            Some(ts) => tag_value(ts@, tag_name@),
            None => Seq::<char>::empty(),
        },
{
    match tags {
        None => String::new(),
        Some(ts) => {
            let name = String::from_str(tag_name);
            let mut i: usize = 0;
            assert(ts@.skip(0) =~= ts@);
            while i < ts.len()
                invariant
                    i <= ts@.len(),
                    name@ == tag_name@,
                    *tags == Some(*ts),
                    tag_value(ts@, tag_name@) == tag_value(ts@.skip(i as int), tag_name@),
                decreases ts@.len() - i,
            {
                assert(ts@.skip(i as int).drop_first() =~= ts@.skip(i + 1));
                assert(ts@.skip(i as int)[0] == ts@[i as int]);
                if ts[i].k == name {
                    return ts[i].v.clone();
                }
                i = i + 1;
            }
            String::new()
        },
    }
}

/// The title of a changeset page.
pub fn changeset_title(id: u64) -> (s: String)
    ensures
        s@ == "Changeset #"@ + decimal(id as nat),
{
    let digits = u64_to_decimal(id);
    concat("Changeset #", digits.as_str())
}

/// The file name of a changeset page.
pub fn changeset_file_name(id: u64) -> (s: String)
    ensures
        s@ == decimal(id as nat) + ".md"@,
{
    let mut s = u64_to_decimal(id);
    s.append(".md");
    s
}

/// A page body: the YAML front matter between `---` lines (`dump_data`
/// around the serialisation).
pub fn front_matter(yaml: &str) -> (s: String)
    ensures
        s@ == "---\n"@ + yaml@ + "\n---\n"@,
{
    let mut s = concat("---\n", yaml);
    s.append("\n---\n");
    s
}

} // verus!

verus! {

/// Law: two changeset lists of the same document agree: both succeed or
/// both fail, two successes list the same changesets each once (the same
/// values, as many of them, in some order), and two failures carry the same
/// message.
pub proof fn law_changeset_list_determined(
    text: Seq<char>,
    r1: Result<Vec<String>, XmlError>,
    r2: Result<Vec<String>, XmlError>,
)
    requires
        is_changeset_list_of(text, r1),
        is_changeset_list_of(text, r2),
    ensures
        r1 is Ok <==> r2 is Ok,
        r1 matches Ok(a) ==> r2 matches Ok(b) && strings_view(a@).no_duplicates()
            && strings_view(b@).no_duplicates() && strings_view(a@).to_set() == strings_view(
            b@,
        ).to_set() && strings_view(a@).len() == strings_view(b@).len(),
        r1 matches Err(e1) ==> r2 matches Err(e2) && e1.message@ == e2.message@,
{
    match changeset_values(xml_items(text)) {
        Ok(vs) => {
            let a = r1->Ok_0;
            let b = r2->Ok_0;
            let va = strings_view(a@);
            let vb = strings_view(b@);
            assert forall|x: Seq<char>| va.to_set().contains(x) <==> vb.to_set().contains(x) by {
                if va.to_set().contains(x) {
                    let i = choose|i: int| 0 <= i < va.len() && va[i] == x;
                    assert(vs.contains(a@[i]@));
                    let j = choose|j: int| 0 <= j < b@.len() && b@[j]@ == a@[i]@;
                    assert(vb[j] == x);
                }
                if vb.to_set().contains(x) {
                    let j = choose|j: int| 0 <= j < vb.len() && vb[j] == x;
                    assert(vs.contains(b@[j]@));
                    let i = choose|i: int| 0 <= i < a@.len() && a@[i]@ == b@[j]@;
                    assert(va[i] == x);
                }
            }
            assert(va.to_set() =~= vb.to_set());
            va.unique_seq_to_set();
            vb.unique_seq_to_set();
        },
        Err(_) => {},
    }
}

} // verus!

verus! {

/// Law: the `changeset` values of a start tag are exactly the values of its
/// attributes named `changeset`, wherever they stand among the others.
pub proof fn law_changeset_attributes(attrs: Seq<(Seq<char>, Seq<char>)>)
    ensures
        forall|k: int|
            0 <= k < attrs.len() && (#[trigger] attrs[k]).0 == "changeset"@ ==> changeset_attributes(
                attrs,
            ).contains(attrs[k].1),
        forall|v: Seq<char>|
            #[trigger] changeset_attributes(attrs).contains(v) ==> exists|k: int|
                0 <= k < attrs.len() && attrs[k].0 == "changeset"@ && attrs[k].1 == v,
    decreases attrs.len(),
{
    if attrs.len() > 0 {
        let init = attrs.drop_last();
        law_changeset_attributes(init);
        let rest = changeset_attributes(init);
        let all = changeset_attributes(attrs);
        assert forall|k: int| 0 <= k < attrs.len() && (#[trigger] attrs[k]).0 == "changeset"@ implies all.contains(
            attrs[k].1,
        ) by {
            if k == attrs.len() - 1 {
                assert(all[all.len() - 1] == attrs[k].1);
            } else {
                assert(init[k] == attrs[k]);
                let i = choose|i: int| 0 <= i < rest.len() && rest[i] == attrs[k].1;
                assert(all[i] == rest[i]);
            }
        }
        assert forall|v: Seq<char>| #[trigger] all.contains(v) implies exists|k: int|
            0 <= k < attrs.len() && attrs[k].0 == "changeset"@ && attrs[k].1 == v by {
            let i = choose|i: int| 0 <= i < all.len() && all[i] == v;
            if i < rest.len() {
                assert(rest[i] == v);
                assert(rest.contains(v));
                let k = choose|k: int| 0 <= k < init.len() && init[k].0 == "changeset"@ && init[k].1 == v;
                assert(attrs[k] == init[k]);
            } else {
                assert(attrs[attrs.len() - 1].1 == v);
            }
        }
    }
}

/// `v` is the value of an attribute named `changeset` of a start tag
/// among `items`.
pub open spec fn names_changeset(items: Seq<XmlItemView>, v: Seq<char>) -> bool {
    exists|k: int, a: int|
        0 <= k < items.len() && items[k] is StartElement && 0 <= a < items[k]->StartElement_0.len()
            && items[k]->StartElement_0[a].0 == "changeset"@ && items[k]->StartElement_0[a].1 == v
}

/// No end of the document among the first `k` reports.
pub open spec fn no_end_before(items: Seq<XmlItemView>, k: int) -> bool {
    forall|j: int| 0 <= j < k ==> !(#[trigger] items[j] is EndDocument)
}

/// Law: when a document's changesets are listed, every attribute named
/// `changeset` of every start tag before the end of the document is among
/// them, and every listed value is such an attribute's value.
pub proof fn law_changeset_values_cover(items: Seq<XmlItemView>)
    ensures
        changeset_values(items) matches Ok(vs) ==> {
            &&& forall|k: int, a: int|
                0 <= k < items.len() && no_end_before(items, k) && (#[trigger] items[k]) is StartElement
                    && 0 <= a < items[k]->StartElement_0.len() && (#[trigger] items[k]->StartElement_0[a]).0
                    == "changeset"@ ==> vs.contains(items[k]->StartElement_0[a].1)
            &&& forall|v: Seq<char>| #[trigger] vs.contains(v) ==> names_changeset(items, v)
        },
    decreases items.len(),
{
    if items.len() > 0 {
        let rest = items.drop_first();
        law_changeset_values_cover(rest);
        match items[0] {
            XmlItemView::StartElement(attrs) => {
                law_changeset_attributes(attrs);
                match changeset_values(rest) {
                    Ok(rvs) => {
                        let vs = changeset_attributes(attrs) + rvs;
                        let here = changeset_attributes(attrs);
                        assert forall|k: int, a: int|
                            0 <= k < items.len() && no_end_before(items, k) && (#[trigger] items[k]) is StartElement
                                && 0 <= a < items[k]->StartElement_0.len() && (
                            #[trigger] items[k]->StartElement_0[a]).0 == "changeset"@ implies vs.contains(
                            items[k]->StartElement_0[a].1,
                        ) by {
                            let x = items[k]->StartElement_0[a].1;
                            if k == 0 {
                                assert(attrs[a] == items[k]->StartElement_0[a]);
                                let i = choose|i: int| 0 <= i < here.len() && here[i] == x;
                                assert(vs[i] == x);
                            } else {
                                assert(rest[k - 1] == items[k]);
                                assert(no_end_before(rest, k - 1)) by {
                                    assert forall|j: int| 0 <= j < k - 1 implies !(#[trigger] rest[j] is EndDocument) by {
                                        assert(rest[j] == items[j + 1]);
                                    }
                                }
                                assert(rest[k - 1]->StartElement_0[a] == items[k]->StartElement_0[a]);
                                let i = choose|i: int| 0 <= i < rvs.len() && rvs[i] == x;
                                assert(vs[here.len() + i] == x);
                            }
                        }
                        assert forall|v: Seq<char>| #[trigger] vs.contains(v) implies names_changeset(items, v) by {
                            let i = choose|i: int| 0 <= i < vs.len() && vs[i] == v;
                            if i < here.len() {
                                assert(here[i] == v);
                                assert(here.contains(v));
                                let a = choose|a: int| 0 <= a < attrs.len() && attrs[a].0 == "changeset"@ && attrs[a].1 == v;
                                assert(items[0]->StartElement_0[a] == attrs[a]);
                                assert(names_changeset(items, v));
                            } else {
                                assert(rvs[i - here.len()] == v);
                                assert(rvs.contains(v));
                                assert(names_changeset(rest, v));
                                let (k, a) = choose|k: int, a: int|
                                    0 <= k < rest.len() && rest[k] is StartElement && 0 <= a
                                        < rest[k]->StartElement_0.len() && rest[k]->StartElement_0[a].0
                                        == "changeset"@ && rest[k]->StartElement_0[a].1 == v;
                                assert(items[k + 1] == rest[k]);
                            }
                        }
                    },
                    Err(_) => {},
                }
            },
            XmlItemView::Other => {
                match changeset_values(rest) {
                    Ok(vs) => {
                        assert forall|k: int, a: int|
                            0 <= k < items.len() && no_end_before(items, k) && (#[trigger] items[k]) is StartElement
                                && 0 <= a < items[k]->StartElement_0.len() && (
                            #[trigger] items[k]->StartElement_0[a]).0 == "changeset"@ implies vs.contains(
                            items[k]->StartElement_0[a].1,
                        ) by {
                            assert(k != 0);
                            assert(rest[k - 1] == items[k]);
                            assert(no_end_before(rest, k - 1)) by {
                                assert forall|j: int| 0 <= j < k - 1 implies !(#[trigger] rest[j] is EndDocument) by {
                                    assert(rest[j] == items[j + 1]);
                                }
                            }
                            assert(rest[k - 1]->StartElement_0[a] == items[k]->StartElement_0[a]);
                        }
                        assert forall|v: Seq<char>| #[trigger] vs.contains(v) implies names_changeset(items, v) by {
                            assert(names_changeset(rest, v));
                            let (k, a) = choose|k: int, a: int|
                                0 <= k < rest.len() && rest[k] is StartElement && 0 <= a
                                    < rest[k]->StartElement_0.len() && rest[k]->StartElement_0[a].0
                                    == "changeset"@ && rest[k]->StartElement_0[a].1 == v;
                            assert(items[k + 1] == rest[k]);
                        }
                    },
                    Err(_) => {},
                }
            },
            XmlItemView::EndDocument => {
                assert forall|k: int, a: int|
                    0 <= k < items.len() && no_end_before(items, k) && (#[trigger] items[k]) is StartElement
                        && 0 <= a < items[k]->StartElement_0.len() && (
                    #[trigger] items[k]->StartElement_0[a]).0 == "changeset"@ implies Seq::<Seq<char>>::empty().contains(
                    items[k]->StartElement_0[a].1,
                ) by {
                    if k > 0 {
                        assert(!(items[0] is EndDocument));
                    }
                }
            },
            XmlItemView::Failure(_) => {},
        }
    }
}

/// Law: a changeset list of a document holds every value of every
/// attribute named `changeset` on the start tags before the end of the
/// document, and nothing else.
pub proof fn law_changeset_list_complete(text: Seq<char>, ids: Vec<String>)
    requires
        is_changeset_list_of(text, Ok(ids)),
    ensures
        forall|k: int, a: int|
            0 <= k < xml_items(text).len() && no_end_before(xml_items(text), k) && (
            #[trigger] xml_items(text)[k]) is StartElement && 0 <= a < xml_items(
                text,
            )[k]->StartElement_0.len() && (#[trigger] xml_items(text)[k]->StartElement_0[a]).0
                == "changeset"@ ==> exists|b: int|
                0 <= b < ids@.len() && ids@[b]@ == xml_items(text)[k]->StartElement_0[a].1,
        forall|b: int| 0 <= b < ids@.len() ==> names_changeset(xml_items(text), #[trigger] ids@[b]@),
{
    let items = xml_items(text);
    law_changeset_values_cover(items);
    let vs = changeset_values(items)->Ok_0;
    assert forall|k: int, a: int|
        0 <= k < items.len() && no_end_before(items, k) && (#[trigger] items[k]) is StartElement && 0 <= a
            < items[k]->StartElement_0.len() && (#[trigger] items[k]->StartElement_0[a]).0
            == "changeset"@ implies exists|b: int| 0 <= b < ids@.len() && ids@[b]@ == items[k]->StartElement_0[a].1 by {
        assert(vs.contains(items[k]->StartElement_0[a].1));
    }
    assert forall|b: int| 0 <= b < ids@.len() implies names_changeset(items, #[trigger] ids@[b]@) by {
        assert(vs.contains(ids@[b]@));
    }
}

} // verus!

verus! {

/// Law: the value looked up for `name` is that of the first tag whose key
/// is `name`, and empty when no tag has that key.
pub proof fn law_tag_value_first_match(tags: Seq<Tag>, name: Seq<char>)
    ensures
        forall|i: int|
            0 <= i < tags.len() && (#[trigger] tags[i]).k@ == name && (forall|j: int|
                0 <= j < i ==> tags[j].k@ != name) ==> tag_value(tags, name) == tags[i].v@,
        (forall|i: int| 0 <= i < tags.len() ==> (#[trigger] tags[i]).k@ != name) ==> tag_value(
            tags,
            name,
        ) == Seq::<char>::empty(),
    decreases tags.len(),
{
    if tags.len() > 0 {
        let rest = tags.drop_first();
        law_tag_value_first_match(rest, name);
        assert forall|i: int|
            0 <= i < tags.len() && (#[trigger] tags[i]).k@ == name && (forall|j: int|
                0 <= j < i ==> tags[j].k@ != name) implies tag_value(tags, name) == tags[i].v@ by {
            if i > 0 {
                assert(tags[0].k@ != name);
                assert(rest[i - 1] == tags[i]);
                assert forall|j: int| 0 <= j < i - 1 implies rest[j].k@ != name by {
                    assert(rest[j] == tags[j + 1]);
                }
            }
        }
        if forall|i: int| 0 <= i < tags.len() ==> (#[trigger] tags[i]).k@ != name {
            assert(tags[0].k@ != name);
            assert forall|i: int| 0 <= i < rest.len() implies (#[trigger] rest[i]).k@ != name by {
                assert(rest[i] == tags[i + 1]);
            }
        }
    }
}

} // verus!
