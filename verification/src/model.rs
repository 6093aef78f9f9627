//! The data the feed reads: what an Overpass query answers with and the tags
//! of a changeset, held as the plain values that the logic works on.
use vstd::prelude::*;

verus! {

/// A node reference of a way, by its OpenStreetMap node id.
#[derive(Debug, Clone, Copy, PartialEq, Eq, Structural)]
pub struct Node {
    pub ref_id: i64,
}

/// An OpenStreetMap way: its id and the nodes it runs through, in order.
#[derive(Debug)]
pub struct Way {
    pub id: i64,
    pub nodes: Vec<Node>,
}

/// A key/value tag as Overpass reports it.
#[derive(Debug)]
pub struct OverpassTag {
    pub k: String,
    pub v: String,
}

/// The metadata of an Overpass answer.
#[derive(Debug)]
pub struct Meta {
    pub osm_base: String,
}

/// An Overpass answer: its header fields and the ways it holds.
#[derive(Debug)]
pub struct Overpass {
    pub version: String,
    pub generator: String,
    pub note: Option<String>,
    pub meta: Meta,
    pub ways: Vec<Way>,
}

/// A key/value tag of a changeset.
#[derive(Debug)]
pub struct Tag {
    pub k: String,
    pub v: String,
}

} // verus!
