//! The regions the feed follows and the Overpass queries that outline
//! them, and when the cached outlines are still good.
use vstd::prelude::*;

use crate::replication::concat;

verus! {

/// The Overpass API endpoint.
pub const OVERPASS_INTERPRETER: &'static str = "https://overpass-api.de/api/interpreter?data=";

/// The Overpass QL program that runs `query` and prints the ways it finds
/// with their geometry, as XML.
pub open spec fn overpass_program(query: Seq<char>) -> Seq<char> {
    "[out:xml]; "@ + query + "; out geom;"@
}

/// The Overpass QL program for a region query (`get_overpass`).
pub fn overpass_query(query: &str) -> (s: String)
    ensures
        s@ == overpass_program(query@),
{
    let mut s = concat("[out:xml]; ", query);
    s.append("; out geom;");
    s
}

/// The address that runs a region query (`get_overpass` before the
/// download).
pub fn overpass_url(query: &str) -> (url: String)
    ensures
        url@ == OVERPASS_INTERPRETER@ + overpass_program(query@),
{
    let program = overpass_query(query);
    concat(OVERPASS_INTERPRETER, program.as_str())
}

/// How many regions the feed follows.
pub const REGION_COUNT: usize = 33;

/// Region `i`: its tag and the Overpass query for its boundary ways.
pub open spec fn region(i: int) -> (Seq<char>, Seq<char>) {
    if i == 0 {
        ("Montenegro"@, "relation['name'='Crna Gora / Црна Гора']['boundary'='administrative']; way(r)"@)
    } else if i == 1 {
        ("Budva"@, "relation['name'='Budva']['boundary'='administrative']; way(r)"@)
    } else if i == 2 {
        ("Budva+"@, "relation['name'='Opština Budva']['boundary'='administrative']; way(r)"@)
    } else if i == 3 {
        ("Kotor"@, "relation['name'='Kotor']['boundary'='administrative']; way(r)"@)
    } else if i == 4 {
        ("Kotor+"@, "relation['name'='Opština Kotor']['boundary'='administrative']; way(r)"@)
    } else if i == 5 {
        ("Cetinje"@, "way['name'='Cetinje']['place'='town']"@)
    } else if i == 6 {
        ("Cetinje+"@, "relation['name'='Prijestolnica Cetinje']['boundary'='administrative']; way(r)"@)
    } else if i == 7 {
        ("Tivat"@, "relation['name'='Tivat']['boundary'='administrative']; way(r)"@)
    } else if i == 8 {
        ("Tivat+"@, "relation['name'='Opština Tivat']['boundary'='administrative']; way(r)"@)
    } else if i == 9 {
        ("Bar"@, "relation['name'='Bar']['boundary'='administrative']; way(r)"@)
    } else if i == 10 {
        ("Bar+"@, "relation['name'='Opština Bar']['boundary'='administrative']; way(r)"@)
    } else if i == 11 {
        ("Podgorica"@, "relation['name'='Podgorica']['boundary'='administrative']; way(r)"@)
    } else if i == 12 {
        ("Podgorica+"@, "relation['name'='Glavni grad Podgorica']['boundary'='administrative']; way(r)"@)
    } else if i == 13 {
        ("Nikšić"@, "relation['name'='Nikšić']['boundary'='administrative']; way(r)"@)
    } else if i == 14 {
        ("Nikšić+"@, "relation['name'='Opština Nikšić']['boundary'='administrative']; way(r)"@)
    } else if i == 15 {
        ("Andrijevica+"@, "relation['name'='Opština Andrijevica']['boundary'='administrative']['admin_level'='6']; way(r)"@)
    } else if i == 16 {
        ("Herceg Novi+"@, "relation['name'='Opština Herceg Novi']['boundary'='administrative']['admin_level'='6']; way(r)"@)
    } else if i == 17 {
        ("Plav+"@, "relation['name'='Opština Plav']['boundary'='administrative']['admin_level'='6']; way(r)"@)
    } else if i == 18 {
        ("Plav"@, "relation['name'='Opština Gusinje']['boundary'='administrative']['admin_level'='6']; way(r)"@)
    } else if i == 19 {
        ("Berane+"@, "relation['name'='Opština Berane']['boundary'='administrative']['admin_level'='6']; way(r)"@)
    } else if i == 20 {
        ("Rožaje+"@, "relation['name'='Opština Rožaje']['boundary'='administrative']['admin_level'='6']; way(r)"@)
    } else if i == 21 {
        ("Petnjica+"@, "relation['name'='Opština Petnjica']['boundary'='administrative']['admin_level'='6']; way(r)"@)
    } else if i == 22 {
        ("Bijelo Polje+"@, "relation['name'='Opština Bijelo Polje']['boundary'='administrative']['admin_level'='6']; way(r)"@)
    } else if i == 23 {
        ("Pljevlja+"@, "relation['name'='Opština Pljevlja']['boundary'='administrative']['admin_level'='6']; way(r)"@)
    } else if i == 24 {
        ("Plužine+"@, "relation['name'='Opština Plužine']['boundary'='administrative']['admin_level'='6']; way(r)"@)
    } else if i == 25 {
        ("Žabljak+"@, "relation['name'='Opština Žabljak']['boundary'='administrative']['admin_level'='6']; way(r)"@)
    } else if i == 26 {
        ("Šavnik+"@, "relation['name'='Opština Šavnik']['boundary'='administrative']['admin_level'='6']; way(r)"@)
    } else if i == 27 {
        ("Mojkovac+"@, "relation['name'='Opština Mojkovac']['boundary'='administrative']['admin_level'='6']; way(r)"@)
    } else if i == 28 {
        ("Kolašin+"@, "relation['name'='Opština Kolašin']['boundary'='administrative']['admin_level'='6']; way(r)"@)
    } else if i == 29 {
        ("Danilovgrad+"@, "relation['name'='Opština Danilovgrad']['boundary'='administrative']['admin_level'='6']; way(r)"@)
    } else if i == 30 {
        ("Tuzi+"@, "relation['name'='Opština Tuzi']['boundary'='administrative']['admin_level'='6']; way(r)"@)
    } else if i == 31 {
        ("Zeta+"@, "relation['name'='Opština Zeta']['boundary'='administrative']['admin_level'='6']; way(r)"@)
    } else {
        ("Ulcinj+"@, "relation['name'='Opština Ulcinj - Komuna e Ulqinit']['boundary'='administrative']['admin_level'='6']; way(r)"@)
    }
}

fn region_entry(name: &str, query: &str) -> (e: (String, String))
    ensures
        e.0@ == name@,
        e.1@ == query@,
{
    (String::from_str(name), String::from_str(query))
}

/// The regions the feed follows, in order: each one's tag and the query for
/// its boundary (the table of `get_bounding_boxes`).
pub fn bounding_box_regions() -> (regions: Vec<(String, String)>)
    ensures
        regions@.len() == REGION_COUNT,
        forall|i: int| 0 <= i < REGION_COUNT ==> (#[trigger] regions@[i].0@, regions@[i].1@) == region(i),
{
    let mut regions: Vec<(String, String)> = Vec::new();
    regions.push(region_entry("Montenegro", "relation['name'='Crna Gora / Црна Гора']['boundary'='administrative']; way(r)"));
    regions.push(region_entry("Budva", "relation['name'='Budva']['boundary'='administrative']; way(r)"));
    regions.push(region_entry("Budva+", "relation['name'='Opština Budva']['boundary'='administrative']; way(r)"));
    regions.push(region_entry("Kotor", "relation['name'='Kotor']['boundary'='administrative']; way(r)"));
    regions.push(region_entry("Kotor+", "relation['name'='Opština Kotor']['boundary'='administrative']; way(r)"));
    regions.push(region_entry("Cetinje", "way['name'='Cetinje']['place'='town']"));
    regions.push(region_entry("Cetinje+", "relation['name'='Prijestolnica Cetinje']['boundary'='administrative']; way(r)"));
    regions.push(region_entry("Tivat", "relation['name'='Tivat']['boundary'='administrative']; way(r)"));
    regions.push(region_entry("Tivat+", "relation['name'='Opština Tivat']['boundary'='administrative']; way(r)"));
    regions.push(region_entry("Bar", "relation['name'='Bar']['boundary'='administrative']; way(r)"));
    regions.push(region_entry("Bar+", "relation['name'='Opština Bar']['boundary'='administrative']; way(r)"));
    regions.push(region_entry("Podgorica", "relation['name'='Podgorica']['boundary'='administrative']; way(r)"));
    regions.push(region_entry("Podgorica+", "relation['name'='Glavni grad Podgorica']['boundary'='administrative']; way(r)"));
    regions.push(region_entry("Nikšić", "relation['name'='Nikšić']['boundary'='administrative']; way(r)"));
    regions.push(region_entry("Nikšić+", "relation['name'='Opština Nikšić']['boundary'='administrative']; way(r)"));
    regions.push(region_entry("Andrijevica+", "relation['name'='Opština Andrijevica']['boundary'='administrative']['admin_level'='6']; way(r)"));
    regions.push(region_entry("Herceg Novi+", "relation['name'='Opština Herceg Novi']['boundary'='administrative']['admin_level'='6']; way(r)"));
    regions.push(region_entry("Plav+", "relation['name'='Opština Plav']['boundary'='administrative']['admin_level'='6']; way(r)"));
    regions.push(region_entry("Plav", "relation['name'='Opština Gusinje']['boundary'='administrative']['admin_level'='6']; way(r)"));
    regions.push(region_entry("Berane+", "relation['name'='Opština Berane']['boundary'='administrative']['admin_level'='6']; way(r)"));
    regions.push(region_entry("Rožaje+", "relation['name'='Opština Rožaje']['boundary'='administrative']['admin_level'='6']; way(r)"));
    regions.push(region_entry("Petnjica+", "relation['name'='Opština Petnjica']['boundary'='administrative']['admin_level'='6']; way(r)"));
    regions.push(region_entry("Bijelo Polje+", "relation['name'='Opština Bijelo Polje']['boundary'='administrative']['admin_level'='6']; way(r)"));
    regions.push(region_entry("Pljevlja+", "relation['name'='Opština Pljevlja']['boundary'='administrative']['admin_level'='6']; way(r)"));
    regions.push(region_entry("Plužine+", "relation['name'='Opština Plužine']['boundary'='administrative']['admin_level'='6']; way(r)"));
    regions.push(region_entry("Žabljak+", "relation['name'='Opština Žabljak']['boundary'='administrative']['admin_level'='6']; way(r)"));
    regions.push(region_entry("Šavnik+", "relation['name'='Opština Šavnik']['boundary'='administrative']['admin_level'='6']; way(r)"));
    regions.push(region_entry("Mojkovac+", "relation['name'='Opština Mojkovac']['boundary'='administrative']['admin_level'='6']; way(r)"));
    regions.push(region_entry("Kolašin+", "relation['name'='Opština Kolašin']['boundary'='administrative']['admin_level'='6']; way(r)"));
    regions.push(region_entry("Danilovgrad+", "relation['name'='Opština Danilovgrad']['boundary'='administrative']['admin_level'='6']; way(r)"));
    regions.push(region_entry("Tuzi+", "relation['name'='Opština Tuzi']['boundary'='administrative']['admin_level'='6']; way(r)"));
    regions.push(region_entry("Zeta+", "relation['name'='Opština Zeta']['boundary'='administrative']['admin_level'='6']; way(r)"));
    regions.push(region_entry("Ulcinj+", "relation['name'='Opština Ulcinj - Komuna e Ulqinit']['boundary'='administrative']['admin_level'='6']; way(r)"));
    regions
}

} // verus!

verus! {

/// A point in time as chrono's `DateTime<Utc>` holds it: whole seconds
/// since the Unix epoch and the nanoseconds after them (at or above one
/// second only within a leap second).
#[derive(Debug, Clone, Copy, PartialEq, Eq, Structural)]
pub struct Timestamp {
    pub secs: i64,
    pub nanos: u32,
}

/// How long cached region outlines stay good: thirty days, in seconds.
pub const CACHE_MAX_AGE_SECS: i64 = 2592000;

/// The first second chrono can represent (the start of year -262143).
pub const EARLIEST_SECS: i64 = -8334601228800;

/// `a` comes after `b` (chrono orders by seconds, then nanoseconds).
pub open spec fn is_after(a: Timestamp, b: Timestamp) -> bool {
    a.secs > b.secs || (a.secs == b.secs && a.nanos > b.nanos)
}

/// Thirty days before `now`, as chrono subtracts a whole number of days: a
/// time within a leap second first moves to the start of the next second.
pub open spec fn month_before(now: Timestamp) -> Timestamp {
    if now.nanos >= 1_000_000_000 {
        Timestamp { secs: (now.secs + 1 - CACHE_MAX_AGE_SECS) as i64, nanos: (now.nanos - 1_000_000_000) as u32 }
    } else {
        Timestamp { secs: (now.secs - CACHE_MAX_AGE_SECS) as i64, nanos: now.nanos }
    }
}

/// Whether outlines cached at `created` are still good at `now`: they were
/// made less than thirty days before (`get_bounding_boxes`).
///
/// `now` is a time chrono can hold (its nanoseconds stay below two
/// seconds), and so is thirty days before it (chrono's subtraction panics
/// otherwise).
pub fn cache_is_fresh(created: Timestamp, now: Timestamp) -> (fresh: bool)
    requires
        now.nanos < 2_000_000_000,
        (if now.nanos >= 1_000_000_000 {
            now.secs + 1
        } else {
            now.secs as int
        }) - CACHE_MAX_AGE_SECS >= EARLIEST_SECS,
    ensures
        fresh == is_after(created, month_before(now)),
{
    let (limit_secs, limit_nanos) = if now.nanos >= 1_000_000_000 {
        (now.secs - CACHE_MAX_AGE_SECS + 1, now.nanos - 1_000_000_000)
    } else {
        (now.secs - CACHE_MAX_AGE_SECS, now.nanos)
    };
    created.secs > limit_secs || (created.secs == limit_secs && created.nanos > limit_nanos)
}

} // verus!

verus! {

/// Law: "comes after" is a strict total order on times, and a later time
/// never has fewer whole seconds.
pub proof fn law_is_after_strict_order(a: Timestamp, b: Timestamp, c: Timestamp)
    ensures
        !is_after(a, a),
        is_after(a, b) ==> !is_after(b, a),
        is_after(a, b) && is_after(b, c) ==> is_after(a, c),
        a != b ==> is_after(a, b) || is_after(b, a),
        is_after(a, b) ==> a.secs >= b.secs,
{
}

/// Law: cached outlines are fresh exactly when they are younger than
/// thirty days: every cache made at least thirty days and a second before
/// `now` is stale, every cache made less than thirty days minus two
/// seconds before is fresh, and a cache made later than a fresh one is
/// fresh too.
pub proof fn law_freshness_by_age(created: Timestamp, later: Timestamp, now: Timestamp)
    requires
        now.nanos < 2_000_000_000,
        (if now.nanos >= 1_000_000_000 {
            now.secs + 1
        } else {
            now.secs as int
        }) - CACHE_MAX_AGE_SECS >= EARLIEST_SECS,
    ensures
        CACHE_MAX_AGE_SECS == 30 * 24 * 60 * 60,
        created.secs < now.secs - CACHE_MAX_AGE_SECS ==> !is_after(created, month_before(now)),
        created.secs >= now.secs - CACHE_MAX_AGE_SECS + 2 ==> is_after(created, month_before(now)),
        is_after(created, month_before(now)) && !is_after(created, later) ==> is_after(
            later,
            month_before(now),
        ),
{
}

} // verus!

verus! {

/// The Overpass query for the ways of the boundary relation named `name`,
/// optionally only at administrative level 6 (municipalities).
pub open spec fn relation_query(name: Seq<char>, municipality_level: bool) -> Seq<char> {
    "relation['name'='"@ + name + "']['boundary'='administrative']"@ + (if municipality_level {
        "['admin_level'='6']"@
    } else {
        seq![]
    }) + "; way(r)"@
}

/// The relation name a region tag stands for: a tag ending in `+` stands
/// for the municipality (`Opština`) of that name, any other tag for itself.
pub open spec fn municipality_name(tag: Seq<char>) -> Seq<char> {
    if tag.len() > 0 && tag.last() == '+' {
        "Opština "@ + tag.drop_last()
    } else {
        tag
    }
}

proof fn lemma_region_0()
    ensures
        region(0).1 == relation_query("Crna Gora / Црна Гора"@, false),
{
    reveal_strlit("Montenegro");
    reveal_strlit("relation['name'='Crna Gora / Црна Гора']['boundary'='administrative']; way(r)");
    reveal_strlit("relation['name'='");
    reveal_strlit("']['boundary'='administrative']");
    reveal_strlit("; way(r)");
    reveal_strlit("Crna Gora / Црна Гора");
    assert(region(0).1 =~= relation_query("Crna Gora / Црна Гора"@, false));
}
proof fn lemma_region_1()
    ensures
        region(1).1 == relation_query(municipality_name(region(1).0), false),
{
    reveal_strlit("Budva");
    reveal_strlit("relation['name'='Budva']['boundary'='administrative']; way(r)");
    reveal_strlit("relation['name'='");
    reveal_strlit("']['boundary'='administrative']");
    reveal_strlit("; way(r)");
    assert(municipality_name(region(1).0) =~= "Budva"@);
    assert(region(1).1 =~= relation_query(municipality_name(region(1).0), false));
}
proof fn lemma_region_2()
    ensures
        region(2).1 == relation_query(municipality_name(region(2).0), false),
{
    reveal_strlit("Budva+");
    reveal_strlit("relation['name'='Opština Budva']['boundary'='administrative']; way(r)");
    reveal_strlit("relation['name'='");
    reveal_strlit("']['boundary'='administrative']");
    reveal_strlit("; way(r)");
    reveal_strlit("Opština ");
    assert(municipality_name(region(2).0) =~= "Opština "@ + "Budva+"@.drop_last());
    assert(region(2).1 =~= relation_query(municipality_name(region(2).0), false));
}
proof fn lemma_region_3()
    ensures
        region(3).1 == relation_query(municipality_name(region(3).0), false),
{
    reveal_strlit("Kotor");
    reveal_strlit("relation['name'='Kotor']['boundary'='administrative']; way(r)");
    reveal_strlit("relation['name'='");
    reveal_strlit("']['boundary'='administrative']");
    reveal_strlit("; way(r)");
    assert(municipality_name(region(3).0) =~= "Kotor"@);
    assert(region(3).1 =~= relation_query(municipality_name(region(3).0), false));
}
proof fn lemma_region_4()
    ensures
        region(4).1 == relation_query(municipality_name(region(4).0), false),
{
    reveal_strlit("Kotor+");
    reveal_strlit("relation['name'='Opština Kotor']['boundary'='administrative']; way(r)");
    reveal_strlit("relation['name'='");
    reveal_strlit("']['boundary'='administrative']");
    reveal_strlit("; way(r)");
    reveal_strlit("Opština ");
    assert(municipality_name(region(4).0) =~= "Opština "@ + "Kotor+"@.drop_last());
    assert(region(4).1 =~= relation_query(municipality_name(region(4).0), false));
}
proof fn lemma_region_6()
    ensures
        region(6).1 == relation_query("Prijestolnica Cetinje"@, false),
{
    reveal_strlit("Cetinje+");
    reveal_strlit("relation['name'='Prijestolnica Cetinje']['boundary'='administrative']; way(r)");
    reveal_strlit("relation['name'='");
    reveal_strlit("']['boundary'='administrative']");
    reveal_strlit("; way(r)");
    reveal_strlit("Prijestolnica Cetinje");
    assert(region(6).1 =~= relation_query("Prijestolnica Cetinje"@, false));
}
proof fn lemma_region_7()
    ensures
        region(7).1 == relation_query(municipality_name(region(7).0), false),
{
    reveal_strlit("Tivat");
    reveal_strlit("relation['name'='Tivat']['boundary'='administrative']; way(r)");
    reveal_strlit("relation['name'='");
    reveal_strlit("']['boundary'='administrative']");
    reveal_strlit("; way(r)");
    assert(municipality_name(region(7).0) =~= "Tivat"@);
    assert(region(7).1 =~= relation_query(municipality_name(region(7).0), false));
}
proof fn lemma_region_8()
    ensures
        region(8).1 == relation_query(municipality_name(region(8).0), false),
{
    reveal_strlit("Tivat+");
    reveal_strlit("relation['name'='Opština Tivat']['boundary'='administrative']; way(r)");
    reveal_strlit("relation['name'='");
    reveal_strlit("']['boundary'='administrative']");
    reveal_strlit("; way(r)");
    reveal_strlit("Opština ");
    assert(municipality_name(region(8).0) =~= "Opština "@ + "Tivat+"@.drop_last());
    assert(region(8).1 =~= relation_query(municipality_name(region(8).0), false));
}
proof fn lemma_region_9()
    ensures
        region(9).1 == relation_query(municipality_name(region(9).0), false),
{
    reveal_strlit("Bar");
    reveal_strlit("relation['name'='Bar']['boundary'='administrative']; way(r)");
    reveal_strlit("relation['name'='");
    reveal_strlit("']['boundary'='administrative']");
    reveal_strlit("; way(r)");
    assert(municipality_name(region(9).0) =~= "Bar"@);
    assert(region(9).1 =~= relation_query(municipality_name(region(9).0), false));
}
proof fn lemma_region_10()
    ensures
        region(10).1 == relation_query(municipality_name(region(10).0), false),
{
    reveal_strlit("Bar+");
    reveal_strlit("relation['name'='Opština Bar']['boundary'='administrative']; way(r)");
    reveal_strlit("relation['name'='");
    reveal_strlit("']['boundary'='administrative']");
    reveal_strlit("; way(r)");
    reveal_strlit("Opština ");
    assert(municipality_name(region(10).0) =~= "Opština "@ + "Bar+"@.drop_last());
    assert(region(10).1 =~= relation_query(municipality_name(region(10).0), false));
}
proof fn lemma_region_11()
    ensures
        region(11).1 == relation_query(municipality_name(region(11).0), false),
{
    reveal_strlit("Podgorica");
    reveal_strlit("relation['name'='Podgorica']['boundary'='administrative']; way(r)");
    reveal_strlit("relation['name'='");
    reveal_strlit("']['boundary'='administrative']");
    reveal_strlit("; way(r)");
    assert(municipality_name(region(11).0) =~= "Podgorica"@);
    assert(region(11).1 =~= relation_query(municipality_name(region(11).0), false));
}
proof fn lemma_region_12()
    ensures
        region(12).1 == relation_query("Glavni grad Podgorica"@, false),
{
    reveal_strlit("Podgorica+");
    reveal_strlit("relation['name'='Glavni grad Podgorica']['boundary'='administrative']; way(r)");
    reveal_strlit("relation['name'='");
    reveal_strlit("']['boundary'='administrative']");
    reveal_strlit("; way(r)");
    reveal_strlit("Glavni grad Podgorica");
    assert(region(12).1 =~= relation_query("Glavni grad Podgorica"@, false));
}
proof fn lemma_region_13()
    ensures
        region(13).1 == relation_query(municipality_name(region(13).0), false),
{
    reveal_strlit("Nikšić");
    reveal_strlit("relation['name'='Nikšić']['boundary'='administrative']; way(r)");
    reveal_strlit("relation['name'='");
    reveal_strlit("']['boundary'='administrative']");
    reveal_strlit("; way(r)");
    assert(municipality_name(region(13).0) =~= "Nikšić"@);
    assert(region(13).1 =~= relation_query(municipality_name(region(13).0), false));
}
proof fn lemma_region_14()
    ensures
        region(14).1 == relation_query(municipality_name(region(14).0), false),
{
    reveal_strlit("Nikšić+");
    reveal_strlit("relation['name'='Opština Nikšić']['boundary'='administrative']; way(r)");
    reveal_strlit("relation['name'='");
    reveal_strlit("']['boundary'='administrative']");
    reveal_strlit("; way(r)");
    reveal_strlit("Opština ");
    assert(municipality_name(region(14).0) =~= "Opština "@ + "Nikšić+"@.drop_last());
    assert(region(14).1 =~= relation_query(municipality_name(region(14).0), false));
}
proof fn lemma_region_15()
    ensures
        region(15).1 == relation_query(municipality_name(region(15).0), true),
{
    reveal_strlit("Andrijevica+");
    reveal_strlit("relation['name'='Opština Andrijevica']['boundary'='administrative']['admin_level'='6']; way(r)");
    reveal_strlit("relation['name'='");
    reveal_strlit("']['boundary'='administrative']");
    reveal_strlit("; way(r)");
    reveal_strlit("['admin_level'='6']");
    reveal_strlit("Opština ");
    assert(municipality_name(region(15).0) =~= "Opština "@ + "Andrijevica+"@.drop_last());
    assert(region(15).1 =~= relation_query(municipality_name(region(15).0), true));
}
proof fn lemma_region_16()
    ensures
        region(16).1 == relation_query(municipality_name(region(16).0), true),
{
    reveal_strlit("Herceg Novi+");
    reveal_strlit("relation['name'='Opština Herceg Novi']['boundary'='administrative']['admin_level'='6']; way(r)");
    reveal_strlit("relation['name'='");
    reveal_strlit("']['boundary'='administrative']");
    reveal_strlit("; way(r)");
    reveal_strlit("['admin_level'='6']");
    reveal_strlit("Opština ");
    assert(municipality_name(region(16).0) =~= "Opština "@ + "Herceg Novi+"@.drop_last());
    assert(region(16).1 =~= relation_query(municipality_name(region(16).0), true));
}
proof fn lemma_region_17()
    ensures
        region(17).1 == relation_query(municipality_name(region(17).0), true),
{
    reveal_strlit("Plav+");
    reveal_strlit("relation['name'='Opština Plav']['boundary'='administrative']['admin_level'='6']; way(r)");
    reveal_strlit("relation['name'='");
    reveal_strlit("']['boundary'='administrative']");
    reveal_strlit("; way(r)");
    reveal_strlit("['admin_level'='6']");
    reveal_strlit("Opština ");
    assert(municipality_name(region(17).0) =~= "Opština "@ + "Plav+"@.drop_last());
    assert(region(17).1 =~= relation_query(municipality_name(region(17).0), true));
}
proof fn lemma_region_18()
    ensures
        region(18).1 == relation_query("Opština Gusinje"@, true),
{
    reveal_strlit("Plav");
    reveal_strlit("relation['name'='Opština Gusinje']['boundary'='administrative']['admin_level'='6']; way(r)");
    reveal_strlit("relation['name'='");
    reveal_strlit("']['boundary'='administrative']");
    reveal_strlit("; way(r)");
    reveal_strlit("['admin_level'='6']");
    reveal_strlit("Opština Gusinje");
    assert(region(18).1 =~= relation_query("Opština Gusinje"@, true));
}
proof fn lemma_region_19()
    ensures
        region(19).1 == relation_query(municipality_name(region(19).0), true),
{
    reveal_strlit("Berane+");
    reveal_strlit("relation['name'='Opština Berane']['boundary'='administrative']['admin_level'='6']; way(r)");
    reveal_strlit("relation['name'='");
    reveal_strlit("']['boundary'='administrative']");
    reveal_strlit("; way(r)");
    reveal_strlit("['admin_level'='6']");
    reveal_strlit("Opština ");
    assert(municipality_name(region(19).0) =~= "Opština "@ + "Berane+"@.drop_last());
    assert(region(19).1 =~= relation_query(municipality_name(region(19).0), true));
}
proof fn lemma_region_20()
    ensures
        region(20).1 == relation_query(municipality_name(region(20).0), true),
{
    reveal_strlit("Rožaje+");
    reveal_strlit("relation['name'='Opština Rožaje']['boundary'='administrative']['admin_level'='6']; way(r)");
    reveal_strlit("relation['name'='");
    reveal_strlit("']['boundary'='administrative']");
    reveal_strlit("; way(r)");
    reveal_strlit("['admin_level'='6']");
    reveal_strlit("Opština ");
    assert(municipality_name(region(20).0) =~= "Opština "@ + "Rožaje+"@.drop_last());
    assert(region(20).1 =~= relation_query(municipality_name(region(20).0), true));
}
proof fn lemma_region_21()
    ensures
        region(21).1 == relation_query(municipality_name(region(21).0), true),
{
    reveal_strlit("Petnjica+");
    reveal_strlit("relation['name'='Opština Petnjica']['boundary'='administrative']['admin_level'='6']; way(r)");
    reveal_strlit("relation['name'='");
    reveal_strlit("']['boundary'='administrative']");
    reveal_strlit("; way(r)");
    reveal_strlit("['admin_level'='6']");
    reveal_strlit("Opština ");
    assert(municipality_name(region(21).0) =~= "Opština "@ + "Petnjica+"@.drop_last());
    assert(region(21).1 =~= relation_query(municipality_name(region(21).0), true));
}
proof fn lemma_region_22()
    ensures
        region(22).1 == relation_query(municipality_name(region(22).0), true),
{
    reveal_strlit("Bijelo Polje+");
    reveal_strlit("relation['name'='Opština Bijelo Polje']['boundary'='administrative']['admin_level'='6']; way(r)");
    reveal_strlit("relation['name'='");
    reveal_strlit("']['boundary'='administrative']");
    reveal_strlit("; way(r)");
    reveal_strlit("['admin_level'='6']");
    reveal_strlit("Opština ");
    assert(municipality_name(region(22).0) =~= "Opština "@ + "Bijelo Polje+"@.drop_last());
    assert(region(22).1 =~= relation_query(municipality_name(region(22).0), true));
}
proof fn lemma_region_23()
    ensures
        region(23).1 == relation_query(municipality_name(region(23).0), true),
{
    reveal_strlit("Pljevlja+");
    reveal_strlit("relation['name'='Opština Pljevlja']['boundary'='administrative']['admin_level'='6']; way(r)");
    reveal_strlit("relation['name'='");
    reveal_strlit("']['boundary'='administrative']");
    reveal_strlit("; way(r)");
    reveal_strlit("['admin_level'='6']");
    reveal_strlit("Opština ");
    assert(municipality_name(region(23).0) =~= "Opština "@ + "Pljevlja+"@.drop_last());
    assert(region(23).1 =~= relation_query(municipality_name(region(23).0), true));
}
proof fn lemma_region_24()
    ensures
        region(24).1 == relation_query(municipality_name(region(24).0), true),
{
    reveal_strlit("Plužine+");
    reveal_strlit("relation['name'='Opština Plužine']['boundary'='administrative']['admin_level'='6']; way(r)");
    reveal_strlit("relation['name'='");
    reveal_strlit("']['boundary'='administrative']");
    reveal_strlit("; way(r)");
    reveal_strlit("['admin_level'='6']");
    reveal_strlit("Opština ");
    assert(municipality_name(region(24).0) =~= "Opština "@ + "Plužine+"@.drop_last());
    assert(region(24).1 =~= relation_query(municipality_name(region(24).0), true));
}
proof fn lemma_region_25()
    ensures
        region(25).1 == relation_query(municipality_name(region(25).0), true),
{
    reveal_strlit("Žabljak+");
    reveal_strlit("relation['name'='Opština Žabljak']['boundary'='administrative']['admin_level'='6']; way(r)");
    reveal_strlit("relation['name'='");
    reveal_strlit("']['boundary'='administrative']");
    reveal_strlit("; way(r)");
    reveal_strlit("['admin_level'='6']");
    reveal_strlit("Opština ");
    assert(municipality_name(region(25).0) =~= "Opština "@ + "Žabljak+"@.drop_last());
    assert(region(25).1 =~= relation_query(municipality_name(region(25).0), true));
}
proof fn lemma_region_26()
    ensures
        region(26).1 == relation_query(municipality_name(region(26).0), true),
{
    reveal_strlit("Šavnik+");
    reveal_strlit("relation['name'='Opština Šavnik']['boundary'='administrative']['admin_level'='6']; way(r)");
    reveal_strlit("relation['name'='");
    reveal_strlit("']['boundary'='administrative']");
    reveal_strlit("; way(r)");
    reveal_strlit("['admin_level'='6']");
    reveal_strlit("Opština ");
    assert(municipality_name(region(26).0) =~= "Opština "@ + "Šavnik+"@.drop_last());
    assert(region(26).1 =~= relation_query(municipality_name(region(26).0), true));
}
proof fn lemma_region_27()
    ensures
        region(27).1 == relation_query(municipality_name(region(27).0), true),
{
    reveal_strlit("Mojkovac+");
    reveal_strlit("relation['name'='Opština Mojkovac']['boundary'='administrative']['admin_level'='6']; way(r)");
    reveal_strlit("relation['name'='");
    reveal_strlit("']['boundary'='administrative']");
    reveal_strlit("; way(r)");
    reveal_strlit("['admin_level'='6']");
    reveal_strlit("Opština ");
    assert(municipality_name(region(27).0) =~= "Opština "@ + "Mojkovac+"@.drop_last());
    assert(region(27).1 =~= relation_query(municipality_name(region(27).0), true));
}
proof fn lemma_region_28()
    ensures
        region(28).1 == relation_query(municipality_name(region(28).0), true),
{
    reveal_strlit("Kolašin+");
    reveal_strlit("relation['name'='Opština Kolašin']['boundary'='administrative']['admin_level'='6']; way(r)");
    reveal_strlit("relation['name'='");
    reveal_strlit("']['boundary'='administrative']");
    reveal_strlit("; way(r)");
    reveal_strlit("['admin_level'='6']");
    reveal_strlit("Opština ");
    assert(municipality_name(region(28).0) =~= "Opština "@ + "Kolašin+"@.drop_last());
    assert(region(28).1 =~= relation_query(municipality_name(region(28).0), true));
}
proof fn lemma_region_29()
    ensures
        region(29).1 == relation_query(municipality_name(region(29).0), true),
{
    reveal_strlit("Danilovgrad+");
    reveal_strlit("relation['name'='Opština Danilovgrad']['boundary'='administrative']['admin_level'='6']; way(r)");
    reveal_strlit("relation['name'='");
    reveal_strlit("']['boundary'='administrative']");
    reveal_strlit("; way(r)");
    reveal_strlit("['admin_level'='6']");
    reveal_strlit("Opština ");
    assert(municipality_name(region(29).0) =~= "Opština "@ + "Danilovgrad+"@.drop_last());
    assert(region(29).1 =~= relation_query(municipality_name(region(29).0), true));
}
proof fn lemma_region_30()
    ensures
        region(30).1 == relation_query(municipality_name(region(30).0), true),
{
    reveal_strlit("Tuzi+");
    reveal_strlit("relation['name'='Opština Tuzi']['boundary'='administrative']['admin_level'='6']; way(r)");
    reveal_strlit("relation['name'='");
    reveal_strlit("']['boundary'='administrative']");
    reveal_strlit("; way(r)");
    reveal_strlit("['admin_level'='6']");
    reveal_strlit("Opština ");
    assert(municipality_name(region(30).0) =~= "Opština "@ + "Tuzi+"@.drop_last());
    assert(region(30).1 =~= relation_query(municipality_name(region(30).0), true));
}
proof fn lemma_region_31()
    ensures
        region(31).1 == relation_query(municipality_name(region(31).0), true),
{
    reveal_strlit("Zeta+");
    reveal_strlit("relation['name'='Opština Zeta']['boundary'='administrative']['admin_level'='6']; way(r)");
    reveal_strlit("relation['name'='");
    reveal_strlit("']['boundary'='administrative']");
    reveal_strlit("; way(r)");
    reveal_strlit("['admin_level'='6']");
    reveal_strlit("Opština ");
    assert(municipality_name(region(31).0) =~= "Opština "@ + "Zeta+"@.drop_last());
    assert(region(31).1 =~= relation_query(municipality_name(region(31).0), true));
}
proof fn lemma_region_32()
    ensures
        region(32).1 == relation_query("Opština Ulcinj - Komuna e Ulqinit"@, true),
{
    reveal_strlit("Ulcinj+");
    reveal_strlit("relation['name'='Opština Ulcinj - Komuna e Ulqinit']['boundary'='administrative']['admin_level'='6']; way(r)");
    reveal_strlit("relation['name'='");
    reveal_strlit("']['boundary'='administrative']");
    reveal_strlit("; way(r)");
    reveal_strlit("['admin_level'='6']");
    reveal_strlit("Opština Ulcinj - Komuna e Ulqinit");
    assert(region(32).1 =~= relation_query("Opština Ulcinj - Komuna e Ulqinit"@, true));
}
proof fn lemma_region_5()
    ensures
        region(5).1 == "way['name'='"@ + region(5).0 + "']['place'='town']"@,
{
    reveal_strlit("Cetinje");
    reveal_strlit("way['name'='Cetinje']['place'='town']");
    reveal_strlit("way['name'='");
    reveal_strlit("']['place'='town']");
    assert(region(5).1 =~= "way['name'='"@ + region(5).0 + "']['place'='town']"@);
}

/// Law: every region's query asks for the ways of the boundary relation its
/// tag names (the municipality for a tag ending in `+`), at level 6 from
/// the sixteenth region on; six regions name their relation otherwise
/// (Montenegro, the town of Cetinje, Cetinje's capital municipality,
/// Podgorica's capital city, Gusinje under the tag Plav, and Ulcinj's
/// bilingual name).
pub proof fn law_region_queries_name_their_regions()
    ensures
        forall|i: int|
            #![trigger region(i)]
            i == 1 || i == 2 || i == 3 || i == 4 || i == 7 || i == 8 || i == 9 || i == 10 || i == 11 || i == 13 || i == 14 || i == 15 || i == 16 || i == 17 || i == 19 || i == 20 || i == 21 || i == 22 || i == 23 || i == 24 || i == 25 || i == 26 || i == 27 || i == 28 || i == 29 || i == 30 || i == 31 ==> region(i).1 == relation_query(
                municipality_name(region(i).0),
                i >= 15,
            ),
        region(0).1 == relation_query("Crna Gora / Црна Гора"@, false),
        region(5).1 == "way['name'='"@ + region(5).0 + "']['place'='town']"@,
        region(6).1 == relation_query("Prijestolnica Cetinje"@, false),
        region(12).1 == relation_query("Glavni grad Podgorica"@, false),
        region(18).1 == relation_query("Opština Gusinje"@, true),
        region(32).1 == relation_query("Opština Ulcinj - Komuna e Ulqinit"@, true),
{
    lemma_region_0();
    lemma_region_1();
    lemma_region_2();
    lemma_region_3();
    lemma_region_4();
    lemma_region_5();
    lemma_region_6();
    lemma_region_7();
    lemma_region_8();
    lemma_region_9();
    lemma_region_10();
    lemma_region_11();
    lemma_region_12();
    lemma_region_13();
    lemma_region_14();
    lemma_region_15();
    lemma_region_16();
    lemma_region_17();
    lemma_region_18();
    lemma_region_19();
    lemma_region_20();
    lemma_region_21();
    lemma_region_22();
    lemma_region_23();
    lemma_region_24();
    lemma_region_25();
    lemma_region_26();
    lemma_region_27();
    lemma_region_28();
    lemma_region_29();
    lemma_region_30();
    lemma_region_31();
    lemma_region_32();
}

} // verus!
