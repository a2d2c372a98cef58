//! The type extractor: walks debug-information entries in depth-first
//! pre-order, keeps class and structure types that carry both a name and a
//! byte size, and gathers the sizes under the normalised names.
use vstd::prelude::*;
use crate::names::{normalize_name, normalized};
use crate::sizes::{lemma_order_and_repeats_ignored, lemma_sizes_of, represents, sizes_of, TypeSizes};

verus! {

/// Tag of a class type entry.
pub const DW_TAG_CLASS_TYPE: u16 = 0x02;

/// Tag of a structure type entry.
pub const DW_TAG_STRUCTURE_TYPE: u16 = 0x13;

/// Attribute that holds an entry's name.
pub const DW_AT_NAME: u16 = 0x03;

/// Attribute that holds an entry's size in bytes.
pub const DW_AT_BYTE_SIZE: u16 = 0x0b;

/// The value of an attribute, as far as the extractor reads it.
pub enum AttrValue {
    /// A reference into the string table, with the string it resolved to, or
    /// `None` where it did not resolve.
    StrRef(Option<String>),
    /// A value that reads as an unsigned integer.
    Unsigned(u64),
    /// Any other value.
    Other,
}

/// An attribute: its name code and its value.
pub struct Attr {
    pub name: u16,
    pub value: AttrValue,
}

/// A debug-information entry: its tag and its attributes in stored order.
pub struct Entry {
    pub tag: u16,
    pub attrs: Vec<Attr>,
}

/// Whether a tag marks a class or structure type.
pub open spec fn is_type_tag(tag: u16) -> bool {
    tag == DW_TAG_CLASS_TYPE || tag == DW_TAG_STRUCTURE_TYPE
}

/// The name that a scan of `attrs` in order settles on: the last name
/// attribute that is a resolved string reference.
pub open spec fn scanned_name(attrs: Seq<Attr>) -> Option<Seq<char>>
    decreases attrs.len(),
{
    if attrs.len() == 0 {
        None
    } else {
        let prev = scanned_name(attrs.drop_last());
        let a = attrs.last();
        if a.name == DW_AT_NAME {
            match a.value {
                AttrValue::StrRef(Some(s)) => Some(s@),
                _ => prev,
            }
        } else {
            prev
        }
    }
}

/// The size that a scan of `attrs` in order settles on: the reading of the
/// last byte-size attribute, `None` where that one is not an unsigned value.
pub open spec fn scanned_size(attrs: Seq<Attr>) -> Option<u64>
    decreases attrs.len(),
{
    if attrs.len() == 0 {
        None
    } else {
        let prev = scanned_size(attrs.drop_last());
        let a = attrs.last();
        if a.name == DW_AT_BYTE_SIZE {
            match a.value {
                AttrValue::Unsigned(v) => Some(v),
                _ => None,
            }
        } else {
            prev
        }
    }
}

/// What an entry contributes: its normalised name and its size, where it is
/// a class or structure type with both.
pub open spec fn observation(e: Entry) -> Option<(Seq<char>, u64)> {
    if is_type_tag(e.tag) {
        match (scanned_name(e.attrs@), scanned_size(e.attrs@)) {
            (Some(n), Some(s)) => Some((normalized(n), s)),
            _ => None,
        }
    } else {
        None
    }
}

/// What a sequence of entries contributes, in order.
pub open spec fn observations(entries: Seq<Entry>) -> Seq<(Seq<char>, u64)>
    decreases entries.len(),
{
    if entries.len() == 0 {
        Seq::empty()
    } else {
        let prev = observations(entries.drop_last());
        match observation(entries.last()) {
            Some(o) => prev.push(o),
            None => prev,
        }
    }
}

/// What a sequence of compilation units contributes, unit after unit.
pub open spec fn unit_observations(units: Seq<Seq<Entry>>) -> Seq<(Seq<char>, u64)>
    decreases units.len(),
{
    if units.len() == 0 {
        Seq::empty()
    } else {
        unit_observations(units.drop_last()) + observations(units.last())
    }
}

/// The units of `units` as sequences of entries.
pub open spec fn units_view(units: Seq<Vec<Entry>>) -> Seq<Seq<Entry>> {
    units.map_values(|u: Vec<Entry>| u@)
}

/// Whether `e` is a class or structure type with a name attribute whose value
/// is not a string reference: a name that cannot be resolved, worth a
/// diagnostic, though the entry is otherwise read as usual.
pub fn has_unresolvable_name(e: &Entry) -> (r: bool)
    ensures
        r == (is_type_tag(e.tag) && exists|i: int|
            0 <= i < e.attrs@.len() && (#[trigger] e.attrs@[i]).name == DW_AT_NAME && !(
            e.attrs@[i].value is StrRef)),
{
    if e.tag != DW_TAG_CLASS_TYPE && e.tag != DW_TAG_STRUCTURE_TYPE {
        return false;
    }
    let mut i: usize = 0;
    while i < e.attrs.len()
        invariant
            is_type_tag(e.tag),
            i <= e.attrs@.len(),
            forall|j: int|
                0 <= j < i ==> !((#[trigger] e.attrs@[j]).name == DW_AT_NAME && !(
                e.attrs@[j].value is StrRef)),
        decreases e.attrs@.len() - i,
    {
        let a = &e.attrs[i];
        let is_ref = match &a.value {
            AttrValue::StrRef(_) => true,
            _ => false,
        };
        if a.name == DW_AT_NAME && !is_ref {
            assert(e.attrs@[i as int].name == DW_AT_NAME && !(e.attrs@[i as int].value is StrRef));
            return true;
        }
        i = i + 1;
    }
    false
}

/// Scans the attributes of an entry once, in order, for its name and size.
pub fn scan_attrs(attrs: &Vec<Attr>) -> (r: (Option<String>, Option<u64>))
    ensures
        r.0 matches Some(s) ==> scanned_name(attrs@) == Some(s@),
        r.0 is None ==> scanned_name(attrs@) is None,
        r.1 == scanned_size(attrs@),
{
    let mut name: Option<String> = None;
    let mut size: Option<u64> = None;
    let mut i: usize = 0;
    while i < attrs.len()
        invariant
            i <= attrs@.len(),
            name matches Some(s) ==> scanned_name(attrs@.subrange(0, i as int)) == Some(s@),
            name is None ==> scanned_name(attrs@.subrange(0, i as int)) is None,
            size == scanned_size(attrs@.subrange(0, i as int)),
        decreases attrs@.len() - i,
    {
        let a = &attrs[i];
        assert(attrs@.subrange(0, i + 1).drop_last() =~= attrs@.subrange(0, i as int));
        if a.name == DW_AT_NAME {
            match &a.value {
                AttrValue::StrRef(Some(s)) => {
                    name = Some(s.clone());
                },
                _ => {},
            }
        } else if a.name == DW_AT_BYTE_SIZE {
            size = match &a.value {
                AttrValue::Unsigned(v) => Some(*v),
                _ => None,
            };
        }
        i = i + 1;
    }
    assert(attrs@.subrange(0, attrs@.len() as int) =~= attrs@);
    (name, size)
}

/// What an entry contributes to the mapping: its normalised name and size,
/// where it is a class or structure type with both.
pub fn entry_observation(e: &Entry) -> (r: Option<(String, u64)>)
    ensures
        r matches Some(p) ==> observation(*e) == Some((p.0@, p.1)),
        r is None ==> observation(*e) is None,
{
    if e.tag != DW_TAG_CLASS_TYPE && e.tag != DW_TAG_STRUCTURE_TYPE {
        return None;
    }
    let (name, size) = scan_attrs(&e.attrs);
    match (name, size) {
        (Some(n), Some(s)) => Some((normalize_name(n.as_str()), s)),
        _ => None,
    }
}

/// Adds what `e` contributes to `map`.
pub fn record_entry(map: &mut TypeSizes, e: &Entry, Ghost(seen): Ghost<Seq<(Seq<char>, u64)>>)
    requires
        old(map).wf(),
        represents(old(map)@, sizes_of(seen)),
    ensures
        final(map).wf(),
        represents(
            final(map)@,
            sizes_of(
                match observation(*e) {
                    Some(o) => seen.push(o),
                    None => seen,
                },
            ),
        ),
{
    match entry_observation(e) {
        Some((name, size)) => {
            let ghost o = (name@, size);
            map.add(name, size);
            assert(seen.push(o).drop_last() =~= seen);
        },
        None => {},
    }
}

proof fn lemma_observations_contain(entries: Seq<Entry>, i: int)
    requires
        0 <= i < entries.len(),
        observation(entries[i]) is Some,
    ensures
        observations(entries).contains(observation(entries[i])->0),
    decreases entries.len(),
{
    let p = entries.drop_last();
    if i < entries.len() - 1 {
        lemma_observations_contain(p, i);
        let k = choose|k: int|
            0 <= k < observations(p).len() && observations(p)[k] == observation(p[i])->0;
        match observation(entries.last()) {
            Some(o) => assert(observations(entries)[k] == observations(p)[k]),
            None => {},
        }
    } else {
        let o = observation(entries[i])->0;
        assert(observations(entries)[observations(p).len() as int] == o);
    }
}

proof fn lemma_unit_observations_contain(units: Seq<Seq<Entry>>, u: int, i: int)
    requires
        0 <= u < units.len(),
        0 <= i < units[u].len(),
        observation(units[u][i]) is Some,
    ensures
        unit_observations(units).contains(observation(units[u][i])->0),
    decreases units.len(),
{
    let p = units.drop_last();
    let o = observation(units[u][i])->0;
    if u < units.len() - 1 {
        lemma_unit_observations_contain(p, u, i);
        let k = choose|k: int| 0 <= k < unit_observations(p).len() && unit_observations(p)[k] == o;
        assert(unit_observations(units)[k] == o);
    } else {
        lemma_observations_contain(units.last(), i);
        let k = choose|k: int|
            0 <= k < observations(units.last()).len() && observations(units.last())[k] == o;
        assert(unit_observations(units)[unit_observations(p).len() + k] == o);
    }
}

/// Every class or structure type entry that carries a resolved name and a
/// size is in the extracted mapping: its normalised name is a key whose sizes
/// hold its size.
pub proof fn lemma_type_entry_recorded(units: Seq<Seq<Entry>>, u: int, i: int)
    requires
        0 <= u < units.len(),
        0 <= i < units[u].len(),
        is_type_tag(units[u][i].tag),
        scanned_name(units[u][i].attrs@) is Some,
        scanned_size(units[u][i].attrs@) is Some,
    ensures
        sizes_of(unit_observations(units)).contains_key(
            normalized(scanned_name(units[u][i].attrs@)->0),
        ),
        sizes_of(unit_observations(units))[normalized(
            scanned_name(units[u][i].attrs@)->0,
        )].contains(scanned_size(units[u][i].attrs@)->0),
{
    let obs = unit_observations(units);
    lemma_unit_observations_contain(units, u, i);
    lemma_sizes_of(obs);
    let o = observation(units[u][i])->0;
    let k = choose|k: int| 0 <= k < obs.len() && obs[k] == o;
    assert(obs[k].0 == o.0);
    assert(sizes_of(obs).contains_key(o.0));
    assert(sizes_of(obs)[o.0].contains(o.1));
}

/// What `extract` returns on `units` holds, under the normalised name of every
/// class or structure type entry with a resolved name and a size, that size.
pub proof fn lemma_extracted_holds_entry(units: Seq<Seq<Entry>>, u: int, i: int, r: TypeSizes)
    requires
        represents(r@, sizes_of(unit_observations(units))),
        0 <= u < units.len(),
        0 <= i < units[u].len(),
        is_type_tag(units[u][i].tag),
        scanned_name(units[u][i].attrs@) is Some,
        scanned_size(units[u][i].attrs@) is Some,
    ensures
        r@.contains_key(normalized(scanned_name(units[u][i].attrs@)->0)),
        r@[normalized(scanned_name(units[u][i].attrs@)->0)].contains(
            scanned_size(units[u][i].attrs@)->0,
        ),
{
    lemma_type_entry_recorded(units, u, i);
    let n = normalized(scanned_name(units[u][i].attrs@)->0);
    assert(r@.contains_key(n));
}

/// Extraction depends only on which (name, size) pairs the entries give: two
/// unit lists whose entries give the same pairs, in any order of units or
/// entries and with any repeats, are extracted to the same mapping.
pub proof fn lemma_extraction_order_free(
    units1: Seq<Seq<Entry>>,
    units2: Seq<Seq<Entry>>,
    r1: TypeSizes,
    r2: TypeSizes,
)
    requires
        forall|x: (Seq<char>, u64)|
            unit_observations(units1).contains(x) <==> unit_observations(units2).contains(x),
        represents(r1@, sizes_of(unit_observations(units1))),
        represents(r2@, sizes_of(unit_observations(units2))),
    ensures
        r1@ == r2@,
{
    lemma_order_and_repeats_ignored(
        unit_observations(units1),
        unit_observations(units2),
        r1@,
        r2@,
    );
}

/// Adding a unit whose entries only repeat pairs that `units` already gives
/// leaves the extracted mapping as it was.
pub proof fn lemma_repeated_unit_ignored(
    units: Seq<Seq<Entry>>,
    extra: Seq<Entry>,
    r1: TypeSizes,
    r2: TypeSizes,
)
    requires
        forall|x: (Seq<char>, u64)|
            observations(extra).contains(x) ==> unit_observations(units).contains(x),
        represents(r1@, sizes_of(unit_observations(units))),
        represents(r2@, sizes_of(unit_observations(units.push(extra)))),
    ensures
        r1@ == r2@,
{
    let a = unit_observations(units);
    let b = observations(extra);
    assert(units.push(extra).drop_last() =~= units);
    assert(unit_observations(units.push(extra)) == a + b);
    assert forall|x: (Seq<char>, u64)| a.contains(x) <==> (a + b).contains(x) by {
        if a.contains(x) {
            let i = choose|i: int| 0 <= i < a.len() && a[i] == x;
            assert((a + b)[i] == x);
        }
        if (a + b).contains(x) {
            let i = choose|i: int| 0 <= i < (a + b).len() && (a + b)[i] == x;
            if i >= a.len() {
                assert(b[i - a.len()] == x);
                assert(b.contains(x));
            } else {
                assert(a[i] == x);
            }
        }
    }
    lemma_extraction_order_free(units, units.push(extra), r1, r2);
}

/// An entry whose tag is neither class nor structure type contributes
/// nothing, whatever its attributes: appending it to a unit leaves what the
/// unit contributes unchanged.
pub proof fn lemma_other_tags_ignored(entries: Seq<Entry>, e: Entry)
    requires
        !is_type_tag(e.tag),
    ensures
        observation(e) is None,
        observations(entries.push(e)) == observations(entries),
{
    assert(entries.push(e).drop_last() =~= entries);
}

/// Builds the mapping of every compilation unit in `units`, each given as
/// its entries in depth-first pre-order: under each name that some class or
/// structure type with both attributes carries, the ascending sizes seen.
pub fn extract(units: &Vec<Vec<Entry>>) -> (r: TypeSizes)
    ensures
        r.wf(),
        represents(r@, sizes_of(unit_observations(units_view(units@)))),
{
    let mut map = TypeSizes::new();
    proof {
        assert(represents(map@, sizes_of(Seq::empty())));
    }
    let mut u: usize = 0;
    while u < units.len()
        invariant
            u <= units@.len(),
            map.wf(),
            represents(map@, sizes_of(unit_observations(units_view(units@.subrange(0, u as int))))),
        decreases units@.len() - u,
    {
        let unit = &units[u];
        let ghost before = unit_observations(units_view(units@.subrange(0, u as int)));
        let mut i: usize = 0;
        while i < unit.len()
            invariant
                u < units@.len(),
                *unit == units@[u as int],
                i <= unit@.len(),
                map.wf(),
                represents(map@, sizes_of(before + observations(unit@.subrange(0, i as int)))),
            decreases unit@.len() - i,
        {
            let ghost seen = before + observations(unit@.subrange(0, i as int));
            record_entry(&mut map, &unit[i], Ghost(seen));
            proof {
                let sub = unit@.subrange(0, i + 1);
                assert(sub.drop_last() =~= unit@.subrange(0, i as int));
                match observation(unit@[i as int]) {
                    Some(o) => {
                        assert(before + observations(sub) =~= seen.push(o));
                    },
                    None => {
                        assert(before + observations(sub) =~= seen);
                    },
                }
            }
            i = i + 1;
        }
        proof {
            let us = units_view(units@.subrange(0, u + 1));
            assert(us.drop_last() =~= units_view(units@.subrange(0, u as int)));
            assert(unit@.subrange(0, unit@.len() as int) =~= unit@);
            assert(us.last() == unit@);
        }
        u = u + 1;
    }
    assert(units@.subrange(0, units@.len() as int) =~= units@);
    map
}

} // verus!
