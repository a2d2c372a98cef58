//! The reference normaliser: a query result of the shape
//! `{"#select": {"tuples": [[name, size], ...]}}` read into the same
//! name-to-sizes mapping that the extractor builds.
use vstd::prelude::*;
use crate::sizes::{represents, sizes_of, TypeSizes};

verus! {

#[verifier::external_type_specification]
#[verifier::external_body]
pub struct ExJsonValue(serde_json::Value);

#[verifier::external_type_specification]
#[verifier::external_body]
pub struct ExJsonError(serde_json::Error);

/// Why a reference listing was refused.
#[derive(Debug, PartialEq, Eq, Structural, Clone, Copy)]
pub enum ReferenceError {
    /// The text is not JSON.
    Syntax,
    /// The JSON does not have the expected shape.
    Shape,
}

/// The observations that reference rows give: each size read as unsigned.
pub open spec fn row_observations(rows: Seq<(Seq<char>, i64)>) -> Seq<(Seq<char>, u64)> {
    rows.map_values(|r: (Seq<char>, i64)| (r.0, r.1 as u64))
}

/// The rows of `rows` as plain values.
pub open spec fn rows_view(rows: Seq<(String, i64)>) -> Seq<(Seq<char>, i64)> {
    rows.map_values(|r: (String, i64)| (r.0@, r.1))
}

/// Gathers reference rows into a mapping: under each name, the ascending
/// sizes listed for it, each read as unsigned.
pub fn normalize_rows(rows: &Vec<(String, i64)>) -> (r: TypeSizes)
    ensures
        r.wf(),
        represents(r@, sizes_of(row_observations(rows_view(rows@)))),
{
    let mut map = TypeSizes::new();
    let mut i: usize = 0;
    assert(row_observations(rows_view(rows@.subrange(0, 0))) =~= Seq::empty());
    while i < rows.len()
        invariant
            i <= rows@.len(),
            map.wf(),
            represents(map@, sizes_of(row_observations(rows_view(rows@.subrange(0, i as int))))),
        decreases rows@.len() - i,
    {
        let (name, size) = &rows[i];
        map.add(name.clone(), *size as u64);
        let ghost prev = row_observations(rows_view(rows@.subrange(0, i as int)));
        assert(row_observations(rows_view(rows@.subrange(0, i + 1))) =~= prev.push(
            (name@, *size as u64),
        ));
        assert(prev.push((name@, *size as u64)).drop_last() =~= prev);
        i = i + 1;
    }
    assert(rows@.subrange(0, rows@.len() as int) =~= rows@);
    map
}

/// The JSON value that `text` parses to, if it is JSON.
pub uninterp spec fn json_parse(text: Seq<char>) -> Option<serde_json::Value>;

/// The member of the object `v` under `key`, if `v` is an object holding it.
pub uninterp spec fn json_member_of(v: serde_json::Value, key: Seq<char>) -> Option<serde_json::Value>;

/// The elements of `v`, if it is an array.
pub uninterp spec fn json_array_of(v: serde_json::Value) -> Option<Seq<serde_json::Value>>;

/// The contents of `v`, if it is a string.
pub uninterp spec fn json_str_of(v: serde_json::Value) -> Option<Seq<char>>;

/// The number `v`, if it is an integer that fits an `i64`.
pub uninterp spec fn json_i64_of(v: serde_json::Value) -> Option<i64>;

/// Relies on `serde_json::from_str`: the text parsed as one JSON value.
#[verifier::external_body]
fn parse_json(text: &str) -> (r: Result<serde_json::Value, serde_json::Error>)
    ensures
        match r {
            Ok(v) => json_parse(text@) == Some(v),
            Err(_) => json_parse(text@) is None,
        },
{
    serde_json::from_str(text)
}

/// Relies on `Value::get` with a string key: the member of an object under
/// that key.
#[verifier::external_body]
fn json_member<'a>(v: &'a serde_json::Value, key: &str) -> (r: Option<&'a serde_json::Value>)
    ensures
        match r {
            Some(m) => json_member_of(*v, key@) == Some(*m),
            None => json_member_of(*v, key@) is None,
        },
{
    v.get(key)
}

/// Relies on `Value::as_array`: the elements of an array.
#[verifier::external_body]
fn json_array(v: &serde_json::Value) -> (r: Option<&Vec<serde_json::Value>>)
    ensures
        match r {
            Some(a) => json_array_of(*v) == Some(a@),
            None => json_array_of(*v) is None,
        },
{
    v.as_array()
}

/// Relies on `Value::as_str`: the contents of a string.
#[verifier::external_body]
fn json_str(v: &serde_json::Value) -> (r: Option<&str>)
    ensures
        match r {
            Some(s) => json_str_of(*v) == Some(s@),
            None => json_str_of(*v) is None,
        },
{
    v.as_str()
}

/// Relies on `Value::as_i64`: a number that fits an `i64`.
#[verifier::external_body]
fn json_i64(v: &serde_json::Value) -> (r: Option<i64>)
    ensures
        r == json_i64_of(*v),
{
    v.as_i64()
}

/// The row that `t` holds, if it is an array of exactly a string and an
/// integer that fits an `i64`.
pub open spec fn row_of(t: serde_json::Value) -> Option<(Seq<char>, i64)> {
    match json_array_of(t) {
        Some(a) => if a.len() == 2 {
            match (json_str_of(a[0]), json_i64_of(a[1])) {
                (Some(n), Some(k)) => Some((n, k)),
                _ => None,
            }
        } else {
            None
        },
        None => None,
    }
}

/// The rows that `items` hold, if every one of them is a row.
pub open spec fn rows_of(items: Seq<serde_json::Value>) -> Option<Seq<(Seq<char>, i64)>>
    decreases items.len(),
{
    if items.len() == 0 {
        Some(Seq::empty())
    } else {
        match (rows_of(items.drop_last()), row_of(items.last())) {
            (Some(p), Some(r)) => Some(p.push(r)),
            _ => None,
        }
    }
}

/// The rows listed under `#select.tuples` of `v`, if that member exists and
/// is an array of rows.
pub open spec fn listing_rows(v: serde_json::Value) -> Option<Seq<(Seq<char>, i64)>> {
    match json_member_of(v, "#select"@) {
        Some(sel) => match json_member_of(sel, "tuples"@) {
            Some(t) => match json_array_of(t) {
                Some(items) => rows_of(items),
                None => None,
            },
            None => None,
        },
        None => None,
    }
}

/// Reads one `[name, size]` row.
fn read_row(v: &serde_json::Value) -> (r: Result<(String, i64), ReferenceError>)
    ensures
        match r {
            Ok(row) => row_of(*v) == Some((row.0@, row.1)),
            Err(e) => row_of(*v) is None && e == ReferenceError::Shape,
        },
{
    let items = match json_array(v) {
        Some(a) => a,
        None => return Err(ReferenceError::Shape),
    };
    if items.len() != 2 {
        return Err(ReferenceError::Shape);
    }
    let name = match json_str(&items[0]) {
        Some(s) => s,
        None => return Err(ReferenceError::Shape),
    };
    let size = match json_i64(&items[1]) {
        Some(n) => n,
        None => return Err(ReferenceError::Shape),
    };
    Ok((String::from_str(name), size))
}

/// The rows of a parsed reference listing: `Shape` unless `#select.tuples`
/// is an array whose every element is `[string, integer]`.
pub fn rows_from_value(value: &serde_json::Value) -> (r: Result<Vec<(String, i64)>, ReferenceError>)
    ensures
        match r {
            Ok(rows) => listing_rows(*value) == Some(rows_view(rows@)),
            Err(e) => listing_rows(*value) is None && e == ReferenceError::Shape,
        },
{
    let select = match json_member(value, "#select") {
        Some(s) => s,
        None => return Err(ReferenceError::Shape),
    };
    let tuples = match json_member(select, "tuples") {
        Some(t) => t,
        None => return Err(ReferenceError::Shape),
    };
    let items = match json_array(tuples) {
        Some(a) => a,
        None => return Err(ReferenceError::Shape),
    };
    let mut rows: Vec<(String, i64)> = Vec::new();
    let mut i: usize = 0;
    while i < items.len()
        invariant
            i <= items@.len(),
            json_member_of(*value, "#select"@) == Some(*select),
            json_member_of(*select, "tuples"@) == Some(*tuples),
            json_array_of(*tuples) == Some(items@),
            rows_of(items@.subrange(0, i as int)) == Some(rows_view(rows@)),
        decreases items@.len() - i,
    {
        let ghost prefix = items@.subrange(0, i + 1);
        assert(prefix.drop_last() =~= items@.subrange(0, i as int));
        match read_row(&items[i]) {
            Ok(row) => {
                let ghost before = rows@;
                rows.push(row);
                assert(rows_view(rows@) =~= rows_view(before).push((row.0@, row.1)));
            },
            Err(e) => {
                proof {
                    lemma_rows_of_prefix(items@, i as int + 1);
                }
                return Err(e);
            },
        }
        i = i + 1;
    }
    assert(items@.subrange(0, items@.len() as int) =~= items@);
    Ok(rows)
}

/// Where the rows of a prefix fail, so do those of the whole.
proof fn lemma_rows_of_prefix(items: Seq<serde_json::Value>, n: int)
    requires
        0 <= n <= items.len(),
        rows_of(items.subrange(0, n)) is None,
    ensures
        rows_of(items) is None,
    decreases items.len() - n,
{
    if n < items.len() {
        let next = items.subrange(0, n + 1);
        assert(next.drop_last() =~= items.subrange(0, n));
        lemma_rows_of_prefix(items, n + 1);
    } else {
        assert(items.subrange(0, n) =~= items);
    }
}

/// Reads a reference listing into a mapping. Fails with `Syntax` where the
/// text is not JSON and with `Shape` where it lacks `#select.tuples` as an
/// array of `[string, integer]` pairs; otherwise the mapping is what
/// `normalize_rows` makes of the listed rows.
pub fn get_codeql_data(input: &str) -> (r: Result<TypeSizes, ReferenceError>)
    ensures
        json_parse(input@) is None ==> r == Err::<TypeSizes, ReferenceError>(ReferenceError::Syntax),
        json_parse(input@) matches Some(v) ==> match listing_rows(v) {
            Some(rows) => r matches Ok(m) && m.wf() && represents(
                m@,
                sizes_of(row_observations(rows)),
            ),
            None => r == Err::<TypeSizes, ReferenceError>(ReferenceError::Shape),
        },
{
    let value = match parse_json(input) {
        Ok(v) => v,
        Err(_) => return Err(ReferenceError::Syntax),
    };
    let rows = rows_from_value(&value)?;
    let m = normalize_rows(&rows);
    Ok(m)
}

} // verus!
