//! The comparator: for each name of the extracted mapping that the reference
//! also holds, whether the two size lists agree.
use vstd::prelude::*;
use crate::sizes::{lemma_ascending_unique, strictly_ascending, TypeSizes};

verus! {

/// A name whose size lists differ between the two mappings.
pub struct Mismatch {
    pub name: String,
    pub extracted: Vec<u64>,
    pub reference: Vec<u64>,
}

/// The result of a comparison: how many names agree, and the names that
/// disagree, in the order of the extracted mapping.
pub struct Report {
    pub matches: usize,
    pub mismatches: Vec<Mismatch>,
}

/// Whether `k` is a key of both mappings.
pub open spec fn paired(k: Seq<char>, ex: Map<Seq<char>, Seq<u64>>, rf: Map<Seq<char>, Seq<u64>>) -> bool {
    ex.contains_key(k) && rf.contains_key(k)
}

/// The number of names in `names` that both mappings hold with equal lists.
pub open spec fn matched_count(
    names: Seq<Seq<char>>,
    ex: Map<Seq<char>, Seq<u64>>,
    rf: Map<Seq<char>, Seq<u64>>,
) -> nat
    decreases names.len(),
{
    if names.len() == 0 {
        0
    } else {
        let k = names.last();
        matched_count(names.drop_last(), ex, rf) + if paired(k, ex, rf) && ex[k] == rf[k] {
            1nat
        } else {
            0nat
        }
    }
}

/// The names in `names`, in order, that both mappings hold with different
/// lists.
pub open spec fn mismatched(
    names: Seq<Seq<char>>,
    ex: Map<Seq<char>, Seq<u64>>,
    rf: Map<Seq<char>, Seq<u64>>,
) -> Seq<Seq<char>>
    decreases names.len(),
{
    if names.len() == 0 {
        Seq::empty()
    } else {
        let k = names.last();
        let p = mismatched(names.drop_last(), ex, rf);
        if paired(k, ex, rf) && ex[k] != rf[k] {
            p.push(k)
        } else {
            p
        }
    }
}

/// Compares `extracted` with `reference`, name by name of `extracted`.
pub fn compare(extracted: &TypeSizes, reference: &TypeSizes) -> (r: Report)
    requires
        extracted.wf(),
        reference.wf(),
    ensures
        r.matches == matched_count(extracted.names(), extracted@, reference@),
        r.mismatches@.map_values(|m: Mismatch| m.name@) == mismatched(
            extracted.names(),
            extracted@,
            reference@,
        ),
        forall|j: int|
            0 <= j < r.mismatches@.len() ==> {
                &&& #[trigger] r.mismatches@[j].extracted@ == extracted@[r.mismatches@[j].name@]
                &&& r.mismatches@[j].reference@ == reference@[r.mismatches@[j].name@]
            },
{
    let ghost names = extracted.names();
    let mut matches: usize = 0;
    let mut mismatches: Vec<Mismatch> = Vec::new();
    let n = extracted.len();
    let mut i: usize = 0;
    while i < n
        invariant
            n == names.len(),
            names == extracted.names(),
            extracted.wf(),
            reference.wf(),
            i <= n,
            matches == matched_count(names.subrange(0, i as int), extracted@, reference@),
            matches <= i,
            mismatches@.map_values(|m: Mismatch| m.name@) == mismatched(
                names.subrange(0, i as int),
                extracted@,
                reference@,
            ),
            forall|j: int|
                0 <= j < mismatches@.len() ==> {
                    &&& #[trigger] mismatches@[j].extracted@
                        == extracted@[mismatches@[j].name@]
                    &&& mismatches@[j].reference@ == reference@[mismatches@[j].name@]
                },
        decreases n - i,
    {
        proof {
            extracted.lemma_wf();
            assert(names.subrange(0, i + 1).drop_last() =~= names.subrange(0, i as int));
            assert(names.contains(names[i as int]));
        }
        let name = extracted.name_at(i);
        let ex = extracted.get(name).unwrap();
        match reference.get(name) {
            Some(rf) => {
                if vec_eq(ex, rf) {
                    matches = matches + 1;
                } else {
                    let ghost before = mismatches@;
                    mismatches.push(
                        Mismatch {
                            name: String::from_str(name),
                            extracted: ex.clone(),
                            reference: rf.clone(),
                        },
                    );
                    assert(mismatches@.map_values(|m: Mismatch| m.name@) =~= before.map_values(
                        |m: Mismatch| m.name@,
                    ).push(name@));
                }
            },
            None => {},
        }
        i = i + 1;
    }
    assert(names.subrange(0, n as int) =~= names);
    Report { matches, mismatches }
}

/// Whether two lists of sizes are equal.
fn vec_eq(a: &Vec<u64>, b: &Vec<u64>) -> (r: bool)
    ensures
        r == (a@ == b@),
{
    if a.len() != b.len() {
        return false;
    }
    let mut i: usize = 0;
    while i < a.len()
        invariant
            a@.len() == b@.len(),
            i <= a@.len(),
            forall|j: int| 0 <= j < i ==> a@[j] == b@[j],
        decreases a@.len() - i,
    {
        if a[i] != b[i] {
            return false;
        }
        i = i + 1;
    }
    assert(a@ =~= b@);
    true
}

/// A name held by only one of the two mappings adds neither to the match
/// count nor to the mismatches.
pub proof fn lemma_unpaired_ignored(
    names: Seq<Seq<char>>,
    k: Seq<char>,
    ex: Map<Seq<char>, Seq<u64>>,
    rf: Map<Seq<char>, Seq<u64>>,
)
    requires
        !paired(k, ex, rf),
    ensures
        matched_count(names.push(k), ex, rf) == matched_count(names, ex, rf),
        mismatched(names.push(k), ex, rf) == mismatched(names, ex, rf),
{
    assert(names.push(k).drop_last() =~= names);
}

/// For two well-formed mappings, a name held by both counts as a match
/// exactly when its two size lists hold the same sizes.
pub proof fn lemma_match_is_same_sizes(ex: TypeSizes, rf: TypeSizes, k: Seq<char>)
    requires
        ex.wf(),
        rf.wf(),
        paired(k, ex@, rf@),
    ensures
        (ex@[k] == rf@[k]) <==> (forall|y: u64| ex@[k].contains(y) <==> rf@[k].contains(y)),
{
    ex.lemma_wf();
    rf.lemma_wf();
    if forall|y: u64| ex@[k].contains(y) <==> rf@[k].contains(y) {
        assert(strictly_ascending(ex@[k]));
        assert(strictly_ascending(rf@[k]));
        lemma_ascending_unique(ex@[k], rf@[k]);
    }
}

} // verus!
