//! Built-in inputs of a discovery run and the qualification of bare
//! folder identifiers into resource names.

use vstd::prelude::*;
use vstd::string::StringExecFns;

verus! {

/// The folders searched for clusters when none are given.
pub fn default_folders() -> (r: Vec<String>)
    ensures
        r@.len() == 2,
        r@[0]@ == "739335424622"@,
        r@[1]@ == "105918521196"@,
{
    let mut r: Vec<String> = Vec::new();
    r.push(String::from_str("739335424622"));
    r.push(String::from_str("105918521196"));
    r
}

/// The locations where clusters are looked for when none are given.
pub fn default_locations() -> (r: Vec<String>)
    ensures
        r@.len() == 2,
        r@[0]@ == "europe-north1"@,
        r@[1]@ == "europe-west1"@,
{
    let mut r: Vec<String> = Vec::new();
    r.push(String::from_str("europe-north1"));
    r.push(String::from_str("europe-west1"));
    r
}

/// A bare folder identifier as the hierarchy names it.
pub open spec fn qualified_folder(id: Seq<char>) -> Seq<char> {
    "folders/"@ + id
}

/// Prefixes one bare folder identifier with `folders/`.
pub fn qualify_folder(id: &String) -> (r: String)
    ensures
        r@ == qualified_folder(id@),
{
    let mut r = String::from_str("folders/");
    r.append(id.as_str());
    r
}

/// Prefixes every given folder identifier with `folders/`, keeping order.
pub fn qualify_folders(ids: &Vec<String>) -> (r: Vec<String>)
    ensures
        r@.len() == ids@.len(),
        forall|i: int| 0 <= i < ids@.len() ==> r@[i]@ == qualified_folder(#[trigger] ids@[i]@),
{
    let mut r: Vec<String> = Vec::new();
    let mut k: usize = 0;
    while k < ids.len()
        invariant
            k <= ids@.len(),
            r@.len() == k,
            forall|i: int| 0 <= i < k ==> r@[i]@ == qualified_folder(#[trigger] ids@[i]@),
        decreases ids@.len() - k,
    {
        r.push(qualify_folder(&ids[k]));
        k = k + 1;
    }
    r
}

} // verus!
