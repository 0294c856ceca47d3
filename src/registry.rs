//! Choosing a registry record for a requirement, and entering it in the
//! resolution table.
use vstd::prelude::*;
use crate::artifacts::{duplicate_parent, effective_specifier, parent_view, ResolveArtifacts, ResolvedItem};
use crate::cache::location_of;
use crate::package::{NpmPackage, Package, PackageType, RegistryKey};
use crate::version::expr_satisfied;

verus! {

/// A registry or archive had no version that satisfies the requirement; it
/// carries the requested expression as written.
#[derive(Debug, Clone)]
pub enum NetworkError {
    FailedToFetchVersion(String),
}

/// No candidate satisfies a requirement; it carries the requirement's text.
#[derive(Debug, Clone)]
pub struct ResolutionError {
    pub specifier: String,
}

/// The index of the first candidate version that the requirement accepts.
pub open spec fn first_match(p: Package, versions: Seq<Seq<char>>, i: int) -> bool {
    &&& 0 <= i < versions.len()
    &&& expr_satisfied(p.version@, versions[i])
    &&& forall|j: int| 0 <= j < i ==> !expr_satisfied(p.version@, #[trigger] versions[j])
}

pub open spec fn version_texts(v: Seq<(String, NpmPackage)>) -> Seq<Seq<char>> {
    v.map_values(|e: (String, NpmPackage)| e.0@)
}

pub open spec fn record_versions(v: Seq<NpmPackage>) -> Seq<Seq<char>> {
    v.map_values(|e: NpmPackage| e.version@)
}

/// The record of the first entry of a version index, in its order, whose
/// version the requirement accepts.
pub fn select_version(package: &Package, versions: &Vec<(String, NpmPackage)>) -> (r: Result<
    NpmPackage,
    NetworkError,
>)
    ensures
        match r {
            Ok(rec) => exists|i: int| first_match(*package, version_texts(versions@), i) && rec
                == versions@[i].1,
            Err(NetworkError::FailedToFetchVersion(s)) => s@ == package.raw_version@ && forall|
                i: int,
            | 0 <= i < versions@.len() ==> !expr_satisfied(package.version@, #[trigger] version_texts(versions@)[i]),
        },
{
    let mut i: usize = 0;
    while i < versions.len()
        invariant
            i <= versions@.len(),
            forall|j: int| 0 <= j < i ==> !expr_satisfied(package.version@, #[trigger] version_texts(versions@)[j]),
        decreases versions@.len() - i,
    {
        if package.version.satisfies(versions[i].0.as_str()) {
            assert(first_match(*package, version_texts(versions@), i as int));
            return Ok(versions[i].1.duplicate());
        }
        i = i + 1;
    }
    Err(NetworkError::FailedToFetchVersion(package.raw_version.clone()))
}

/// Resolves `package` against `candidates` (in registry order): the first
/// candidate it accepts is entered in `table` under `name@version`, unless
/// that key is already there, in which case the earlier entry stands.
/// Returns the key.
pub fn resolve_into(
    table: &mut ResolveArtifacts,
    package: &Package,
    candidates: &Vec<NpmPackage>,
    parent: Option<Vec<RegistryKey>>,
    package_type: PackageType,
) -> (r: Result<RegistryKey, ResolutionError>)
    requires
        old(table).wf(),
    ensures
        final(table).wf(),
        match r {
            Ok(key) => exists|i: int|
                first_match(*package, record_versions(candidates@), i) && key.name == candidates@[i].name
                    && key.version == candidates@[i].version && final(table)@.contains_key(location_of(key@))
                    && if old(table)@.contains_key(location_of(key@)) {
                    final(table)@ == old(table)@
                } else {
                    final(table)@ == old(table)@.insert(
                        location_of(key@),
                        final(table)@[location_of(key@)],
                    ) && final(table)@[location_of(key@)].package == candidates@[i]
                        && final(table)@[location_of(key@)].parent == parent
                    && final(table)@[location_of(key@)].package_type == package_type
                        && final(table)@[location_of(key@)].specifier@ == effective_specifier(
                        package.raw_version@,
                        candidates@[i].version@,
                    )
                },
            Err(e) => e.specifier@ == package.raw_version@ && final(table)@ == old(table)@
                && forall|i: int| 0 <= i < candidates@.len() ==> !expr_satisfied(package.version@, #[trigger] record_versions(candidates@)[i]),
        },
{
    let mut i: usize = 0;
    while i < candidates.len()
        invariant
            i <= candidates@.len(),
            *table == *old(table),
            table.wf(),
            forall|j: int| 0 <= j < i ==> !expr_satisfied(package.version@, #[trigger] record_versions(candidates@)[j]),
        decreases candidates@.len() - i,
    {
        if package.version.satisfies(candidates[i].version.as_str()) {
            assert(first_match(*package, record_versions(candidates@), i as int));
            let record = candidates[i].duplicate();
            let key = record.key();
            let text = crate::cache::location(&key);
            match table.get(text.as_str()) {
                Some(_) => {},
                None => {
                    let item = ResolvedItem::new(record, parent, package.raw_version.clone(), package_type);
                    table.insert(text, item);
                },
            }
            return Ok(key);
        }
        i = i + 1;
    }
    Err(ResolutionError { specifier: package.raw_version.clone() })
}

/// One requirement to resolve, with the records the registry returned for
/// its package, in the registry's order.
#[derive(Debug, Clone)]
pub struct Request {
    pub package: Package,
    pub candidates: Vec<NpmPackage>,
    pub parent: Option<Vec<RegistryKey>>,
    pub package_type: PackageType,
}

/// The table key of a record that `package` resolves to among `candidates`.
pub open spec fn resolves_to(package: Package, candidates: Seq<NpmPackage>, t: Map<Seq<char>, ResolvedItem>) -> bool {
    exists|j: int|
        first_match(package, record_versions(candidates), j) && t.contains_key(
            location_of((candidates[j].name@, candidates[j].version@)),
        )
}

/// `item` stands under key `k` as the first candidate that `req` accepts.
pub open spec fn made_by(req: Request, k: Seq<char>, item: ResolvedItem) -> bool {
    exists|j: int|
        first_match(req.package, record_versions(req.candidates@), j) && location_of(
            (req.candidates@[j].name@, req.candidates@[j].version@),
        ) == k && item.package == req.candidates@[j] && item.specifier@ == effective_specifier(
            req.package.raw_version@,
            req.candidates@[j].version@,
        ) && item.package_type == req.package_type && parent_view(item.parent) == parent_view(
            req.parent,
        )
}

/// Resolves every request in turn into a fresh table; the first request
/// that no candidate satisfies aborts the run and is named in the error.
pub fn resolve(requests: &Vec<Request>) -> (r: Result<ResolveArtifacts, ResolutionError>)
    ensures
        match r {
            Ok(t) => t.wf() && (forall|i: int| 0 <= i < requests@.len() ==> resolves_to(
                #[trigger] requests@[i].package,
                requests@[i].candidates@,
                t@,
            )) && forall|k: Seq<char>| #[trigger] t@.contains_key(k) ==> exists|i: int|
                0 <= i < requests@.len() && made_by(requests@[i], k, t@[k]),
            Err(e) => exists|i: int|
                0 <= i < requests@.len() && e.specifier@ == (#[trigger] requests@[i]).package.raw_version@
                    && forall|j: int| 0 <= j < requests@[i].candidates@.len() ==> !expr_satisfied(
                    requests@[i].package.version@,
                    #[trigger] record_versions(requests@[i].candidates@)[j],
                ),
        },
{
    let mut table = ResolveArtifacts::new();
    let mut i: usize = 0;
    while i < requests.len()
        invariant
            i <= requests@.len(),
            table.wf(),
            forall|k: int| 0 <= k < i ==> resolves_to(
                #[trigger] requests@[k].package,
                requests@[k].candidates@,
                table@,
            ),
            forall|k: Seq<char>| #[trigger] table@.contains_key(k) ==> exists|l: int|
                0 <= l < i && made_by(requests@[l], k, table@[k]),
        decreases requests@.len() - i,
    {
        let req = &requests[i];
        let parent = duplicate_parent(&req.parent);
        let ghost pv = parent_view(parent);
        let ghost before = table@;
        match resolve_into(&mut table, &req.package, &req.candidates, parent, req.package_type.duplicate()) {
            Ok(key) => {
                proof {
                    assert forall|k: int| 0 <= k <= i implies resolves_to(
                        #[trigger] requests@[k].package,
                        requests@[k].candidates@,
                        table@,
                    ) by {
                        if k < i {
                            let rq = requests@[k];
                            let j = choose|j: int|
                                first_match(rq.package, record_versions(rq.candidates@), j)
                                    && before.contains_key(
                                    location_of((rq.candidates@[j].name@, rq.candidates@[j].version@)),
                                );
                            assert(table@.contains_key(
                                location_of((rq.candidates@[j].name@, rq.candidates@[j].version@)),
                            ));
                        }
                    }
                    assert forall|kk: Seq<char>| #[trigger] table@.contains_key(kk) implies exists|l: int|
                        0 <= l < i + 1 && made_by(requests@[l], kk, table@[kk]) by {
                        if before.contains_key(kk) && table@[kk] == before[kk] {
                            let l = choose|l: int| 0 <= l < i && made_by(requests@[l], kk, before[kk]);
                            assert(made_by(requests@[l], kk, table@[kk]));
                        } else {
                            assert(made_by(requests@[i as int], kk, table@[kk]));
                        }
                    }
                }
            },
            Err(e) => {
                return Err(e);
            },
        }
        i = i + 1;
    }
    Ok(table)
}

} // verus!
