//! What the registry knows of a package: the latest of its versions.

use vstd::prelude::*;
use vstd::string::*;
use crate::error::Error;
use crate::text::{texts, Order};
use crate::version::{parse_spec, reports, version_order, Version, VersionFault, VersionView};

verus! {

/// How the registry is asked.
#[derive(Debug, Clone, Copy)]
pub struct CratesIo {
    /// The pause after each request, in milliseconds.
    pub rate_limit: u64,
}

/// The versions that the texts `nums` denote, or the first of them that is
/// no version, with its fault.
pub open spec fn versions_of(nums: Seq<Seq<char>>) -> Result<
    Seq<VersionView>,
    (Seq<char>, VersionFault),
>
    decreases nums.len(),
{
    if nums.len() == 0 {
        Ok(Seq::empty())
    } else {
        match versions_of(nums.drop_last()) {
            Err(f) => Err(f),
            Ok(vs) => match parse_spec(nums.last()) {
                Ok(v) => Ok(vs.push(v)),
                Err(f) => Err((nums.last(), f)),
            },
        }
    }
}

/// Whether one of `vs` has no suffix.
pub open spec fn has_stable(vs: Seq<VersionView>) -> bool {
    exists|i: int| 0 <= i < vs.len() && (#[trigger] vs[i]).suffix is None
}

/// Whether `v` is the greatest of those of `vs` that have no suffix.
pub open spec fn is_latest(vs: Seq<VersionView>, v: VersionView) -> bool {
    &&& v.suffix is None
    &&& vs.contains(v)
    &&& forall|i: int|
        0 <= i < vs.len() && (#[trigger] vs[i]).suffix is None ==> version_order(vs[i], v)
            != Order::Greater
}

/// What [`CratesIo::get_latest_version`] returns for the versions `nums` of
/// the package `name`.
pub open spec fn latest_outcome(name: Seq<char>, nums: Seq<Seq<char>>, r: Result<Version, Error>)
    -> bool {
    match versions_of(nums) {
        Err((s, f)) => r matches Err(e) && reports(e, f, s),
        Ok(vs) => if has_stable(vs) {
            r matches Ok(v) && is_latest(vs, v@)
        } else {
            r matches Err(Error::String(m)) && m@ == "No versions present for crate "@ + name
        },
    }
}

/// A fault found among the first texts is the fault of them all.
pub proof fn lemma_versions_fault_stays(nums: Seq<Seq<char>>, k: int)
    requires
        0 <= k <= nums.len(),
        versions_of(nums.take(k)) is Err,
    ensures
        versions_of(nums) == versions_of(nums.take(k)),
    decreases nums.len() - k,
{
    if k < nums.len() {
        assert(nums.take(k + 1).drop_last() =~= nums.take(k));
        lemma_versions_fault_stays(nums, k + 1);
    } else {
        assert(nums.take(k) =~= nums);
    }
}

impl CratesIo {
    /// The usual pause of 200 milliseconds.
    pub fn new() -> (r: CratesIo)
        ensures
            r.rate_limit == 200,
    {
        CratesIo::new_with_rate_limit(200)
    }

    pub fn new_with_rate_limit(rate_limit: u64) -> (r: CratesIo)
        ensures
            r.rate_limit == rate_limit,
    {
        CratesIo { rate_limit }
    }

    /// The latest version of the package `name`, of which the registry
    /// lists the versions `nums`: the greatest of those without a suffix.
    pub fn get_latest_version(&self, name: &str, nums: &Vec<String>) -> (r: Result<Version, Error>)
        ensures
            latest_outcome(name@, texts(nums@), r),
    {
        let ghost all = texts(nums@);
        let ghost seen: Seq<VersionView> = Seq::empty();
        let mut best: Option<Version> = None;
        let mut i: usize = 0;
        assert(all.take(0) =~= Seq::<Seq<char>>::empty());
        while i < nums.len()
            invariant
                i <= nums.len(),
                all == texts(nums@),
                versions_of(all.take(i as int)) == Ok::<
                    Seq<VersionView>,
                    (Seq<char>, VersionFault),
                >(seen),
                match best {
                    Some(v) => is_latest(seen, v@),
                    None => !has_stable(seen),
                },
            decreases nums.len() - i,
        {
            proof {
                assert(all.take(i + 1).drop_last() =~= all.take(i as int));
                assert(all.take(i + 1).last() == nums@[i as int]@);
            }
            let v = match Version::parse(nums[i].as_str()) {
                Ok(v) => v,
                Err(e) => {
                    proof {
                        lemma_versions_fault_stays(all, i + 1);
                    }
                    return Err(e);
                },
            };
            let ghost before = seen;
            proof {
                seen = seen.push(v@);
                assert forall|j: int| 0 <= j < before.len() implies seen[j] == before[j] by {}
                assert(seen[before.len() as int] == v@);
            }
            if v.suffix.is_none() {
                let better = match &best {
                    Some(b) => match v.compare(b) {
                        Order::Greater => true,
                        _ => false,
                    },
                    None => true,
                };
                if better {
                    proof {
                        assert(seen.contains(v@));
                        assert forall|j: int|
                            0 <= j < seen.len() && (#[trigger] seen[j]).suffix
                                is None implies version_order(seen[j], v@) != Order::Greater by {
                            if j < before.len() {
                                assert(before[j].suffix is None);
                            }
                        }
                    }
                    best = Some(v);
                } else {
                    proof {
                        let b = best->Some_0@;
                        let t = choose|t: int| 0 <= t < before.len() && before[t] == b;
                        assert(seen[t] == b);
                    }
                }
            } else {
                proof {
                    match &best {
                        Some(b) => {
                            let t = choose|t: int| 0 <= t < before.len() && before[t] == b@;
                            assert(seen[t] == b@);
                        },
                        None => {
                            if has_stable(seen) {
                                let t = choose|t: int|
                                    0 <= t < seen.len() && (#[trigger] seen[t]).suffix is None;
                                assert(before[t].suffix is None);
                            }
                        },
                    }
                }
            }
            i = i + 1;
        }
        assert(all.take(nums.len() as int) =~= all);
        match best {
            Some(v) => Ok(v),
            None => {
                let mut m = String::from_str("No versions present for crate ");
                m.append(name);
                Err(Error::String(m))
            },
        }
    }
}

} // verus!
