//! Repository discovery: decides, from plain filesystem facts probed by
//! the surrounding application, which configured scan paths are
//! version-control roots. The test is strictly non-recursive: only the
//! exact scan path is examined, never its descendants.

use vstd::prelude::*;
use crate::branch_store::lemma_filter_push;
use crate::config::ProjectConfig;
use crate::text::{file_name_of_path, spec_file_name, spec_join_path, join_path};

verus! {

/// A repository found at a scan path: its directory name and canonical
/// location.
#[derive(Debug, PartialEq)]
pub struct DiscoveredRepo {
    pub name: String,
    pub path: String,
}

/// The mathematical content of a discovery.
#[verifier::ext_equal]
pub struct DiscoveredView {
    pub name: Seq<char>,
    pub path: Seq<char>,
}

impl View for DiscoveredRepo {
    type V = DiscoveredView;

    open spec fn view(&self) -> DiscoveredView {
        DiscoveredView { name: self.name@, path: self.path@ }
    }
}

impl Clone for DiscoveredRepo {
    fn clone(&self) -> (r: Self)
        ensures
            r == *self,
    {
        DiscoveredRepo { name: self.name.clone(), path: self.path.clone() }
    }
}

/// The facts the application probed about one scan path. Nothing deeper
/// than the path itself is ever probed, which is what keeps discovery
/// non-recursive.
#[derive(Debug, PartialEq)]
pub struct ScanProbe {
    /// The joined (base, scan) path that was probed.
    pub path: String,
    /// Whether the path exists at all.
    pub exists: bool,
    /// Whether the path has a version-control metadata subdirectory.
    pub has_git_dir: bool,
    /// Whether the path has a packed-refs file.
    pub has_packed_refs: bool,
    /// The canonicalized path, absent when canonicalization failed.
    pub canonical: Option<String>,
}

impl Clone for ScanProbe {
    fn clone(&self) -> (r: Self)
        ensures
            r == *self,
    {
        ScanProbe {
            path: self.path.clone(),
            exists: self.exists,
            has_git_dir: self.has_git_dir,
            has_packed_refs: self.has_packed_refs,
            canonical: crate::entities::clone_opt_string(&self.canonical),
        }
    }
}

/// Whether a probed path is taken for a repository: it exists and carries
/// the control subdirectory or a packed-refs file, nothing else.
pub open spec fn spec_probe_qualifies(p: ScanProbe) -> bool {
    p.exists && (p.has_git_dir || p.has_packed_refs)
}

/// What a qualifying probe is recorded as: named by its last path
/// segment, located at its canonical path when one was obtained.
pub open spec fn spec_discovered(p: ScanProbe) -> DiscoveredView {
    DiscoveredView {
        name: match spec_file_name(p.path@) {
            Option::Some(n) => n,
            Option::None => "unknown"@,
        },
        path: match p.canonical {
            Option::Some(c) => c@,
            Option::None => p.path@,
        },
    }
}

/// The views of a discovery result, in order.
pub open spec fn discovered_views(s: Seq<DiscoveredRepo>) -> Seq<DiscoveredView> {
    Seq::new(s.len(), |i: int| s[i]@)
}

/// Everything a scan of the probes discovers: exactly the qualifying
/// probes, in probe order, nothing from any deeper path.
pub open spec fn spec_discover_all(probes: Seq<ScanProbe>) -> Seq<DiscoveredView> {
    probes.filter(|p: ScanProbe| spec_probe_qualifies(p)).map_values(
        |p: ScanProbe| spec_discovered(p),
    )
}

/// The discovery service: turns probed scan paths into repositories.
pub struct RepositoryDiscovery {
    pub projects: Vec<ProjectConfig>,
}

impl RepositoryDiscovery {
    pub fn new(projects: Vec<ProjectConfig>) -> (r: Self)
        ensures
            r.projects == projects,
    {
        RepositoryDiscovery { projects }
    }

    /// The absolute path probed for one (base, scan) pair.
    pub fn scan_target(&self, base_path: &str, scan_path: &str) -> (r: String)
        ensures
            r@ == spec_join_path(base_path@, scan_path@),
    {
        join_path(base_path, scan_path)
    }

    /// Whether a probed path is a version-control root.
    pub fn is_git_repo(&self, probe: &ScanProbe) -> (r: bool)
        ensures
            r == (probe.has_git_dir || probe.has_packed_refs),
    {
        probe.has_git_dir || probe.has_packed_refs
    }

    /// Decides every probe: a missing path is skipped, a qualifying path
    /// becomes a repository named by its last segment, everything else is
    /// skipped. Only the probed paths themselves are judged.
    pub fn discover_all(&self, probes: &Vec<ScanProbe>) -> (r: Vec<DiscoveredRepo>)
        ensures
            discovered_views(r@) == spec_discover_all(probes@),
    {
        let ghost pred = |p: ScanProbe| spec_probe_qualifies(p);
        let n = probes.len();
        let mut out: Vec<DiscoveredRepo> = Vec::new();
        let mut i: usize = 0;
        proof {
            assert(probes@.take(0).filter(pred) =~= Seq::<ScanProbe>::empty());
            assert(discovered_views(out@) =~= spec_discover_all(probes@.take(0)));
        }
        while i < n
            invariant
                i <= n,
                n == probes@.len(),
                discovered_views(out@) == spec_discover_all(probes@.take(i as int)),
                pred == (|p: ScanProbe| spec_probe_qualifies(p)),
            decreases n - i,
        {
            proof {
                let taken = probes@.take(i as int);
                assert(probes@.take(i + 1) =~= taken.push(probes@[i as int]));
                lemma_filter_push(taken, probes@[i as int], pred);
            }
            let p = &probes[i];
            if p.exists && (p.has_git_dir || p.has_packed_refs) {
                let name = match file_name_of_path(p.path.as_str()) {
                    Option::Some(n) => n,
                    Option::None => String::from_str("unknown"),
                };
                let path = match &p.canonical {
                    Option::Some(c) => c.clone(),
                    Option::None => p.path.clone(),
                };
                let found = DiscoveredRepo { name, path };
                proof {
                    assert(found@ =~~= spec_discovered(probes@[i as int]));
                }
                out.push(found);
                proof {
                    let taken = probes@.take(i as int);
                    assert(discovered_views(out@) =~= spec_discover_all(taken).push(
                        spec_discovered(probes@[i as int]),
                    ));
                    assert(taken.filter(pred).push(probes@[i as int]).map_values(
                        |p: ScanProbe| spec_discovered(p),
                    ) =~= spec_discover_all(taken).push(spec_discovered(probes@[i as int])));
                }
            }
            i = i + 1;
        }
        proof {
            assert(probes@.take(n as int) =~= probes@);
        }
        out
    }
}

} // verus!
