//! What one scan of the watched directory sees, and which of it is eligible.
//!
//! A scan hands over one [`EntryProbe`] per directory entry, in the order in
//! which the directory was enumerated. Only writable regular files count
//! towards the limit: they become [`FileCandidate`]s, in the same order.

use vstd::prelude::*;

verus! {

/// When an entry was last modified, in nanoseconds since the Unix epoch
/// (negative before it).
#[derive(Clone, Copy, Debug, PartialEq, Eq, Structural)]
pub enum ModifiedTime {
    /// The file system reported the time.
    Known(i128),
    /// The time could not be determined; the entry was probed at the given
    /// moment, which stands in for it.
    Unknown { probed_at: i128 },
}

impl ModifiedTime {
    /// The time by which the entry is ordered.
    pub open spec fn effective(self) -> int {
        match self {
            ModifiedTime::Known(t) => t as int,
            ModifiedTime::Unknown { probed_at } => probed_at as int,
        }
    }

    /// The reported time, or the moment of the probe where none was reported,
    /// so that a file without a timestamp never counts as older than it can be.
    pub fn resolve(&self) -> (t: i128)
        ensures
            t == self.effective(),
    {
        match self {
            ModifiedTime::Known(t) => *t,
            ModifiedTime::Unknown { probed_at } => *probed_at,
        }
    }
}

/// The metadata of one directory entry.
#[derive(Clone, Copy, Debug, PartialEq, Eq, Structural)]
pub struct EntryMeta {
    /// The entry is a regular file.
    pub is_file: bool,
    /// Its permissions mark it read-only.
    pub readonly: bool,
    pub modified: ModifiedTime,
}

/// One directory entry as a scan found it. `meta` is `None` where the entry's
/// metadata could not be fetched.
#[derive(Clone, Debug, PartialEq, Eq)]
pub struct EntryProbe {
    pub path: String,
    pub meta: Option<EntryMeta>,
}

/// The mathematical value of an [`EntryProbe`].
pub ghost struct ProbeView {
    pub path: Seq<char>,
    pub meta: Option<EntryMeta>,
}

impl View for EntryProbe {
    type V = ProbeView;

    open spec fn view(&self) -> ProbeView {
        ProbeView { path: self.path@, meta: self.meta }
    }
}

/// A writable regular file found by one scan.
#[derive(Clone, Debug, PartialEq, Eq)]
pub struct FileCandidate {
    pub path: String,
    /// Nanoseconds since the Unix epoch.
    pub last_modified_time: i128,
}

/// The mathematical value of a [`FileCandidate`].
pub ghost struct CandidateView {
    pub path: Seq<char>,
    pub last_modified_time: int,
}

impl View for FileCandidate {
    type V = CandidateView;

    open spec fn view(&self) -> CandidateView {
        CandidateView { path: self.path@, last_modified_time: self.last_modified_time as int }
    }
}

/// How a scan treats one entry.
#[derive(Clone, Copy, Debug, PartialEq, Eq, Structural)]
pub enum EntryClass {
    /// A writable regular file: it counts and may be evicted.
    Eligible,
    /// A regular file marked read-only: skipped.
    ReadOnly,
    /// A directory or anything else that is no regular file: ignored.
    NotAFile,
    /// Its metadata could not be fetched: ignored.
    Unreadable,
}

/// The class of an entry with the given metadata.
pub open spec fn class_of(meta: Option<EntryMeta>) -> EntryClass {
    match meta {
        None => EntryClass::Unreadable,
        Some(m) => if !m.is_file {
            EntryClass::NotAFile
        } else if m.readonly {
            EntryClass::ReadOnly
        } else {
            EntryClass::Eligible
        },
    }
}

/// Whether the entry counts towards the limit.
pub open spec fn is_eligible(p: ProbeView) -> bool {
    class_of(p.meta) == EntryClass::Eligible
}

/// The candidate that an eligible entry becomes.
pub open spec fn candidate_of(p: ProbeView) -> CandidateView
    recommends
        is_eligible(p),
{
    CandidateView { path: p.path, last_modified_time: p.meta.unwrap().modified.effective() }
}

/// The candidates of a scan: its eligible entries, in enumeration order.
pub open spec fn eligible(probes: Seq<ProbeView>) -> Seq<CandidateView>
    decreases probes.len(),
{
    if probes.len() == 0 {
        Seq::empty()
    } else if is_eligible(probes.last()) {
        eligible(probes.drop_last()).push(candidate_of(probes.last()))
    } else {
        eligible(probes.drop_last())
    }
}

/// How many entries of a scan fall into the given class.
pub open spec fn count_of(probes: Seq<ProbeView>, class: EntryClass) -> nat
    decreases probes.len(),
{
    if probes.len() == 0 {
        0
    } else if class_of(probes.last().meta) == class {
        count_of(probes.drop_last(), class) + 1
    } else {
        count_of(probes.drop_last(), class)
    }
}

/// The values of a list of probes.
pub open spec fn probe_views(probes: Seq<EntryProbe>) -> Seq<ProbeView> {
    probes.map_values(|p: EntryProbe| p@)
}

/// The values of a list of candidates.
pub open spec fn candidate_views(candidates: Seq<FileCandidate>) -> Seq<CandidateView> {
    candidates.map_values(|c: FileCandidate| c@)
}

impl EntryProbe {
    /// Says how a scan treats this entry.
    pub fn classify(&self) -> (class: EntryClass)
        ensures
            class == class_of(self@.meta),
    {
        match &self.meta {
            None => EntryClass::Unreadable,
            Some(m) => {
                if !m.is_file {
                    EntryClass::NotAFile
                } else if m.readonly {
                    EntryClass::ReadOnly
                } else {
                    EntryClass::Eligible
                }
            },
        }
    }
}

/// The candidates of a scan are as many as its eligible entries.
pub proof fn lemma_eligible_len(probes: Seq<ProbeView>)
    ensures
        eligible(probes).len() == count_of(probes, EntryClass::Eligible),
    decreases probes.len(),
{
    if probes.len() > 0 {
        lemma_eligible_len(probes.drop_last());
    }
}

/// Collects the candidates of a scan: every writable regular file, with its
/// path and the time by which it is ordered, in enumeration order.
pub fn collect_candidates(probes: &Vec<EntryProbe>) -> (candidates: Vec<FileCandidate>)
    ensures
        candidate_views(candidates@) == eligible(probe_views(probes@)),
{
    let mut candidates: Vec<FileCandidate> = Vec::new();
    let ghost all = probe_views(probes@);
    let mut i: usize = 0;
    proof {
        assert(all.take(0) =~= Seq::<ProbeView>::empty());
        assert(candidate_views(candidates@) =~= eligible(all.take(0)));
    }
    while i < probes.len()
        invariant
            i <= probes.len(),
            all == probe_views(probes@),
            candidate_views(candidates@) == eligible(all.take(i as int)),
        decreases probes.len() - i,
    {
        let probe = &probes[i];
        let ghost before = candidates@;
        proof {
            assert(all.take(i + 1).drop_last() =~= all.take(i as int));
            assert(all.take(i + 1).last() == probe@);
        }
        match probe.classify() {
            EntryClass::Eligible => {
                let t = probe.meta.unwrap().modified.resolve();
                let c = FileCandidate { path: probe.path.clone(), last_modified_time: t };
                candidates.push(c);
                proof {
                    assert(c@ == candidate_of(probe@));
                    assert(candidate_views(candidates@) =~= candidate_views(before).push(c@));
                }
            },
            _ => {},
        }
        i += 1;
    }
    proof {
        assert(all.take(i as int) =~= all);
    }
    candidates
}

/// Counts the entries of a scan that fall into the given class.
pub fn count_class(probes: &Vec<EntryProbe>, class: EntryClass) -> (n: usize)
    ensures
        n == count_of(probe_views(probes@), class),
{
    let ghost all = probe_views(probes@);
    let mut n: usize = 0;
    let mut i: usize = 0;
    proof {
        assert(all.take(0) =~= Seq::<ProbeView>::empty());
    }
    while i < probes.len()
        invariant
            i <= probes.len(),
            all == probe_views(probes@),
            n == count_of(all.take(i as int), class),
            n <= i,
        decreases probes.len() - i,
    {
        proof {
            assert(all.take(i + 1).drop_last() =~= all.take(i as int));
            assert(all.take(i + 1).last() == probes@[i as int]@);
        }
        if probes[i].classify() == class {
            n += 1;
        }
        i += 1;
    }
    proof {
        assert(all.take(i as int) =~= all);
    }
    n
}

} // verus!
