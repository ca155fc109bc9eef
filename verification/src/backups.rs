//! The per-volume candidate table built during reconciliation.  Candidates
//! are kept strictly sorted by volume name, so each volume has at most one
//! candidate and the worklist comes out ordered.

use vstd::prelude::*;

use crate::text::{lemma_lex_irrefl, lemma_lex_total, lemma_lex_trans, lex_lt, str_eq, str_lt};

verus! {

/// A proposed backup operation for one volume.
#[derive(Debug)]
pub struct Backup {
    pub filename_base: String,
    pub volume: String,
    pub start_snapshot: Option<String>,
    pub end_snapshot: Option<String>,
}

/// The mathematical image of a candidate.
pub struct BackupView {
    pub filename_base: Seq<char>,
    pub volume: Seq<char>,
    pub start_snapshot: Option<Seq<char>>,
    pub end_snapshot: Option<Seq<char>>,
}

pub open spec fn opt_str_view(o: Option<String>) -> Option<Seq<char>> {
    match o {
        Some(s) => Some(s@),
        None => None,
    }
}

impl View for Backup {
    type V = BackupView;

    open spec fn view(&self) -> BackupView {
        BackupView {
            filename_base: self.filename_base@,
            volume: self.volume@,
            start_snapshot: opt_str_view(self.start_snapshot),
            end_snapshot: opt_str_view(self.end_snapshot),
        }
    }
}

/// Strictly ascending volume names: no volume occurs twice.
pub open spec fn sorted_by_volume(s: Seq<BackupView>) -> bool {
    forall|i: int, j: int| 0 <= i < j < s.len() ==> lex_lt(#[trigger] s[i].volume, #[trigger] s[j].volume)
}

/// Index of the candidate for `vol`, or `-1` if there is none.
pub open spec fn spec_find_volume(s: Seq<BackupView>, vol: Seq<char>) -> int
    decreases s.len(),
{
    if s.len() == 0 {
        -1
    } else if s[0].volume == vol {
        0
    } else {
        let r = spec_find_volume(s.skip(1), vol);
        if r < 0 {
            -1
        } else {
            r + 1
        }
    }
}

pub proof fn lemma_find_volume_none(s: Seq<BackupView>, vol: Seq<char>)
    requires
        forall|j: int| 0 <= j < s.len() ==> (#[trigger] s[j]).volume != vol,
    ensures
        spec_find_volume(s, vol) == -1,
    decreases s.len(),
{
    if s.len() > 0 {
        assert forall|j: int| 0 <= j < s.skip(1).len() implies (#[trigger] s.skip(1)[j]).volume
            != vol by {
            assert(s.skip(1)[j] == s[j + 1]);
        }
        lemma_find_volume_none(s.skip(1), vol);
    }
}

pub proof fn lemma_find_volume_at(s: Seq<BackupView>, vol: Seq<char>, i: int)
    requires
        0 <= i < s.len(),
        s[i].volume == vol,
        forall|j: int| 0 <= j < i ==> (#[trigger] s[j]).volume != vol,
    ensures
        spec_find_volume(s, vol) == i,
    decreases s.len(),
{
    if i > 0 {
        assert forall|j: int| 0 <= j < i - 1 implies (#[trigger] s.skip(1)[j]).volume != vol by {
            assert(s.skip(1)[j] == s[j + 1]);
        }
        assert(s.skip(1)[i - 1] == s[i]);
        lemma_find_volume_at(s.skip(1), vol, i - 1);
    }
}

/// A later baseline label supersedes the recorded one.
pub open spec fn should_replace(e: BackupView, ss: Option<Seq<char>>) -> bool {
    &&& ss is Some
    &&& (e.start_snapshot is None || lex_lt(e.start_snapshot->0, ss->0))
}

/// The candidates whose target snapshot was resolved, in order.
pub open spec fn keep_resolved(s: Seq<BackupView>) -> Seq<BackupView>
    decreases s.len(),
{
    if s.len() == 0 {
        Seq::empty()
    } else if s.last().end_snapshot is Some {
        keep_resolved(s.drop_last()).push(s.last())
    } else {
        keep_resolved(s.drop_last())
    }
}

/// Every retained candidate already stood in the table, and each has a
/// resolved target.
pub proof fn lemma_keep_resolved_membership(s: Seq<BackupView>)
    ensures
        forall|j: int|
            0 <= j < keep_resolved(s).len() ==> exists|i: int|
                0 <= i < s.len() && s[i] == #[trigger] keep_resolved(s)[j],
        forall|j: int|
            0 <= j < keep_resolved(s).len() ==> (#[trigger] keep_resolved(s)[j]).end_snapshot
                is Some,
    decreases s.len(),
{
    if s.len() > 0 {
        lemma_keep_resolved_membership(s.drop_last());
        assert forall|j: int| 0 <= j < keep_resolved(s).len() implies exists|i: int|
            0 <= i < s.len() && s[i] == #[trigger] keep_resolved(s)[j] by {
            if j < keep_resolved(s.drop_last()).len() {
                assert(keep_resolved(s)[j] == keep_resolved(s.drop_last())[j]);
                let i = choose|i: int|
                    0 <= i < s.drop_last().len() && s.drop_last()[i] == keep_resolved(
                        s.drop_last(),
                    )[j];
                assert(s[i] == keep_resolved(s)[j]);
            } else {
                assert(keep_resolved(s)[j] == s.last());
                assert(s[s.len() - 1] == keep_resolved(s)[j]);
            }
        }
    }
}

/// A found volume index is in range and names that volume.
pub proof fn lemma_find_volume_found(s: Seq<BackupView>, vol: Seq<char>)
    requires
        spec_find_volume(s, vol) >= 0,
    ensures
        0 <= spec_find_volume(s, vol) < s.len(),
        s[spec_find_volume(s, vol)].volume == vol,
    decreases s.len(),
{
    if s.len() > 0 && s[0].volume != vol {
        lemma_find_volume_found(s.skip(1), vol);
        assert(s.skip(1)[spec_find_volume(s.skip(1), vol)] == s[spec_find_volume(s, vol)]);
    }
}

/// Every candidate with a resolved target is retained.
pub proof fn lemma_keep_resolved_complete(s: Seq<BackupView>)
    ensures
        forall|i: int|
            0 <= i < s.len() && (#[trigger] s[i]).end_snapshot is Some ==> exists|j: int|
                0 <= j < keep_resolved(s).len() && keep_resolved(s)[j] == s[i],
    decreases s.len(),
{
    if s.len() > 0 {
        let t = s.drop_last();
        lemma_keep_resolved_complete(t);
        assert forall|i: int|
            0 <= i < s.len() && (#[trigger] s[i]).end_snapshot is Some implies exists|j: int|
            0 <= j < keep_resolved(s).len() && keep_resolved(s)[j] == s[i] by {
            if i < s.len() - 1 {
                assert(t[i] == s[i]);
                let j = choose|j: int|
                    0 <= j < keep_resolved(t).len() && keep_resolved(t)[j] == t[i];
                assert(keep_resolved(s)[j] == keep_resolved(t)[j]);
            } else {
                assert(s.last() == s[i]);
                let j = keep_resolved(s).len() - 1;
                assert(keep_resolved(s)[j] == s[i]);
            }
        }
    }
}

/// Dropping unresolved candidates keeps the order strict.
pub proof fn lemma_keep_resolved_sorted(s: Seq<BackupView>)
    requires
        sorted_by_volume(s),
    ensures
        sorted_by_volume(keep_resolved(s)),
    decreases s.len(),
{
    if s.len() > 0 {
        let t = s.drop_last();
        assert forall|i: int, j: int| 0 <= i < j < t.len() implies lex_lt(
            #[trigger] t[i].volume,
            #[trigger] t[j].volume,
        ) by {
            assert(t[i] == s[i] && t[j] == s[j]);
        }
        lemma_keep_resolved_sorted(t);
        lemma_keep_resolved_membership(t);
        if s.last().end_snapshot is Some {
            let kr = keep_resolved(s);
            assert forall|i: int, j: int| 0 <= i < j < kr.len() implies lex_lt(
                #[trigger] kr[i].volume,
                #[trigger] kr[j].volume,
            ) by {
                if j < kr.len() - 1 {
                    assert(kr[i] == keep_resolved(t)[i] && kr[j] == keep_resolved(t)[j]);
                } else {
                    assert(kr[j] == s.last());
                    assert(kr[i] == keep_resolved(t)[i]);
                    let m = choose|m: int| 0 <= m < t.len() && t[m] == keep_resolved(t)[i];
                    assert(t[m] == s[m]);
                    assert(lex_lt(s[m].volume, s[s.len() - 1].volume));
                }
            }
        }
    }
}

/// The candidate table, keyed by volume.
pub struct Backups {
    entries: Vec<Backup>,
}

impl View for Backups {
    type V = Seq<BackupView>;

    closed spec fn view(&self) -> Seq<BackupView> {
        self.entries@.map_values(|b: Backup| b@)
    }
}

impl Backups {
    pub open spec fn wf(&self) -> bool {
        sorted_by_volume(self@)
    }

    pub fn new() -> (r: Backups)
        ensures
            r@ == Seq::<BackupView>::empty(),
            r.wf(),
    {
        let r = Backups { entries: Vec::new() };
        proof {
            assert(r@ =~= Seq::<BackupView>::empty());
        }
        r
    }

    pub fn len(&self) -> (n: usize)
        ensures
            n == self@.len(),
    {
        self.entries.len()
    }

    pub fn get(&self, i: usize) -> (b: &Backup)
        requires
            i < self@.len(),
        ensures
            b@ == self@[i as int],
    {
        &self.entries[i]
    }

    /// Finds the position `vol` has or would get in the sorted table.
    fn lower_bound(&self, vol: &str) -> (i: usize)
        requires
            self.wf(),
        ensures
            i <= self@.len(),
            forall|j: int| 0 <= j < i ==> lex_lt((#[trigger] self@[j]).volume, vol@),
            i < self@.len() ==> !lex_lt(self@[i as int].volume, vol@),
    {
        let n = self.entries.len();
        let mut i: usize = 0;
        while i < n
            invariant
                n == self@.len(),
                i <= n,
                forall|j: int| 0 <= j < i ==> lex_lt((#[trigger] self@[j]).volume, vol@),
            decreases n - i,
        {
            if !str_lt(self.entries[i].volume.as_str(), vol) {
                return i;
            }
            assert(self@[i as int].volume == self.entries@[i as int].volume@);
            i = i + 1;
        }
        i
    }

    /// Records a candidate seen on disk.  A new volume is inserted in
    /// order with no target resolved yet; a volume already present keeps
    /// the lexicographically greatest baseline label, together with the
    /// file-name stem that carried it.
    pub fn insert(&mut self, filename_base: String, volume: String, start_snapshot: Option<String>)
        requires
            old(self).wf(),
        ensures
            final(self).wf(),
            ({
                let s = old(self)@;
                let ss = opt_str_view(start_snapshot);
                let k = spec_find_volume(s, volume@);
                if k >= 0 {
                    if should_replace(s[k], ss) {
                        final(self)@ == s.update(
                            k,
                            BackupView {
                                filename_base: filename_base@,
                                volume: s[k].volume,
                                start_snapshot: ss,
                                end_snapshot: s[k].end_snapshot,
                            },
                        )
                    } else {
                        final(self)@ == s
                    }
                } else {
                    exists|p: int|
                        0 <= p <= s.len() && final(self)@ == s.insert(
                            p,
                            BackupView {
                                filename_base: filename_base@,
                                volume: volume@,
                                start_snapshot: ss,
                                end_snapshot: None,
                            },
                        )
                }
            }),
    {
        let ghost s = self@;
        let i = self.lower_bound(volume.as_str());
        let n = self.entries.len();
        if i < n && str_eq(self.entries[i].volume.as_str(), volume.as_str()) {
            proof {
                assert(s[i as int].volume == volume@);
                assert forall|j: int| 0 <= j < i implies (#[trigger] s[j]).volume != volume@ by {
                    if s[j].volume == volume@ {
                        lemma_lex_irrefl(volume@);
                    }
                }
                lemma_find_volume_at(s, volume@, i as int);
            }
            let replace = match (&start_snapshot, &self.entries[i].start_snapshot) {
                (Some(_), None) => true,
                (Some(newl), Some(oldl)) => str_lt(oldl.as_str(), newl.as_str()),
                (None, _) => false,
            };
            if replace {
                let vol2 = self.entries[i].volume.clone();
                let end2 = match &self.entries[i].end_snapshot {
                    Some(e) => Some(e.clone()),
                    None => None,
                };
                let nb = Backup {
                    filename_base,
                    volume: vol2,
                    start_snapshot,
                    end_snapshot: end2,
                };
                self.entries[i] = nb;
                proof {
                    assert(final(self)@ =~= s.update(
                        i as int,
                        BackupView {
                            filename_base: nb.filename_base@,
                            volume: s[i as int].volume,
                            start_snapshot: opt_str_view(nb.start_snapshot),
                            end_snapshot: s[i as int].end_snapshot,
                        },
                    ));
                    assert forall|a: int, b: int| 0 <= a < b < final(self)@.len() implies lex_lt(
                        (#[trigger] final(self)@[a]).volume,
                        (#[trigger] final(self)@[b]).volume,
                    ) by {
                        assert(final(self)@[a].volume == s[a].volume);
                        assert(final(self)@[b].volume == s[b].volume);
                    }
                }
            }
        } else {
            proof {
                assert forall|j: int| 0 <= j < s.len() implies (#[trigger] s[j]).volume
                    != volume@ by {
                    if j < i {
                        if s[j].volume == volume@ {
                            lemma_lex_irrefl(volume@);
                        }
                    } else {
                        if i < s.len() {
                            assert(!lex_lt(s[i as int].volume, volume@));
                            assert(s[i as int].volume != volume@);
                            lemma_lex_total(volume@, s[i as int].volume);
                            assert(lex_lt(volume@, s[i as int].volume));
                            if j > i {
                                lemma_lex_trans(volume@, s[i as int].volume, s[j].volume);
                            }
                            if s[j].volume == volume@ {
                                lemma_lex_irrefl(volume@);
                            }
                        }
                    }
                }
                lemma_find_volume_none(s, volume@);
            }
            let nb = Backup { filename_base, volume, start_snapshot, end_snapshot: None };
            let ghost nbv = nb@;
            self.entries.insert(i, nb);
            proof {
                assert(final(self)@ =~= s.insert(i as int, nbv));
                if i < s.len() {
                    lemma_lex_total(nbv.volume, s[i as int].volume);
                }
                assert forall|a: int, b: int| 0 <= a < b < final(self)@.len() implies lex_lt(
                    (#[trigger] final(self)@[a]).volume,
                    (#[trigger] final(self)@[b]).volume,
                ) by {
                    let fs = final(self)@;
                    if b < i {
                        assert(fs[a] == s[a] && fs[b] == s[b]);
                    } else if a < i && b == i {
                        assert(fs[a] == s[a]);
                    } else if a < i && b > i {
                        assert(fs[a] == s[a] && fs[b] == s[b - 1]);
                    } else if a == i {
                        assert(fs[b] == s[b - 1]);
                        assert(lex_lt(nbv.volume, s[i as int].volume));
                        if b - 1 > i {
                            lemma_lex_trans(nbv.volume, s[i as int].volume, s[b - 1].volume);
                        }
                    } else {
                        assert(fs[a] == s[a - 1] && fs[b] == s[b - 1]);
                    }
                }
            }
        }
    }

    /// Rewrites the resolved baseline and target of the candidate at `i`,
    /// keeping its volume and file-name stem.
    pub fn set_resolution(&mut self, i: usize, start_snapshot: Option<String>, end_snapshot: Option<
        String,
    >)
        requires
            old(self).wf(),
            i < old(self)@.len(),
        ensures
            final(self).wf(),
            final(self)@ == old(self)@.update(
                i as int,
                BackupView {
                    filename_base: old(self)@[i as int].filename_base,
                    volume: old(self)@[i as int].volume,
                    start_snapshot: opt_str_view(start_snapshot),
                    end_snapshot: opt_str_view(end_snapshot),
                },
            ),
    {
        let ghost s = self@;
        let fb = self.entries[i].filename_base.clone();
        let vol = self.entries[i].volume.clone();
        let nb = Backup { filename_base: fb, volume: vol, start_snapshot, end_snapshot };
        self.entries[i] = nb;
        proof {
            assert(final(self)@ =~= s.update(
                i as int,
                BackupView {
                    filename_base: s[i as int].filename_base,
                    volume: s[i as int].volume,
                    start_snapshot: opt_str_view(final(self).entries@[i as int].start_snapshot),
                    end_snapshot: opt_str_view(final(self).entries@[i as int].end_snapshot),
                },
            ));
            assert forall|a: int, b: int| 0 <= a < b < final(self)@.len() implies lex_lt(
                (#[trigger] final(self)@[a]).volume,
                (#[trigger] final(self)@[b]).volume,
            ) by {
                assert(final(self)@[a].volume == s[a].volume);
                assert(final(self)@[b].volume == s[b].volume);
            }
        }
    }

    /// The worklist: candidates with a resolved target snapshot, in volume
    /// order; the rest are dropped.
    pub fn into_values(self) -> (r: Vec<Backup>)
        ensures
            r@.map_values(|b: Backup| b@) == keep_resolved(self@),
    {
        let ghost s = self@;
        let mut out: Vec<Backup> = Vec::new();
        let n = self.entries.len();
        let mut entries = self.entries;
        let mut i: usize = 0;
        proof {
            assert(out@.map_values(|b: Backup| b@) =~= keep_resolved(s.take(0)));
        }
        while i < n
            invariant
                n == entries@.len(),
                s == entries@.map_values(|b: Backup| b@),
                i <= n,
                out@.map_values(|b: Backup| b@) == keep_resolved(s.take(i as int)),
            decreases n - i,
        {
            let keep = match &entries[i].end_snapshot {
                Some(_) => true,
                None => false,
            };
            proof {
                assert(s.take(i + 1).drop_last() =~= s.take(i as int));
                assert(s.take(i + 1).last() == s[i as int]);
                assert(s[i as int] == entries@[i as int]@);
            }
            if keep {
                let fb = entries[i].filename_base.clone();
                let vol = entries[i].volume.clone();
                let ss = match &entries[i].start_snapshot {
                    Some(x) => Some(x.clone()),
                    None => None,
                };
                let es = match &entries[i].end_snapshot {
                    Some(x) => Some(x.clone()),
                    None => None,
                };
                out.push(Backup { filename_base: fb, volume: vol, start_snapshot: ss, end_snapshot: es });
                proof {
                    assert(out@.map_values(|b: Backup| b@) =~= keep_resolved(s.take(i + 1)));
                }
            } else {
                proof {
                    assert(out@.map_values(|b: Backup| b@) =~= keep_resolved(s.take(i + 1)));
                }
            }
            i = i + 1;
        }
        proof {
            assert(s.take(n as int) =~= s);
        }
        out
    }
}

} // verus!
