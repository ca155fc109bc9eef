//! Backup reconciliation: matching on-disk artifact files to live volumes
//! and snapshots, and computing each volume's incremental baseline and
//! target snapshot.

use vstd::prelude::*;

use crate::backups::{
    keep_resolved, lemma_keep_resolved_membership, lemma_keep_resolved_sorted, opt_str_view,
    sorted_by_volume, spec_find_volume, Backup, BackupView, Backups,
};
use crate::dates::{parse_date, spec_parse_date};
use crate::text::{
    ends_with, find_char, find_sub, first_index_of, first_sub_index, is_prefix, is_suffix,
    lemma_first_index_of, lemma_first_sub_of, lex_lt, push_char, replace_ch, replace_char,
    starts_with, str_eq, str_lt,
};

verus! {

/// Diagnostics of a reconciliation pass.  None of them aborts it: the file
/// or candidate in question is skipped and processing continues.
#[derive(Debug)]
pub enum GatherNote {
    /// The artifact name has no `@` separating stem and baseline label.
    MalformedName { file: String },
    /// The denormalized stem matches no known volume.
    UnmatchedFile { file: String },
    /// The stem's suffix search matches more than one volume.
    AmbiguousFile { file: String },
    /// The recorded baseline no longer exists; the candidate was demoted
    /// to a full backup.
    DemotedToFull { volume: String, missing_start: String },
    /// The newest snapshot equals the baseline: nothing to do.
    UpToDate { volume: String, label: String },
    /// The volume has no date-labelled snapshot to back up.
    NoDatedSnapshots { volume: String },
}

/// The label of a snapshot of `vol`: what follows `vol@`.
pub open spec fn spec_snap_label(snap: Seq<char>, vol: Seq<char>) -> Seq<char> {
    snap.skip(vol.len() as int + 1)
}

/// `snap` is a snapshot of `vol` with a strict date label.
pub open spec fn is_dated_snap_of(snap: Seq<char>, vol: Seq<char>) -> bool {
    &&& is_prefix(vol + seq!['@'], snap)
    &&& spec_parse_date(spec_snap_label(snap, vol)) is Some
}

/// `vol@label` is among the snapshots, with `label` a strict date.
pub open spec fn spec_label_exists(
    snaps: Seq<Seq<char>>,
    vol: Seq<char>,
    label: Seq<char>,
) -> bool {
    &&& spec_parse_date(label) is Some
    &&& exists|j: int| 0 <= j < snaps.len() && snaps[j] == vol + seq!['@'] + label
}

/// The lexicographically greatest date label among `vol`'s snapshots.
pub open spec fn spec_max_label(snaps: Seq<Seq<char>>, vol: Seq<char>) -> Option<Seq<char>>
    decreases snaps.len(),
{
    if snaps.len() == 0 {
        None
    } else {
        let rest = spec_max_label(snaps.drop_last(), vol);
        if is_dated_snap_of(snaps.last(), vol) {
            let l = spec_snap_label(snaps.last(), vol);
            match rest {
                None => Some(l),
                Some(r) => if lex_lt(r, l) {
                    Some(l)
                } else {
                    Some(r)
                },
            }
        } else {
            rest
        }
    }
}

/// The volume name followed by the snapshot separator.
fn volume_at(vol: &str) -> (r: String)
    ensures
        r@ == vol@ + seq!['@'],
{
    let mut s = vol.to_owned();
    push_char(&mut s, '@');
    proof {
        assert(s@ =~= vol@ + seq!['@']);
    }
    s
}

/// The greatest date label among `vol`'s snapshots, scanning the full
/// snapshot list.
pub fn max_label(snapshots: &Vec<String>, vol: &str) -> (r: Option<String>)
    ensures
        opt_str_view(r) == spec_max_label(snapshots.deep_view(), vol@),
{
    let volat = volume_at(vol);
    let n = snapshots.len();
    let mut cur: Option<String> = None;
    let mut i: usize = 0;
    proof {
        assert(snapshots.deep_view().take(0) =~= Seq::<Seq<char>>::empty());
    }
    while i < n
        invariant
            n == snapshots@.len(),
            i <= n,
            volat@ == vol@ + seq!['@'],
            opt_str_view(cur) == spec_max_label(snapshots.deep_view().take(i as int), vol@),
        decreases n - i,
    {
        let ghost dv = snapshots.deep_view();
        proof {
            assert(dv[i as int] == snapshots@[i as int]@);
            assert(dv.take(i + 1).drop_last() =~= dv.take(i as int));
            assert(dv.take(i + 1).last() == dv[i as int]);
        }
        let snap = &snapshots[i];
        if starts_with(snap.as_str(), volat.as_str()) {
            let snlen = snap.as_str().unicode_len();
            let vlen = volat.as_str().unicode_len();
            let lab = snap.as_str().substring_char(vlen, snlen);
            proof {
                assert(lab@ =~= spec_snap_label(snap@, vol@));
            }
            match parse_date(lab) {
                Some(_) => {
                    let replace = match &cur {
                        None => true,
                        Some(c) => str_lt(c.as_str(), lab),
                    };
                    if replace {
                        cur = Some(lab.to_owned());
                    }
                },
                None => {},
            }
        }
        proof {
            assert(opt_str_view(cur) == spec_max_label(dv.take(i + 1), vol@));
        }
        i = i + 1;
    }
    proof {
        assert(snapshots.deep_view().take(n as int) =~= snapshots.deep_view());
    }
    cur
}

/// Whether the snapshot `vol@label` currently exists with a date label.
pub fn label_exists(snapshots: &Vec<String>, vol: &str, label: &str) -> (r: bool)
    ensures
        r == spec_label_exists(snapshots.deep_view(), vol@, label@),
{
    match parse_date(label) {
        None => {
            return false;
        },
        Some(_) => {},
    }
    let mut target = volume_at(vol);
    target.append(label);
    proof {
        assert(target@ =~= vol@ + seq!['@'] + label@);
    }
    let n = snapshots.len();
    let mut i: usize = 0;
    while i < n
        invariant
            n == snapshots@.len(),
            i <= n,
            target@ == vol@ + seq!['@'] + label@,
            spec_parse_date(label@) is Some,
            forall|j: int| 0 <= j < i ==> snapshots.deep_view()[j] != target@,
        decreases n - i,
    {
        if str_eq(snapshots[i].as_str(), target.as_str()) {
            proof {
                assert(snapshots.deep_view()[i as int] == snapshots@[i as int]@);
                assert(snapshots.deep_view()[i as int] == vol@ + seq!['@'] + label@);
                assert(spec_parse_date(label@) is Some);
                assert(exists|j: int|
                    0 <= j < snapshots.deep_view().len() && snapshots.deep_view()[j] == vol@
                        + seq!['@'] + label@) by {
                    assert(0 <= (i as int) < snapshots.deep_view().len() && snapshots.deep_view()[i as int]
                        == vol@ + seq!['@'] + label@);
                }
            }
            return true;
        }
        proof {
            assert(snapshots.deep_view()[i as int] == snapshots@[i as int]@);
        }
        i = i + 1;
    }
    false
}

/// Whether `name` occurs in the volume list.
fn volumes_contain(volumes: &Vec<String>, name: &String) -> (r: bool)
    ensures
        r == volumes.deep_view().contains(name@),
{
    let n = volumes.len();
    let mut i: usize = 0;
    while i < n
        invariant
            n == volumes@.len(),
            i <= n,
            forall|j: int| 0 <= j < i ==> volumes.deep_view()[j] != name@,
        decreases n - i,
    {
        if str_eq(volumes[i].as_str(), name.as_str()) {
            proof {
                assert(volumes.deep_view()[i as int] == name@);
            }
            return true;
        }
        proof {
            assert(volumes.deep_view()[i as int] == volumes@[i as int]@);
        }
        i = i + 1;
    }
    proof {
        if volumes.deep_view().contains(name@) {
            let j = choose|j: int|
                0 <= j < volumes.deep_view().len() && volumes.deep_view()[j] == name@;
            assert(false);
        }
    }
    false
}

/// What one directory entry means for reconciliation.
pub enum FileScan {
    /// Not a completed artifact: no archive marker, or an in-flight file.
    NotArtifact,
    /// The stem has no `@` separating volume and baseline label.
    MalformedName,
    /// The denormalized stem matches no known volume.
    NoMatch,
    /// The stem's suffix search matches more than one volume.
    Ambiguous,
    /// A recognized artifact of `volume` with incremental baseline `label`.
    Candidate { filename_base: String, volume: String, label: String },
}

/// The volumes that end with the given suffix, in order.
pub open spec fn suffix_matches(vs: Seq<Seq<char>>, sfx: Seq<char>) -> Seq<Seq<char>>
    decreases vs.len(),
{
    if vs.len() == 0 {
        Seq::empty()
    } else if is_suffix(sfx, vs.last()) {
        suffix_matches(vs.drop_last(), sfx).push(vs.last())
    } else {
        suffix_matches(vs.drop_last(), sfx)
    }
}


/// The volume and baseline label a directory entry resolves to, if any.
#[verifier::opaque]
pub open spec fn spec_scan_candidate(f: Seq<char>, vs: Seq<Seq<char>>) -> Option<
    (Seq<char>, Seq<char>),
> {
    let z = first_sub_index(f, ".zfs"@);
    if z < 0 || is_suffix("_partial"@, f) {
        None
    } else {
        let stem = f.take(z);
        let a = first_index_of(stem, '@');
        if a < 0 {
            None
        } else {
            let base = stem.take(a);
            let lab = stem.skip(a + 1);
            let volname = replace_ch(base, '_', '/');
            if vs.contains(volname) {
                Some((volname, lab))
            } else {
                let ms = suffix_matches(vs, seq!['/'] + volname);
                if ms.len() == 1 {
                    Some((ms[0], lab))
                } else {
                    None
                }
            }
        }
    }
}

/// Classifies one file name from the backup directory.  A name is an
/// artifact when it carries the archive marker and is not an in-flight
/// partial file; its stem before the marker splits at `@` into a volume
/// stem and the baseline label; underscores in the stem stand for path
/// separators.  A stem that names no volume exactly is matched against the
/// volumes' tails, tolerating volumes moved under a different parent; only
/// a unique tail match is accepted.
pub fn scan_file(file: &str, volumes: &Vec<String>) -> (r: FileScan)
    ensures
        (match r {
            FileScan::Candidate { filename_base, volume, label } => spec_scan_candidate(
                file@,
                volumes.deep_view(),
            ) == Some((volume@, label@)),
            _ => spec_scan_candidate(file@, volumes.deep_view()) is None,
        }),
        ({
            let f = file@;
            let vs = volumes.deep_view();
            let z = first_sub_index(f, ".zfs"@);
            if z < 0 || is_suffix("_partial"@, f) {
                r is NotArtifact
            } else {
                let stem = f.take(z);
                let a = first_index_of(stem, '@');
                if a < 0 {
                    r is MalformedName
                } else {
                    let base = stem.take(a);
                    let lab = stem.skip(a + 1);
                    let volname = replace_ch(base, '_', '/');
                    if vs.contains(volname) {
                        r matches FileScan::Candidate { filename_base, volume, label }
                            && filename_base@ == base && volume@ == volname && label@ == lab
                    } else {
                        let ms = suffix_matches(vs, seq!['/'] + volname);
                        if ms.len() == 1 {
                            r matches FileScan::Candidate { filename_base, volume, label }
                                && filename_base@ == volname && volume@ == ms[0] && label@ == lab
                        } else if ms.len() == 0 {
                            r is NoMatch
                        } else {
                            r is Ambiguous
                        }
                    }
                }
            }
        }),
{
    proof {
        reveal(spec_scan_candidate);
    }
    let z = match find_sub(file, ".zfs") {
        None => {
            return FileScan::NotArtifact;
        },
        Some(z) => z,
    };
    if ends_with(file, "_partial") {
        return FileScan::NotArtifact;
    }
    proof {
        lemma_first_sub_of(file@, ".zfs"@);
    }
    let stem_slice = file.substring_char(0, z);
    proof {
        assert(stem_slice@ =~= file@.take(z as int));
    }
    let a = match find_char(stem_slice, '@') {
        None => {
            return FileScan::MalformedName;
        },
        Some(a) => a,
    };
    proof {
        lemma_first_index_of(stem_slice@, '@');
    }
    let slen = stem_slice.unicode_len();
    let base = stem_slice.substring_char(0, a);
    let lab = stem_slice.substring_char(a + 1, slen);
    proof {
        assert(base@ =~= stem_slice@.take(a as int));
        assert(lab@ =~= stem_slice@.skip(a as int + 1));
    }
    let volname = replace_char(base, '_', '/');
    if volumes_contain(volumes, &volname) {
        return FileScan::Candidate {
            filename_base: base.to_owned(),
            volume: volname,
            label: lab.to_owned(),
        };
    }
    let mut sfx = String::new();
    push_char(&mut sfx, '/');
    sfx.append(volname.as_str());
    proof {
        assert(sfx@ =~= seq!['/'] + volname@);
    }
    let n = volumes.len();
    let mut count: usize = 0;
    let mut first: Option<String> = None;
    let mut i: usize = 0;
    proof {
        assert(volumes.deep_view().take(0) =~= Seq::<Seq<char>>::empty());
    }
    while i < n
        invariant
            n == volumes@.len(),
            i <= n,
            sfx@ == seq!['/'] + volname@,
            count <= i,
            count == suffix_matches(volumes.deep_view().take(i as int), sfx@).len(),
            count > 0 ==> opt_str_view(first) == Some(
                suffix_matches(volumes.deep_view().take(i as int), sfx@)[0],
            ),
        decreases n - i,
    {
        let ghost vs = volumes.deep_view();
        proof {
            assert(vs[i as int] == volumes@[i as int]@);
            assert(vs.take(i + 1).drop_last() =~= vs.take(i as int));
            assert(vs.take(i + 1).last() == vs[i as int]);
        }
        if ends_with(volumes[i].as_str(), sfx.as_str()) {
            if count == 0 {
                first = Some(volumes[i].clone());
            }
            count = count + 1;
            proof {
                assert(suffix_matches(vs.take(i + 1), sfx@) =~= suffix_matches(
                    vs.take(i as int),
                    sfx@,
                ).push(vs[i as int]));
            }
        }
        i = i + 1;
    }
    proof {
        assert(volumes.deep_view().take(n as int) =~= volumes.deep_view());
    }
    if count == 1 {
        let m = match first {
            Some(m) => m,
            None => {
                return FileScan::Ambiguous;
            },
        };
        FileScan::Candidate { filename_base: volname, volume: m, label: lab.to_owned() }
    } else if count == 0 {
        FileScan::NoMatch
    } else {
        FileScan::Ambiguous
    }
}

/// A candidate whose target was resolved against the snapshot list `snaps`:
/// its target is the greatest date label its volume has, it differs from
/// the baseline, and a recorded baseline still exists.
pub open spec fn resolved_kept(e: BackupView, snaps: Seq<Seq<char>>) -> bool {
    &&& e.end_snapshot is Some
    &&& e.end_snapshot == spec_max_label(snaps, e.volume)
    &&& e.start_snapshot != e.end_snapshot
    &&& (e.start_snapshot is Some ==> spec_label_exists(snaps, e.volume, e.start_snapshot->0))
}

pub open spec fn resolved_entry(e: BackupView, snaps: Seq<Seq<char>>) -> bool {
    e.end_snapshot is Some ==> resolved_kept(e, snaps)
}

/// The volume `v` already has a candidate in the table.
pub open spec fn vol_present(s: Seq<BackupView>, v: Seq<char>) -> bool {
    exists|i: int| 0 <= i < s.len() && (#[trigger] s[i]).volume == v
}

/// Some file among the first `upto` resolves to volume `v` with baseline
/// label `l`.
pub open spec fn baseline_from_files(
    dvf: Seq<Seq<char>>,
    dvv: Seq<Seq<char>>,
    upto: int,
    v: Seq<char>,
    l: Seq<char>,
) -> bool {
    exists|k: int| 0 <= k < upto && #[trigger] spec_scan_candidate(dvf[k], dvv) == Some((v, l))
}

/// Every file among the first `upto` that resolves to a volume has a
/// candidate for that volume in the table.
pub open spec fn scans_recorded(
    t: Seq<BackupView>,
    dvf: Seq<Seq<char>>,
    dvv: Seq<Seq<char>>,
    upto: int,
) -> bool {
    forall|k: int|
        0 <= k < upto && (#[trigger] spec_scan_candidate(dvf[k], dvv)) is Some ==> vol_present(
            t,
            (spec_scan_candidate(dvf[k], dvv)->0).0,
        )
}

/// Every recorded baseline in the table was carried by one of the first
/// `upto` files.
pub open spec fn baselines_recorded(
    t: Seq<BackupView>,
    dvf: Seq<Seq<char>>,
    dvv: Seq<Seq<char>>,
    upto: int,
) -> bool {
    forall|idx: int|
        0 <= idx < t.len() && (#[trigger] t[idx]).start_snapshot is Some ==> baseline_from_files(
            dvf,
            dvv,
            upto,
            t[idx].volume,
            t[idx].start_snapshot->0,
        )
}

proof fn lemma_baselines_widen(
    t: Seq<BackupView>,
    dvf: Seq<Seq<char>>,
    dvv: Seq<Seq<char>>,
    a: int,
    b: int,
)
    requires
        a <= b,
        baselines_recorded(t, dvf, dvv, a),
    ensures
        baselines_recorded(t, dvf, dvv, b),
{
    assert forall|idx: int|
        0 <= idx < t.len() && (#[trigger] t[idx]).start_snapshot is Some implies baseline_from_files(
        dvf,
        dvv,
        b,
        t[idx].volume,
        t[idx].start_snapshot->0,
    ) by {
        let kw = choose|kw: int|
            0 <= kw < a && #[trigger] spec_scan_candidate(dvf[kw], dvv) == Some((
                t[idx].volume,
                t[idx].start_snapshot->0,
            ));
        assert(spec_scan_candidate(dvf[kw], dvv) == Some((
            t[idx].volume,
            t[idx].start_snapshot->0,
        )));
    }
}

/// What recording one candidate does to the two bookkeeping facts.
proof fn lemma_candidate_recorded(
    before: Seq<BackupView>,
    after: Seq<BackupView>,
    fbv: Seq<char>,
    volv: Seq<char>,
    labv: Seq<char>,
    dvf: Seq<Seq<char>>,
    dvv: Seq<Seq<char>>,
    fi: int,
)
    requires
        0 <= fi < dvf.len(),
        spec_scan_candidate(dvf[fi], dvv) == Some((volv, labv)),
        scans_recorded(before, dvf, dvv, fi),
        baselines_recorded(before, dvf, dvv, fi),
        ({
            let k = spec_find_volume(before, volv);
            if k >= 0 {
                if crate::backups::should_replace(before[k], Some(labv)) {
                    after == before.update(
                        k,
                        BackupView {
                            filename_base: fbv,
                            volume: before[k].volume,
                            start_snapshot: Some(labv),
                            end_snapshot: before[k].end_snapshot,
                        },
                    )
                } else {
                    after == before
                }
            } else {
                exists|p: int|
                    0 <= p <= before.len() && after == before.insert(
                        p,
                        BackupView {
                            filename_base: fbv,
                            volume: volv,
                            start_snapshot: Some(labv),
                            end_snapshot: None,
                        },
                    )
            }
        }),
    ensures
        scans_recorded(after, dvf, dvv, fi + 1),
        baselines_recorded(after, dvf, dvv, fi + 1),
{
    let kidx = spec_find_volume(before, volv);
    if kidx >= 0 {
        crate::backups::lemma_find_volume_found(before, volv);
        assert(before[kidx].volume == volv);
        lemma_baselines_widen(before, dvf, dvv, fi, fi + 1);
        if crate::backups::should_replace(before[kidx], Some(labv)) {
            assert forall|idx2: int|
                0 <= idx2 < after.len() && (
                #[trigger] after[idx2]).start_snapshot is Some implies baseline_from_files(
                dvf,
                dvv,
                fi + 1,
                after[idx2].volume,
                after[idx2].start_snapshot->0,
            ) by {
                if idx2 == kidx {
                    assert(after[idx2].volume == volv);
                    assert(after[idx2].start_snapshot == Some(labv));
                } else {
                    assert(after[idx2] == before[idx2]);
                }
            }
            assert forall|k2: int|
                0 <= k2 < fi + 1 && (#[trigger] spec_scan_candidate(
                    dvf[k2],
                    dvv,
                )) is Some implies vol_present(
                after,
                (spec_scan_candidate(dvf[k2], dvv)->0).0,
            ) by {
                let v2 = (spec_scan_candidate(dvf[k2], dvv)->0).0;
                if k2 < fi {
                    let idx = choose|idx: int|
                        0 <= idx < before.len() && (#[trigger] before[idx]).volume == v2;
                    assert(after[idx].volume == v2);
                } else {
                    assert(after[kidx].volume == volv);
                }
            }
        } else {
            assert forall|k2: int|
                0 <= k2 < fi + 1 && (#[trigger] spec_scan_candidate(
                    dvf[k2],
                    dvv,
                )) is Some implies vol_present(
                after,
                (spec_scan_candidate(dvf[k2], dvv)->0).0,
            ) by {
                if k2 == fi {
                    assert(after[kidx].volume == volv);
                }
            }
        }
    } else {
        let nbv = BackupView {
            filename_base: fbv,
            volume: volv,
            start_snapshot: Some(labv),
            end_snapshot: None,
        };
        let p = choose|p: int| 0 <= p <= before.len() && after == before.insert(p, nbv);
        assert forall|idx2: int|
            0 <= idx2 < after.len() && (
            #[trigger] after[idx2]).start_snapshot is Some implies baseline_from_files(
            dvf,
            dvv,
            fi + 1,
            after[idx2].volume,
            after[idx2].start_snapshot->0,
        ) by {
            if idx2 == p {
                assert(after[idx2] == nbv);
            } else {
                let old_e = if idx2 < p {
                    before[idx2]
                } else {
                    before[idx2 - 1]
                };
                assert(after[idx2] == old_e);
                let kw = choose|kw: int|
                    0 <= kw < fi && #[trigger] spec_scan_candidate(dvf[kw], dvv) == Some((
                        old_e.volume,
                        old_e.start_snapshot->0,
                    ));
                assert(spec_scan_candidate(dvf[kw], dvv) == Some((
                    after[idx2].volume,
                    after[idx2].start_snapshot->0,
                )));
            }
        }
        assert forall|k2: int|
            0 <= k2 < fi + 1 && (#[trigger] spec_scan_candidate(
                dvf[k2],
                dvv,
            )) is Some implies vol_present(
            after,
            (spec_scan_candidate(dvf[k2], dvv)->0).0,
        ) by {
            let v2 = (spec_scan_candidate(dvf[k2], dvv)->0).0;
            if k2 < fi {
                let idx = choose|idx: int|
                    0 <= idx < before.len() && (#[trigger] before[idx]).volume == v2;
                if idx < p {
                    assert(after[idx].volume == v2);
                } else {
                    assert(after[idx + 1].volume == v2);
                }
            } else {
                assert(after[p].volume == volv);
            }
        }
    }
}

/// A backup of `v` is owed: the volume has a greatest date label and no
/// artifact on disk already starts from that label, so reconciliation
/// cannot drop it as up to date.
pub open spec fn backup_owed(
    snaps: Seq<Seq<char>>,
    dvf: Seq<Seq<char>>,
    dvv: Seq<Seq<char>>,
    v: Seq<char>,
) -> bool {
    &&& spec_max_label(snaps, v) is Some
    &&& !baseline_from_files(dvf, dvv, dvf.len() as int, v, spec_max_label(snaps, v)->0)
}

/// Scans the backup directory listing into a candidate table, noting the
/// files that resolve to no volume.
fn scan_files_into_table(volumes: &Vec<String>, files: &Vec<String>, notes: &mut Vec<GatherNote>)
    -> (backups: Backups)
    ensures
        backups.wf(),
        scans_recorded(backups@, files.deep_view(), volumes.deep_view(), files.deep_view().len() as int),
        baselines_recorded(backups@, files.deep_view(), volumes.deep_view(), files.deep_view().len() as int),
{
    let ghost dvf = files.deep_view();
    let ghost dvv = volumes.deep_view();
    let mut backups = Backups::new();
    let nf = files.len();
    let mut fi: usize = 0;
    while fi < nf
        invariant
            nf == files@.len(),
            dvf == files.deep_view(),
            dvv == volumes.deep_view(),
            fi <= nf,
            backups.wf(),
            scans_recorded(backups@, dvf, dvv, fi as int),
            baselines_recorded(backups@, dvf, dvv, fi as int),
        decreases nf - fi,
    {
        proof {
            assert(dvf[fi as int] == files@[fi as int]@);
        }
        let ghost before = backups@;
        match scan_file(files[fi].as_str(), volumes) {
            FileScan::NotArtifact => {},
            FileScan::MalformedName => {
                notes.push(GatherNote::MalformedName { file: files[fi].clone() });
            },
            FileScan::NoMatch => {
                notes.push(GatherNote::UnmatchedFile { file: files[fi].clone() });
            },
            FileScan::Ambiguous => {
                notes.push(GatherNote::AmbiguousFile { file: files[fi].clone() });
            },
            FileScan::Candidate { filename_base, volume, label } => {
                let ghost fbv = filename_base@;
                let ghost volv = volume@;
                let ghost labv = label@;
                backups.insert(filename_base, volume, Some(label));
                proof {
                    lemma_candidate_recorded(
                        before,
                        backups@,
                        fbv,
                        volv,
                        labv,
                        dvf,
                        dvv,
                        fi as int,
                    );
                }
            },
        }
        proof {
            if !(spec_scan_candidate(dvf[fi as int], dvv) is Some) {
                lemma_baselines_widen(backups@, dvf, dvv, fi as int, fi + 1);
            }
        }
        fi = fi + 1;
    }
    backups
}

/// Resolves every candidate against the current snapshots: the baseline is
/// cleared when it vanished, and the target becomes the greatest date
/// label unless it equals the baseline.
#[verifier::rlimit(30)]
fn resolve_table(
    backups: &mut Backups,
    snapshots: &Vec<String>,
    volumes: &Vec<String>,
    files: &Vec<String>,
    notes: &mut Vec<GatherNote>,
)
    requires
        old(backups).wf(),
        scans_recorded(
            old(backups)@,
            files.deep_view(),
            volumes.deep_view(),
            files.deep_view().len() as int,
        ),
        baselines_recorded(
            old(backups)@,
            files.deep_view(),
            volumes.deep_view(),
            files.deep_view().len() as int,
        ),
    ensures
        final(backups).wf(),
        final(backups)@.len() == old(backups)@.len(),
        scans_recorded(
            final(backups)@,
            files.deep_view(),
            volumes.deep_view(),
            files.deep_view().len() as int,
        ),
        forall|j: int|
            0 <= j < final(backups)@.len() ==> resolved_entry(
                #[trigger] final(backups)@[j],
                snapshots.deep_view(),
            ),
        forall|j: int|
            0 <= j < final(backups)@.len() && backup_owed(
                snapshots.deep_view(),
                files.deep_view(),
                volumes.deep_view(),
                (#[trigger] final(backups)@[j]).volume,
            ) ==> final(backups)@[j].end_snapshot is Some,
{
    let ghost s = snapshots.deep_view();
    let ghost dvf = files.deep_view();
    let ghost dvv = volumes.deep_view();
    let ghost nfv = dvf.len() as int;
    let nb = backups.len();
    let mut i: usize = 0;
    while i < nb
        invariant
            backups.wf(),
            nb == backups@.len(),
            i <= nb,
            s == snapshots.deep_view(),
            dvf == files.deep_view(),
            dvv == volumes.deep_view(),
            nfv == dvf.len() as int,
            scans_recorded(backups@, dvf, dvv, nfv),
            forall|j: int|
                i <= j < nb && (#[trigger] backups@[j]).start_snapshot is Some
                    ==> baseline_from_files(
                    dvf,
                    dvv,
                    nfv,
                    backups@[j].volume,
                    backups@[j].start_snapshot->0,
                ),
            forall|j: int| 0 <= j < i ==> resolved_entry(#[trigger] backups@[j], s),
            forall|j: int|
                0 <= j < i && backup_owed(s, dvf, dvv, (#[trigger] backups@[j]).volume)
                    ==> backups@[j].end_snapshot is Some,
        decreases nb - i,
    {
        let ghost before2 = backups@;
        let ghost entry_before = backups@[i as int];
        let (vol, start_opt) = {
            let b = backups.get(i);
            let vol = b.volume.clone();
            let so = match &b.start_snapshot {
                Some(x) => Some(x.clone()),
                None => None,
            };
            (vol, so)
        };
        proof {
            assert(vol@ == entry_before.volume);
            assert(opt_str_view(start_opt) == entry_before.start_snapshot);
        }
        let maxl = max_label(snapshots, vol.as_str());
        let new_start: Option<String> = match start_opt {
            Some(st) => {
                if label_exists(snapshots, vol.as_str(), st.as_str()) {
                    Some(st)
                } else {
                    notes.push(
                        GatherNote::DemotedToFull { volume: vol.clone(), missing_start: st },
                    );
                    None
                }
            },
            None => None,
        };
        let ghost new_startv = opt_str_view(new_start);
        let new_end: Option<String> = match maxl {
            Some(m) => {
                let same = match &new_start {
                    Some(st) => str_eq(st.as_str(), m.as_str()),
                    None => false,
                };
                if same {
                    notes.push(GatherNote::UpToDate { volume: vol.clone(), label: m });
                    None
                } else {
                    Some(m)
                }
            },
            None => {
                notes.push(GatherNote::NoDatedSnapshots { volume: vol.clone() });
                None
            },
        };
        proof {
            if backup_owed(s, dvf, dvv, entry_before.volume) {
                if new_startv is Some {
                    assert(new_startv == entry_before.start_snapshot);
                    assert(baseline_from_files(
                        dvf,
                        dvv,
                        nfv,
                        entry_before.volume,
                        entry_before.start_snapshot->0,
                    ));
                    if new_startv->0 == spec_max_label(s, entry_before.volume)->0 {
                        assert(false);
                    }
                }
                assert(opt_str_view(new_end) is Some);
            }
        }
        backups.set_resolution(i, new_start, new_end);
        proof {
            assert(resolved_entry(backups@[i as int], s));
            assert forall|j: int| 0 <= j < i + 1 implies resolved_entry(
                #[trigger] backups@[j],
                s,
            ) by {}
            assert forall|k: int|
                0 <= k < nfv && (#[trigger] spec_scan_candidate(dvf[k], dvv)) is Some implies vol_present(
                backups@,
                (spec_scan_candidate(dvf[k], dvv)->0).0,
            ) by {
                let v2 = (spec_scan_candidate(dvf[k], dvv)->0).0;
                let idx = choose|idx: int|
                    0 <= idx < before2.len() && (#[trigger] before2[idx]).volume == v2;
                assert(backups@[idx].volume == v2);
            }
        }
        i = i + 1;
    }
}

/// One reconciliation pass: matches the artifact files on disk to the live
/// volumes, keeps per volume the greatest baseline label, demotes to a full
/// backup any candidate whose baseline no longer exists, targets the
/// greatest date-labelled snapshot, and drops volumes that are up to date.
/// The worklist has at most one candidate per volume, ordered by volume
/// name; every candidate's target is the greatest date label its volume
/// has, differs from its baseline, and its baseline, when recorded, exists.
/// Conversely, every volume some file resolves to appears in the worklist
/// whenever a backup of it is owed.
pub fn gather_volumes(volumes: &Vec<String>, snapshots: &Vec<String>, files: &Vec<String>) -> (r: (
    Vec<Backup>,
    Vec<GatherNote>,
))
    ensures
        ({
            let out = r.0@.map_values(|b: Backup| b@);
            let s = snapshots.deep_view();
            let dvf = files.deep_view();
            let dvv = volumes.deep_view();
            &&& sorted_by_volume(out)
            &&& forall|i: int| 0 <= i < out.len() ==> resolved_kept(#[trigger] out[i], s)
            &&& forall|k: int|
                0 <= k < dvf.len() && (#[trigger] spec_scan_candidate(dvf[k], dvv)) is Some
                    && backup_owed(s, dvf, dvv, (spec_scan_candidate(dvf[k], dvv)->0).0)
                    ==> vol_present(out, (spec_scan_candidate(dvf[k], dvv)->0).0)
        }),
{
    let ghost s = snapshots.deep_view();
    let ghost dvf = files.deep_view();
    let ghost dvv = volumes.deep_view();
    let mut notes: Vec<GatherNote> = Vec::new();
    let mut backups = scan_files_into_table(volumes, files, &mut notes);
    resolve_table(&mut backups, snapshots, volumes, files, &mut notes);
    let ghost table = backups@;
    let out = backups.into_values();
    proof {
        lemma_keep_resolved_sorted(table);
        lemma_worklist_resolved(table, out@.map_values(|b: Backup| b@), s);
        lemma_worklist_complete(table, out@.map_values(|b: Backup| b@), s, dvf, dvv);
    }
    (out, notes)
}

/// Every retained candidate inherits its resolution facts.
proof fn lemma_worklist_resolved(
    table: Seq<BackupView>,
    outv: Seq<BackupView>,
    s: Seq<Seq<char>>,
)
    requires
        outv == keep_resolved(table),
        forall|j: int| 0 <= j < table.len() ==> resolved_entry(#[trigger] table[j], s),
    ensures
        forall|k: int| 0 <= k < outv.len() ==> resolved_kept(#[trigger] outv[k], s),
{
    lemma_keep_resolved_membership(table);
    assert forall|k: int| 0 <= k < outv.len() implies resolved_kept(#[trigger] outv[k], s) by {
        let j = choose|j: int| 0 <= j < table.len() && table[j] == outv[k];
    }
}

/// Every volume whose backup is owed keeps a candidate in the worklist.
proof fn lemma_worklist_complete(
    table: Seq<BackupView>,
    outv: Seq<BackupView>,
    s: Seq<Seq<char>>,
    dvf: Seq<Seq<char>>,
    dvv: Seq<Seq<char>>,
)
    requires
        outv == keep_resolved(table),
        scans_recorded(table, dvf, dvv, dvf.len() as int),
        forall|j: int|
            0 <= j < table.len() && backup_owed(s, dvf, dvv, (#[trigger] table[j]).volume)
                ==> table[j].end_snapshot is Some,
    ensures
        forall|k: int|
            0 <= k < dvf.len() && (#[trigger] spec_scan_candidate(dvf[k], dvv)) is Some
                && backup_owed(s, dvf, dvv, (spec_scan_candidate(dvf[k], dvv)->0).0)
                ==> vol_present(outv, (spec_scan_candidate(dvf[k], dvv)->0).0),
{
    crate::backups::lemma_keep_resolved_complete(table);
    assert forall|k: int|
        0 <= k < dvf.len() && (#[trigger] spec_scan_candidate(dvf[k], dvv)) is Some
            && backup_owed(s, dvf, dvv, (spec_scan_candidate(dvf[k], dvv)->0).0) implies vol_present(
        outv,
        (spec_scan_candidate(dvf[k], dvv)->0).0,
    ) by {
        let v = (spec_scan_candidate(dvf[k], dvv)->0).0;
        let idx = choose|idx: int| 0 <= idx < table.len() && (#[trigger] table[idx]).volume == v;
        assert(table[idx].end_snapshot is Some);
        let j = choose|j: int|
            0 <= j < keep_resolved(table).len() && keep_resolved(table)[j] == table[idx];
        assert(outv[j].volume == v);
    }
}

} // verus!
