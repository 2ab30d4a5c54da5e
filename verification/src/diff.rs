use vstd::prelude::*;
use crate::fingerprint::{Entry, entry_fingerprint, fingerprint};

verus! {

/// The fingerprints of a list of entries, index for index.
pub open spec fn fingerprints_of(entries: Seq<Entry>) -> Seq<u64> {
    entries.map_values(|e: Entry| entry_fingerprint(e))
}

/// The indices of the fingerprints absent from the prior snapshot, in
/// ascending order: the entries to report as new.
pub open spec fn new_indices_model(h: Seq<u64>, prior: Seq<u64>) -> Seq<int>
    decreases h.len(),
{
    if h.len() == 0 {
        Seq::<int>::empty()
    } else {
        let rest = new_indices_model(h.drop_last(), prior);
        if prior.contains(h.last()) {
            rest
        } else {
            rest.push(h.len() - 1)
        }
    }
}

/// What one run of the diff engine decides.
pub struct CheckOutcome {
    /// Indices into the entry list of the entries to report, in feed order.
    pub new_indices: Vec<usize>,
    /// The fingerprints of all current entries: the snapshot to persist,
    /// whichever branch was taken.
    pub snapshot: Vec<u64>,
}

/// Computes the fingerprint of every entry, preserving index
/// correspondence.
pub fn fingerprints(entries: &Vec<Entry>) -> (h: Vec<u64>)
    ensures
        h@ == fingerprints_of(entries@),
{
    let mut h: Vec<u64> = Vec::new();
    let mut i: usize = 0;
    proof {
        assert(h@ =~= fingerprints_of(entries@.take(0)));
    }
    while i < entries.len()
        invariant
            i <= entries@.len(),
            h@ == fingerprints_of(entries@.take(i as int)),
        decreases entries@.len() - i,
    {
        let f = fingerprint(&entries[i]);
        h.push(f);
        i = i + 1;
        proof {
            assert(h@ =~= fingerprints_of(entries@.take(i as int)));
        }
    }
    proof {
        assert(entries@.take(entries@.len() as int) =~= entries@);
    }
    h
}

fn contains_u64(v: &Vec<u64>, x: u64) -> (b: bool)
    ensures
        b == v@.contains(x),
{
    let mut i: usize = 0;
    while i < v.len()
        invariant
            i <= v@.len(),
            forall|k: int| 0 <= k < i ==> v@[k] != x,
        decreases v@.len() - i,
    {
        if v[i] == x {
            return true;
        }
        i = i + 1;
    }
    false
}

/// Selects the indices whose fingerprint the prior snapshot lacks, in
/// ascending order.
pub fn new_indices(h: &Vec<u64>, prior: &Vec<u64>) -> (idx: Vec<usize>)
    ensures
        idx@.map_values(|j: usize| j as int) == new_indices_model(h@, prior@),
{
    let mut idx: Vec<usize> = Vec::new();
    let mut i: usize = 0;
    proof {
        assert(h@.take(0) =~= Seq::<u64>::empty());
        assert(idx@.map_values(|j: usize| j as int) =~= new_indices_model(h@.take(0), prior@));
    }
    while i < h.len()
        invariant
            i <= h@.len(),
            idx@.map_values(|j: usize| j as int) == new_indices_model(h@.take(i as int), prior@),
        decreases h@.len() - i,
    {
        let ghost idx0 = idx@;
        let ghost cur = h@.take(i as int + 1);
        proof {
            assert(cur.drop_last() =~= h@.take(i as int));
            assert(cur.last() == h@[i as int]);
        }
        if !contains_u64(prior, h[i]) {
            idx.push(i);
            proof {
                assert(idx@.map_values(|j: usize| j as int) =~= idx0.map_values(
                    |j: usize| j as int,
                ).push(i as int));
            }
        }
        i = i + 1;
    }
    proof {
        assert(h@.take(h@.len() as int) =~= h@);
    }
    idx
}

/// One run of the diff engine over a decoded feed. Yields the indices of
/// the entries whose fingerprint the prior snapshot lacks, in original
/// feed order, and the full current fingerprint list to persist as the
/// next snapshot. A first run, with no prior snapshot, reports nothing,
/// whatever the feed holds.
pub fn check(entries: &Vec<Entry>, prior: &Option<Vec<u64>>) -> (out: CheckOutcome)
    ensures
        out.snapshot@ == fingerprints_of(entries@),
        match *prior {
            Option::None => out.new_indices@.len() == 0,
            Option::Some(p) => out.new_indices@.map_values(|j: usize| j as int)
                == new_indices_model(fingerprints_of(entries@), p@),
        },
{
    let snapshot = fingerprints(entries);
    let new_idx: Vec<usize> = match prior {
        Option::Some(p) => new_indices(&snapshot, p),
        Option::None => Vec::new(),
    };
    CheckOutcome { new_indices: new_idx, snapshot }
}

/// A feed none of whose fingerprints is absent from the prior snapshot
/// yields nothing to report.
pub proof fn lemma_nothing_new(h: Seq<u64>, prior: Seq<u64>)
    requires
        forall|i: int| 0 <= i < h.len() ==> prior.contains(#[trigger] h[i]),
    ensures
        new_indices_model(h, prior) == Seq::<int>::empty(),
    decreases h.len(),
{
    if h.len() > 0 {
        lemma_nothing_new(h.drop_last(), prior);
        assert(h.last() == h[h.len() - 1]);
    }
}

/// What the diff reports, spelled out: an index is reported if and only
/// if it points into the feed and its fingerprint is absent from the
/// prior snapshot, and the reported indices come in ascending feed order.
pub proof fn lemma_new_indices_characterization(h: Seq<u64>, prior: Seq<u64>)
    ensures
        forall|a: int, b: int|
            0 <= a < b < new_indices_model(h, prior).len() ==> new_indices_model(h, prior)[a]
                < new_indices_model(h, prior)[b],
        forall|j: int| #[trigger] new_indices_model(h, prior).contains(j) <==> (0 <= j < h.len()
            && !prior.contains(h[j])),
    decreases h.len(),
{
    let m = new_indices_model(h, prior);
    if h.len() > 0 {
        lemma_new_indices_characterization(h.drop_last(), prior);
        let m0 = new_indices_model(h.drop_last(), prior);
        assert forall|j: int| 0 <= j < h.len() - 1 implies h.drop_last()[j] == h[j] by {};
        assert forall|a: int| 0 <= a < m0.len() implies 0 <= #[trigger] m0[a] < h.len() - 1 by {
            assert(m0.contains(m0[a]));
        };
        if prior.contains(h.last()) {
            assert(m == m0);
            assert forall|j: int| #[trigger] m.contains(j) implies (0 <= j < h.len()
                && !prior.contains(h[j])) by {};
            assert forall|j: int| 0 <= j < h.len() && !prior.contains(h[j]) implies m.contains(
                j,
            ) by {
                assert(j != h.len() - 1);
                assert(h.drop_last()[j] == h[j]);
            };
        } else {
            assert(m == m0.push(h.len() - 1));
            assert forall|j: int| #[trigger] m.contains(j) implies (0 <= j < h.len()
                && !prior.contains(h[j])) by {
                let k = choose|k: int| 0 <= k < m.len() && m[k] == j;
                if k < m0.len() {
                    assert(m0[k] == j);
                    assert(m0.contains(j));
                } else {
                    assert(j == h.len() - 1);
                }
            };
            assert forall|j: int| 0 <= j < h.len() && !prior.contains(h[j]) implies m.contains(
                j,
            ) by {
                if j < h.len() - 1 {
                    assert(h.drop_last()[j] == h[j]);
                    assert(m0.contains(j));
                    let k = choose|k: int| 0 <= k < m0.len() && m0[k] == j;
                    assert(m[k] == j);
                } else {
                    assert(m[m.len() - 1] == j);
                }
            };
        }
    }
}

/// A second run over an unchanged feed reports nothing: diffing a feed
/// against its own snapshot leaves no index to report. That the snapshot
/// written back equals the prior one is immediate from `check`, whose
/// snapshot is `fingerprints_of` the entries on both runs.
pub proof fn lemma_second_run_unchanged(entries: Seq<Entry>)
    ensures
        new_indices_model(fingerprints_of(entries), fingerprints_of(entries))
            == Seq::<int>::empty(),
{
    let h = fingerprints_of(entries);
    assert forall|i: int| 0 <= i < h.len() implies h.contains(#[trigger] h[i]) by {
    };
    lemma_nothing_new(h, h);
}

/// A feed that grew by one entry whose fingerprint the prior snapshot
/// lacks, the prior entries left unchanged and each already covered by the
/// snapshot, yields exactly the appended entry.
pub proof fn lemma_one_new_entry(entries: Seq<Entry>, e: Entry, prior: Seq<u64>)
    requires
        forall|i: int| 0 <= i < entries.len() ==> prior.contains(
            #[trigger] entry_fingerprint(entries[i]),
        ),
        !prior.contains(entry_fingerprint(e)),
    ensures
        new_indices_model(fingerprints_of(entries.push(e)), prior) == seq![entries.len() as int],
{
    let h = fingerprints_of(entries.push(e));
    assert(h.drop_last() =~= fingerprints_of(entries));
    assert(h.last() == entry_fingerprint(e));
    assert forall|i: int| 0 <= i < fingerprints_of(entries).len() implies prior.contains(
        #[trigger] fingerprints_of(entries)[i],
    ) by {
        assert(fingerprints_of(entries)[i] == entry_fingerprint(entries[i]));
    };
    lemma_nothing_new(fingerprints_of(entries), prior);
    assert(new_indices_model(h, prior) =~= seq![entries.len() as int]);
}

/// A second run over the feed that the prior run snapshotted, with one
/// entry appended whose fingerprint no prior entry shares, reports exactly
/// that entry.
pub proof fn lemma_second_run_one_appended(entries: Seq<Entry>, e: Entry)
    requires
        !fingerprints_of(entries).contains(entry_fingerprint(e)),
    ensures
        new_indices_model(fingerprints_of(entries.push(e)), fingerprints_of(entries))
            == seq![entries.len() as int],
{
    assert forall|i: int| 0 <= i < entries.len() implies fingerprints_of(entries).contains(
        #[trigger] entry_fingerprint(entries[i]),
    ) by {
        assert(fingerprints_of(entries)[i] == entry_fingerprint(entries[i]));
    };
    lemma_one_new_entry(entries, e, fingerprints_of(entries));
}

} // verus!
