//! What watching a document decides at each look: whether its content has
//! changed since the last build, and so whether to build again.

use vstd::prelude::*;

verus! {

/// The snapshot after one look at the document and whether to rebuild:
/// a failed read changes nothing; new content is rebuilt and becomes the
/// snapshot.
pub open spec fn poll_model(seen: Seq<u8>, read: Option<Seq<u8>>) -> (Seq<u8>, bool) {
    match read {
        None => (seen, false),
        Some(b) => if b == seen {
            (seen, false)
        } else {
            (b, true)
        },
    }
}

/// The view of an optional byte vector.
pub open spec fn opt_bytes(o: Option<Vec<u8>>) -> Option<Seq<u8>> {
    match o {
        Some(b) => Some(b@),
        None => None,
    }
}

/// Takes one look at the document: `read` is its content, `None` when it
/// could not be read this time (an editor may be half-way through saving).
/// Returns whether to rebuild; `seen` becomes the content last built.
pub fn poll(seen: &mut Vec<u8>, read: Option<Vec<u8>>) -> (rebuild: bool)
    ensures
        (final(seen)@, rebuild) == poll_model(old(seen)@, opt_bytes(read)),
{
    match read {
        None => false,
        Some(current) => {
            if same_bytes(&current, seen) {
                false
            } else {
                *seen = current;
                true
            }
        },
    }
}

/// Whether two byte vectors are equal.
fn same_bytes(a: &Vec<u8>, b: &Vec<u8>) -> (r: bool)
    ensures
        r == (a@ == b@),
{
    if a.len() != b.len() {
        return false;
    }
    let mut i: usize = 0;
    while i < a.len()
        invariant
            0 <= i <= a.len(),
            a.len() == b.len(),
            forall|k: int| 0 <= k < i ==> a@[k] == b@[k],
        decreases a.len() - i,
    {
        if a[i] != b[i] {
            return false;
        }
        i = i + 1;
    }
    assert(a@ =~= b@);
    true
}

/// One change is built once: after a look that rebuilds, another look at the
/// same content does not.
pub proof fn law_one_rebuild_per_change(seen: Seq<u8>, content: Seq<u8>)
    ensures
        poll_model(poll_model(seen, Some(content)).0, Some(content)).1 == false,
{
}

/// The snapshot after the first `i` looks of a run that starts from `seen`
/// and reads `reads[0]`, `reads[1]`, … in turn.
pub open spec fn snapshot_after(seen: Seq<u8>, reads: Seq<Option<Seq<u8>>>, i: int) -> Seq<u8>
    decreases i,
{
    if i <= 0 {
        seen
    } else {
        poll_model(snapshot_after(seen, reads, i - 1), reads[i - 1]).0
    }
}

/// Whether look `i` of such a run rebuilds.
pub open spec fn rebuilds_at(seen: Seq<u8>, reads: Seq<Option<Seq<u8>>>, i: int) -> bool {
    poll_model(snapshot_after(seen, reads, i), reads[i]).1
}

/// The content last read successfully before look `i`, or `seen` if none was.
pub open spec fn last_read(seen: Seq<u8>, reads: Seq<Option<Seq<u8>>>, i: int) -> Seq<u8>
    decreases i,
{
    if i <= 0 {
        seen
    } else {
        match reads[i - 1] {
            Some(b) => b,
            None => last_read(seen, reads, i - 1),
        }
    }
}

proof fn lemma_snapshot_is_last_read(seen: Seq<u8>, reads: Seq<Option<Seq<u8>>>, i: int)
    requires
        0 <= i <= reads.len(),
    ensures
        snapshot_after(seen, reads, i) == last_read(seen, reads, i),
    decreases i,
{
    if i > 0 {
        lemma_snapshot_is_last_read(seen, reads, i - 1);
    }
}

/// Over a run of looks, look `i` rebuilds exactly when the document was read
/// and its content differs from the content last read successfully before
/// (the content at the start if none was); failed reads never rebuild.
pub proof fn law_a_run_rebuilds_on_each_change(seen: Seq<u8>, reads: Seq<Option<Seq<u8>>>, i: int)
    requires
        0 <= i < reads.len(),
    ensures
        rebuilds_at(seen, reads, i) == (reads[i] matches Some(b) && b != last_read(seen, reads, i)),
{
    lemma_snapshot_is_last_read(seen, reads, i);
}

} // verus!
