//! Rebuilding the queues from the files that an earlier run left.
//!
//! The files of one client are named by sequence number. Files that older brokers named by moment
//! and number are renamed below them, oldest first, so that directory order is sequence order.

use super::client_queue::{QueueEntry, QueueRegistry, SEQ_FLOOR};
use super::file_names::{parse_queue_file_stem, QueueFileName};
use super::QueuedMessage;
use vstd::prelude::*;

verus! {

/// An item with the two numbers that it is ordered by.
#[derive(Debug)]
pub struct Keyed<T> {
    pub major: u64,
    pub minor: u64,
    pub item: T,
}

/// Whether one item comes strictly after another.
pub open spec fn comes_after<T>(a: Keyed<T>, b: Keyed<T>) -> bool {
    a.major > b.major || (a.major == b.major && a.minor > b.minor)
}

/// The list with one more item, put behind every item that it does not come before.
pub open spec fn placed<T>(list: Seq<Keyed<T>>, x: Keyed<T>) -> Seq<Keyed<T>>
    decreases list.len(),
{
    if list.len() > 0 && comes_after(list.last(), x) {
        placed(list.drop_last(), x).push(list.last())
    } else {
        list.push(x)
    }
}

/// The items in order; items with the same key keep their order.
pub open spec fn arranged<T>(list: Seq<Keyed<T>>) -> Seq<Keyed<T>>
    decreases list.len(),
{
    if list.len() == 0 {
        Seq::empty()
    } else {
        placed(arranged(list.drop_last()), list.last())
    }
}

fn is_after<T>(a: &Keyed<T>, b: &Keyed<T>) -> (r: bool)
    ensures
        r == comes_after(*a, *b),
{
    a.major > b.major || (a.major == b.major && a.minor > b.minor)
}

proof fn lemma_placed_at<T>(list: Seq<Keyed<T>>, x: Keyed<T>, i: int)
    requires
        0 <= i <= list.len(),
        i > 0 ==> !comes_after(list[i - 1], x),
        forall|j: int| i <= j < list.len() ==> comes_after(#[trigger] list[j], x),
    ensures
        placed(list, x) == list.insert(i, x),
    decreases list.len(),
{
    if i < list.len() {
        assert(comes_after(list[list.len() - 1], x));
        lemma_placed_at(list.drop_last(), x, i);
        assert(list.drop_last().insert(i, x).push(list.last()) =~= list.insert(i, x));
    } else {
        assert(list.insert(i, x) =~= list.push(x));
    }
}

/// Puts items in order; items with the same key keep their order.
fn arrange<T>(items: Vec<Keyed<T>>) -> (r: Vec<Keyed<T>>)
    ensures
        r@ == arranged(items@),
{
    let ghost all = items@;
    let mut out: Vec<Keyed<T>> = Vec::new();
    assert(all.take(0) =~= Seq::<Keyed<T>>::empty());
    for x in it: items
        invariant
            it.seq() == all,
            out@ == arranged(all.take(it.index() as int)),
    {
        let ghost before = out@;
        proof {
            assert(all.take(it.index() + 1).drop_last() =~= all.take(it.index() as int));
            assert(all.take(it.index() + 1).last() == x);
        }
        let mut i: usize = out.len();
        while i > 0 && is_after(&out[i - 1], &x)
            invariant
                i <= out@.len(),
                out@ == before,
                forall|j: int| i <= j < out@.len() ==> comes_after(#[trigger] out@[j], x),
            decreases i,
        {
            i = i - 1;
        }
        proof {
            lemma_placed_at(before, x, i as int);
        }
        out.insert(i, x);
    }
    assert(all.take(all.len() as int) =~= all);
    out
}

proof fn lemma_placed<T>(list: Seq<Keyed<T>>, x: Keyed<T>)
    requires
        forall|i: int, j: int|
            #![trigger list[i], list[j]]
            0 <= i < j < list.len() ==> !comes_after(list[i], list[j]),
    ensures
        placed(list, x).len() == list.len() + 1,
        placed(list, x).to_multiset() == list.to_multiset().insert(x),
        ({
            let after = placed(list, x);
            forall|i: int, j: int|
                #![trigger after[i], after[j]]
                0 <= i < j < after.len() ==> !comes_after(after[i], after[j])
        }),
    decreases list.len(),
{
    broadcast use vstd::seq_lib::group_to_multiset_ensures;

    let after = placed(list, x);
    if list.len() > 0 && comes_after(list.last(), x) {
        let init = list.drop_last();
        let last = list.last();
        assert forall|i: int, j: int|
            #![trigger init[i], init[j]]
            0 <= i < j < init.len() implies !comes_after(init[i], init[j]) by {
            assert(!comes_after(list[i], list[j]));
        }
        lemma_placed(init, x);
        let inner = placed(init, x);
        assert(init.push(last) =~= list);
        assert(after.to_multiset() =~= inner.to_multiset().insert(last));
        assert(list.to_multiset() =~= init.to_multiset().insert(last));
        assert(after.to_multiset() =~= list.to_multiset().insert(x));
        assert forall|i: int, j: int|
            #![trigger after[i], after[j]]
            0 <= i < j < after.len() implies !comes_after(after[i], after[j]) by {
            if j < inner.len() {
                assert(after[i] == inner[i] && after[j] == inner[j]);
            } else {
                assert(after[i] == inner[i]);
                assert(inner.to_multiset().count(inner[i]) > 0);
                if inner[i] != x {
                    assert(init.to_multiset().count(inner[i]) > 0);
                    assert(init.contains(inner[i]));
                    let k = choose|k: int| 0 <= k < init.len() && init[k] == inner[i];
                    assert(!comes_after(list[k], list[list.len() - 1]));
                }
            }
        }
    } else {
        assert(after =~= list.push(x));
        assert forall|i: int, j: int|
            #![trigger after[i], after[j]]
            0 <= i < j < after.len() implies !comes_after(after[i], after[j]) by {
            if j < list.len() {
                assert(!comes_after(list[i], list[j]));
            } else if i < list.len() - 1 {
                assert(!comes_after(list[i], list[list.len() - 1]));
            }
        }
    }
}

/// Putting items in order loses none, adds none and leaves none behind one that it comes before.
pub proof fn law_arranged_is_a_sorted_permutation<T>(list: Seq<Keyed<T>>)
    ensures
        arranged(list).len() == list.len(),
        arranged(list).to_multiset() == list.to_multiset(),
        ({
            let after = arranged(list);
            forall|i: int, j: int|
                #![trigger after[i], after[j]]
                0 <= i < j < after.len() ==> !comes_after(after[i], after[j])
        }),
    decreases list.len(),
{
    broadcast use vstd::seq_lib::group_to_multiset_ensures;

    if list.len() > 0 {
        law_arranged_is_a_sorted_permutation(list.drop_last());
        lemma_placed(arranged(list.drop_last()), list.last());
        assert(list.drop_last().push(list.last()) =~= list);
    } else {
        assert(list =~= Seq::<Keyed<T>>::empty());
    }
}

/// A file under a sequence number; `file` is its place in the directory listing.
#[derive(Debug, Clone, Copy)]
pub struct Numbered {
    pub seq: u64,
    pub file: usize,
}

/// What has to be done with the files of one client.
#[derive(Debug)]
pub struct ScanPlan {
    /// Files that are named by sequence number, in the order of the listing.
    pub named: Vec<Numbered>,
    /// Files to be renamed, and the sequence numbers they get, oldest first.
    pub renames: Vec<Numbered>,
}

/// The files that are named by sequence number.
pub open spec fn named_files(stems: Seq<String>) -> Seq<Numbered>
    decreases stems.len(),
{
    if stems.len() == 0 {
        Seq::empty()
    } else {
        let before = named_files(stems.drop_last());
        match super::file_names::queue_file_name(stems.last()@) {
            Some(QueueFileName::Sequence(seq)) => before.push(
                Numbered { seq, file: (stems.len() - 1) as usize },
            ),
            _ => before,
        }
    }
}

/// The files that are named by moment and number, with the key that they are ordered by.
pub open spec fn legacy_files(stems: Seq<String>) -> Seq<Keyed<usize>>
    decreases stems.len(),
{
    if stems.len() == 0 {
        Seq::empty()
    } else {
        let before = legacy_files(stems.drop_last());
        match super::file_names::queue_file_name(stems.last()@) {
            Some(QueueFileName::Legacy { ts, seq }) => before.push(
                Keyed { major: ts, minor: seq, item: (stems.len() - 1) as usize },
            ),
            _ => before,
        }
    }
}

/// The lowest sequence number in use, at most the floor.
pub open spec fn lowest(named: Seq<Numbered>) -> u64
    decreases named.len(),
{
    if named.len() == 0 {
        SEQ_FLOOR
    } else {
        let before = lowest(named.drop_last());
        if named.last().seq < before {
            named.last().seq
        } else {
            before
        }
    }
}

/// The number that the first renamed file gets: so far below the lowest number in use that all of
/// them fit, or the floor where they do not.
pub open spec fn first_renamed(named: Seq<Numbered>, count: nat) -> int {
    if lowest(named) >= count {
        lowest(named) - count
    } else {
        SEQ_FLOOR as int
    }
}

/// The renames: the legacy files in the order of their keys, numbered from `first` on.
pub open spec fn renamed(named: Seq<Numbered>, legacy: Seq<Keyed<usize>>) -> Seq<Numbered> {
    let ordered = arranged(legacy);
    Seq::new(
        legacy.len(),
        |i: int|
            Numbered {
                seq: (first_renamed(named, legacy.len()) + i) as u64,
                file: ordered[i].item,
            },
    )
}

/// Decides what has to be done with the files of one client, given their names without extension.
/// Files with other names are left alone.
pub fn scan_queues(stems: &Vec<String>) -> (r: ScanPlan)
    requires
        stems@.len() <= SEQ_FLOOR,
    ensures
        r.named@ == named_files(stems@),
        r.renames@ == renamed(named_files(stems@), legacy_files(stems@)),
{
    let mut named: Vec<Numbered> = Vec::new();
    let mut legacy: Vec<Keyed<usize>> = Vec::new();
    let mut floor: u64 = SEQ_FLOOR;
    let mut i: usize = 0;
    assert(stems@.take(0) =~= Seq::<String>::empty());
    while i < stems.len()
        invariant
            i <= stems@.len(),
            named@ == named_files(stems@.take(i as int)),
            legacy@ == legacy_files(stems@.take(i as int)),
            legacy@.len() <= i,
            floor == lowest(named@),
            floor <= SEQ_FLOOR,
        decreases stems@.len() - i,
    {
        assert(stems@.take(i + 1).drop_last() =~= stems@.take(i as int));
        assert(stems@.take(i + 1).last() == stems@[i as int]);
        match parse_queue_file_stem(stems[i].as_str()) {
            Some(QueueFileName::Sequence(seq)) => {
                let ghost before = named@;
                named.push(Numbered { seq, file: i });
                assert(named@.drop_last() =~= before);
                if seq < floor {
                    floor = seq;
                }
            },
            Some(QueueFileName::Legacy { ts, seq }) => {
                legacy.push(Keyed { major: ts, minor: seq, item: i });
            },
            None => {},
        }
        i = i + 1;
    }
    assert(stems@.take(stems@.len() as int) =~= stems@);
    let ghost old_names = legacy@;
    let count: u64 = legacy.len() as u64;
    let first: u64 = if floor >= count {
        floor - count
    } else {
        SEQ_FLOOR
    };
    proof {
        law_arranged_is_a_sorted_permutation(old_names);
    }
    let ordered = arrange(legacy);
    let mut renames: Vec<Numbered> = Vec::new();
    let ghost target = renamed(named@, old_names);
    let mut k: usize = 0;
    while k < ordered.len()
        invariant
            k <= ordered@.len(),
            ordered@ == arranged(old_names),
            ordered@.len() == old_names.len(),
            count == old_names.len(),
            target == renamed(named@, old_names),
            first == first_renamed(named@, old_names.len()),
            first <= SEQ_FLOOR,
            count <= SEQ_FLOOR,
            renames@ == target.take(k as int),
        decreases ordered@.len() - k,
    {
        let seq: u64 = first + k as u64;
        renames.push(Numbered { seq, file: ordered[k].item });
        k = k + 1;
        assert(renames@ =~= target.take(k as int));
    }
    assert(target.take(target.len() as int) =~= target);
    ScanPlan { named, renames }
}

/// A queue file and the message it holds; `None` where it cannot be read.
#[derive(Debug)]
pub struct ScannedEntry {
    pub path: String,
    pub message: Option<QueuedMessage>,
}

/// The entries of the readable files, in order: each is accounted by its payload and carries its
/// deadline, counted again from the moment at which it was queued.
pub open spec fn scanned(files: Seq<Keyed<ScannedEntry>>) -> Seq<QueueEntry>
    decreases files.len(),
{
    if files.len() == 0 {
        Seq::empty()
    } else {
        let before = scanned(files.drop_last());
        let last = files.last();
        match last.item.message {
            Some(message) => before.push(
                QueueEntry {
                    seq: last.major,
                    bytes: message.payload@.len() as usize,
                    expires_at: message.recomputed().expires_at,
                    body: None,
                    path: Some(last.item.path),
                },
            ),
            None => before,
        }
    }
}

/// The highest sequence number among files, readable or not, or 0.
pub open spec fn highest(files: Seq<Keyed<ScannedEntry>>) -> u64
    decreases files.len(),
{
    if files.len() == 0 {
        0
    } else {
        let before = highest(files.drop_last());
        if files.last().major > before {
            files.last().major
        } else {
            before
        }
    }
}

/// The highest sequence number among files.
fn highest_number(files: &Vec<Keyed<ScannedEntry>>) -> (r: u64)
    ensures
        r == highest(files@),
{
    let mut most: u64 = 0;
    let mut i: usize = 0;
    assert(files@.take(0) =~= Seq::<Keyed<ScannedEntry>>::empty());
    while i < files.len()
        invariant
            i <= files@.len(),
            most == highest(files@.take(i as int)),
        decreases files@.len() - i,
    {
        assert(files@.take(i + 1).drop_last() =~= files@.take(i as int));
        if files[i].major > most {
            most = files[i].major;
        }
        i = i + 1;
    }
    assert(files@.take(files@.len() as int) =~= files@);
    most
}

/// Adds the readable files of one client to its queue, in the order of their sequence numbers.
/// Returns the highest number found, also that of a file that cannot be read, or 0. The files are
/// keyed by sequence number.
pub fn load_queue(
    queues: &mut QueueRegistry,
    client_id: &str,
    files: Vec<Keyed<ScannedEntry>>,
) -> (r: u64)
    requires
        old(queues).wf(),
    ensures
        final(queues).wf(),
        final(queues).same_settings(old(queues)),
        final(queues)@ == old(queues)@.insert(client_id@, final(queues)@[client_id@]),
        final(queues)@[client_id@].queue().queued() == old(queues).entries_of(client_id@)
            + scanned(arranged(files@)),
        final(queues)@[client_id@].queue().work() == old(queues).work_of(client_id@),
        old(queues)@.contains_key(client_id@) ==> {
            &&& final(queues)@[client_id@].queue().same_control(
                &old(queues)@[client_id@].queue(),
            )
            &&& final(queues)@[client_id@].queue().unfinished_batch()
                == old(queues)@[client_id@].queue().unfinished_batch()
        },
        r == highest(files@),
{
    let ghost origin = *queues;
    let hold = queues.handle(client_id);
    let ghost held = *queues;
    let max_seq: u64 = highest_number(&files);
    let ordered = arrange(files);
    let ghost all = ordered@;
    let ghost base = origin.entries_of(client_id@);
    if let Some(queue) = queues.queue_mut(client_id) {
        let ghost start = *queue;
        proof {
            assert(all.take(0) =~= Seq::<Keyed<ScannedEntry>>::empty());
            assert(base + Seq::<QueueEntry>::empty() =~= base);
        }
        for file in it: ordered
            invariant
                it.seq() == all,
                queue.wf(),
                queue.same_control(&start),
                queue.unfinished_batch() == start.unfinished_batch(),
                queue.work() == start.work(),
                queue.queued() == base + scanned(all.take(it.index() as int)),
        {
            let ghost before = scanned(all.take(it.index() as int));
            proof {
                assert(all.take(it.index() + 1).drop_last() =~= all.take(it.index() as int));
                assert(all.take(it.index() + 1).last() == file);
            }
            let seq: u64 = file.major;
            let ScannedEntry { path, message } = file.item;
            if let Some(message) = message {
                let mut message = message;
                message.recompute_expiry();
                let bytes: usize = message.payload.len();
                queue.push_scanned(seq, path, bytes, message.expires_at);
                let ghost entry = QueueEntry {
                    seq,
                    bytes,
                    expires_at: message.expires_at,
                    body: None,
                    path: Some(path),
                };
                assert((base + before).push(entry) =~= base + before.push(entry));
                assert(before.push(entry).drop_last() =~= before);
            }
        }
        assert(all.take(all.len() as int) =~= all);
    }
    let ghost loaded = *queues;
    queues.release(hold);
    proof {
        assert(queues@ =~= origin@.insert(client_id@, queues@[client_id@]));
    }
    max_seq
}

/// Files that are found in the order of their names come out in that order, and nothing readable
/// is lost: where every file can be read, the queue holds one entry for each.
pub proof fn law_scan_keeps_every_readable_file(files: Seq<Keyed<ScannedEntry>>)
    requires
        forall|i: int| 0 <= i < files.len() ==> (#[trigger] files[i]).item.message is Some,
    ensures
        scanned(files).len() == files.len(),
        forall|i: int|
            0 <= i < files.len() ==> (#[trigger] scanned(files)[i]).seq == files[i].major
                && scanned(files)[i].path == Some(files[i].item.path),
    decreases files.len(),
{
    if files.len() > 0 {
        let init = files.drop_last();
        assert forall|i: int| 0 <= i < init.len() implies (#[trigger] init[i]).item.message is Some by {
            assert(init[i] == files[i]);
        }
        law_scan_keeps_every_readable_file(init);
        assert(files[files.len() - 1].item.message is Some);
        assert forall|i: int| 0 <= i < files.len() implies (#[trigger] scanned(files)[i]).seq
            == files[i].major && scanned(files)[i].path == Some(files[i].item.path) by {
            if i < init.len() {
                assert(scanned(files)[i] == scanned(init)[i]);
                assert(init[i] == files[i]);
            }
        }
    }
}

/// A counter that is raised above the highest number found is above the number of every file
/// found, also of one that cannot be read.
pub proof fn law_counter_rises_above_every_file(
    files: Seq<Keyed<ScannedEntry>>,
    i: int,
    counter: u64,
)
    requires
        0 <= i < files.len(),
    ensures
        files[i].major <= highest(files),
        QueueRegistry::seeded(counter, highest(files)) >= SEQ_FLOOR,
        files[i].major < u64::MAX ==> files[i].major < QueueRegistry::seeded(
            counter,
            highest(files),
        ),
    decreases files.len(),
{
    if i < files.len() - 1 {
        law_counter_rises_above_every_file(files.drop_last(), i, counter);
        assert(files.drop_last()[i] == files[i]);
    }
}

/// Renamed files come before everything that was named by sequence number, as long as there is
/// room below it.
pub proof fn law_renamed_files_come_first(named: Seq<Numbered>, legacy: Seq<Keyed<usize>>, i: int, j: int)
    requires
        legacy.len() <= lowest(named),
        0 <= i < legacy.len(),
        0 <= j < named.len(),
    ensures
        renamed(named, legacy)[i].seq < named[j].seq,
{
    lemma_lowest(named, j);
}

proof fn lemma_lowest(named: Seq<Numbered>, j: int)
    requires
        0 <= j < named.len(),
    ensures
        lowest(named) <= named[j].seq,
    decreases named.len(),
{
    if j < named.len() - 1 {
        lemma_lowest(named.drop_last(), j);
        assert(named.drop_last()[j] == named[j]);
    }
}

/// Files come in the order of their numbers: those of an earlier moment first, and of the same moment
/// those with a smaller number.
pub proof fn law_files_come_in_order<T>(list: Seq<Keyed<T>>, i: int, j: int)
    requires
        0 <= i < j < list.len(),
    ensures
        arranged(list)[i].major < arranged(list)[j].major || arranged(list)[i].major == arranged(
            list,
        )[j].major && arranged(list)[i].minor <= arranged(list)[j].minor,
{
    law_arranged_is_a_sorted_permutation(list);
    let after = arranged(list);
    assert(!comes_after(after[i], after[j]));
}

/// A file that can be read makes one entry, with the size of its payload, its own number and a deadline
/// that lies its interval after the moment at which the message was queued; one that cannot be read
/// makes none.
pub proof fn law_file_makes_an_entry(files: Seq<Keyed<ScannedEntry>>, file: Keyed<ScannedEntry>, now: u64)
    ensures
        file.item.message is None ==> scanned(files.push(file)) == scanned(files),
        file.item.message matches Some(message) ==> ({
            let all = scanned(files.push(file));
            &&& all.len() == scanned(files).len() + 1
            &&& all.drop_last() == scanned(files)
            &&& all.last().seq == file.major
            &&& all.last().path == Some(file.item.path)
            &&& all.last().body is None
            &&& message.payload@.len() <= usize::MAX ==> all.last().bytes
                == message.payload@.len()
            &&& message.message_expiry_interval matches Some(seconds) ==> (super::past(
                all.last().expires_at,
                now,
            ) <==> now > message.queued_at + seconds * 1000)
            &&& message.message_expiry_interval is None ==> all.last().expires_at
                == message.expires_at
        }),
        scanned(Seq::<Keyed<ScannedEntry>>::empty()).len() == 0,
{
    assert(files.push(file).drop_last() =~= files);
    if file.item.message is Some {
        assert(scanned(files.push(file)).drop_last() =~= scanned(files));
    }
}

/// Each file is taken for what its name says it is, and found under its place in the directory.
pub proof fn law_files_are_told_apart(stems: Seq<String>, stem: String)
    ensures
        ({
            let all = stems.push(stem);
            let name = super::file_names::queue_file_name(stem@);
            &&& name is None ==> named_files(all) == named_files(stems) && legacy_files(all)
                == legacy_files(stems)
            &&& name matches Some(QueueFileName::Sequence(seq)) ==> named_files(all) == named_files(
                stems,
            ).push(Numbered { seq, file: stems.len() as usize }) && legacy_files(all)
                == legacy_files(stems)
            &&& name matches Some(QueueFileName::Legacy { ts, seq }) ==> legacy_files(all)
                == legacy_files(stems).push(
                Keyed { major: ts, minor: seq, item: stems.len() as usize },
            ) && named_files(all) == named_files(stems)
        }),
        named_files(Seq::<String>::empty()).len() == 0,
        legacy_files(Seq::<String>::empty()).len() == 0,
{
    assert(stems.push(stem).drop_last() =~= stems);
}

/// Files that are named anew keep their order, and get numbers that follow each other and end where
/// those of the other files begin.
pub proof fn law_renamed_files_keep_their_order(
    named: Seq<Numbered>,
    legacy: Seq<Keyed<usize>>,
    i: int,
)
    requires
        0 <= i < legacy.len(),
        legacy.len() <= lowest(named),
    ensures
        renamed(named, legacy).len() == legacy.len(),
        renamed(named, legacy)[i].file == arranged(legacy)[i].item,
        renamed(named, legacy)[i].seq + (legacy.len() - i) == lowest(named),
        named.len() == 0 ==> lowest(named) == SEQ_FLOOR,
        lowest(named) <= SEQ_FLOOR,
        lowest(named) == SEQ_FLOOR || exists|j: int|
            0 <= j < named.len() && (#[trigger] named[j]).seq == lowest(named),
{
    lemma_lowest_is_there(named);
}

proof fn lemma_lowest_is_there(named: Seq<Numbered>)
    ensures
        lowest(named) <= SEQ_FLOOR,
        lowest(named) == SEQ_FLOOR || exists|j: int|
            0 <= j < named.len() && (#[trigger] named[j]).seq == lowest(named),
    decreases named.len(),
{
    if named.len() > 0 {
        let rest = named.drop_last();
        lemma_lowest_is_there(rest);
        if lowest(named) == lowest(rest) && lowest(named) != SEQ_FLOOR {
            let j = choose|j: int|
                0 <= j < rest.len() && (#[trigger] rest[j]).seq == lowest(rest);
            assert(named[j].seq == lowest(named));
        } else if lowest(named) != SEQ_FLOOR {
            assert(named[named.len() - 1].seq == lowest(named));
        }
    }
}

/// The highest number of the files is that of one of them.
pub proof fn law_highest_number_is_there(files: Seq<Keyed<ScannedEntry>>)
    ensures
        files.len() == 0 ==> highest(files) == 0,
        files.len() > 0 ==> exists|i: int|
            0 <= i < files.len() && (#[trigger] files[i]).major == highest(files),
    decreases files.len(),
{
    if files.len() > 0 {
        let rest = files.drop_last();
        law_highest_number_is_there(rest);
        if files.last().major == highest(files) {
            assert(files[files.len() - 1].major == highest(files));
        } else {
            let i = choose|i: int| 0 <= i < rest.len() && (#[trigger] rest[i]).major == highest(rest);
            assert(files[i].major == highest(files));
        }
    }
}

} // verus!
