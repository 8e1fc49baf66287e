//! Who is subscribed to what.

use crate::text::same_text;
use crate::text_map::TextMap;
use crate::topic::{is_wildcard_filter, topic_matches_filter};
use crate::types::{copy_text, ProtocolVersion, QoS};
use vstd::prelude::*;

verus! {

/// One client's subscription to one filter.
#[derive(Debug)]
pub struct Subscription {
    pub client_id: String,
    pub qos: QoS,
    pub subscription_id: Option<u32>,
    pub share_group: Option<String>,
    pub no_local: bool,
    pub retain_as_published: bool,
    pub retain_handling: u8,
    pub protocol_version: ProtocolVersion,
    pub change_only: bool,
    pub flow_id: Option<u64>,
}

impl Clone for Subscription {
    fn clone(&self) -> (r: Self)
        ensures
            r == *self,
    {
        Subscription {
            client_id: self.client_id.clone(),
            qos: self.qos,
            subscription_id: self.subscription_id,
            share_group: copy_text(&self.share_group),
            no_local: self.no_local,
            retain_as_published: self.retain_as_published,
            retain_handling: self.retain_handling,
            protocol_version: self.protocol_version,
            change_only: self.change_only,
            flow_id: self.flow_id,
        }
    }
}

/// Whether a subscription belongs to this client and flow.
pub open spec fn same_slot(sub: Subscription, client_id: Seq<char>, flow_id: Option<u64>) -> bool {
    sub.client_id@ == client_id && sub.flow_id == flow_id
}

/// The place of the first subscription of this client and flow, or the length of the row.
pub open spec fn slot(row: Seq<Subscription>, client_id: Seq<char>, flow_id: Option<u64>) -> int
    decreases row.len(),
{
    if row.len() == 0 || same_slot(row[0], client_id, flow_id) {
        0
    } else {
        1 + slot(row.drop_first(), client_id, flow_id)
    }
}

/// No client has two subscriptions on one flow.
pub open spec fn one_per_slot(row: Seq<Subscription>) -> bool {
    forall|i: int, j: int|
        #![trigger row[i], row[j]]
        0 <= i < j < row.len() ==> !same_slot(row[i], row[j].client_id@, row[j].flow_id)
}

/// Every filter has wildcards, or none has; every filter has subscriptions, and no client has two
/// on one flow.
pub open spec fn sound_rows(rows: Map<Seq<char>, Vec<Subscription>>, wildcards: bool) -> bool {
    forall|f: Seq<char>| #[trigger]
        rows.contains_key(f) ==> {
            &&& crate::topic::has_wildcard(f) == wildcards
            &&& rows[f]@.len() > 0
            &&& one_per_slot(rows[f]@)
        }
}

/// The row after a subscribe: the subscription replaces the one of the same client and flow, or is
/// added at the end.
pub open spec fn put(row: Seq<Subscription>, sub: Subscription) -> Seq<Subscription> {
    let at = slot(row, sub.client_id@, sub.flow_id);
    if at < row.len() {
        row.update(at, sub)
    } else {
        row.push(sub)
    }
}

/// Which subscriptions are removed: those of the named clients, on every flow or on one.
#[derive(Debug)]
pub struct Removal {
    pub clients: Vec<String>,
    pub flow: Option<Option<u64>>,
}

/// Whether a list of names holds this one.
pub open spec fn names(list: Seq<String>, name: Seq<char>) -> bool {
    exists|i: int| 0 <= i < list.len() && (#[trigger] list[i])@ == name
}

/// Whether a list of names holds this one.
pub fn holds_name(list: &Vec<String>, name: &str) -> (r: bool)
    ensures
        r == names(list@, name@),
{
    let mut i: usize = 0;
    while i < list.len()
        invariant
            i <= list@.len(),
            forall|j: int| 0 <= j < i ==> (#[trigger] list@[j])@ != name@,
        decreases list@.len() - i,
    {
        if same_text(list[i].as_str(), name) {
            assert(list@[i as int]@ == name@);
            return true;
        }
        i = i + 1;
    }
    false
}

impl Removal {
    /// Every subscription of one client.
    pub fn of_client(client_id: &str) -> (r: Self)
        ensures
            r.clients@.len() == 1,
            r.clients@[0]@ == client_id@,
            r.flow is None,
    {
        let mut clients: Vec<String> = Vec::new();
        clients.push(client_id.to_owned());
        Removal { clients, flow: None }
    }

    /// The subscriptions of one client on one flow.
    pub fn of_flow(client_id: &str, flow_id: Option<u64>) -> (r: Self)
        ensures
            r.clients@.len() == 1,
            r.clients@[0]@ == client_id@,
            r.flow == Some(flow_id),
    {
        let mut clients: Vec<String> = Vec::new();
        clients.push(client_id.to_owned());
        Removal { clients, flow: Some(flow_id) }
    }

    /// Whether a subscription is removed.
    pub open spec fn hits(self, sub: Subscription) -> bool {
        &&& names(self.clients@, sub.client_id@)
        &&& self.flow matches Some(flow) ==> sub.flow_id == flow
    }

    fn applies(&self, sub: &Subscription) -> (r: bool)
        ensures
            r == self.hits(*sub),
    {
        holds_name(&self.clients, sub.client_id.as_str()) && match self.flow {
            Some(flow) => same_flow(sub.flow_id, flow),
            None => true,
        }
    }
}

/// Whether two optional flows are the same.
pub fn same_flow(a: Option<u64>, b: Option<u64>) -> (r: bool)
    ensures
        r == (a == b),
{
    match (a, b) {
        (Some(x), Some(y)) => x == y,
        (None, None) => true,
        _ => false,
    }
}

/// The subscriptions that a removal leaves, in order.
pub open spec fn left(row: Seq<Subscription>, removal: Removal) -> Seq<Subscription>
    decreases row.len(),
{
    if row.len() == 0 {
        Seq::empty()
    } else if removal.hits(row.last()) {
        left(row.drop_last(), removal)
    } else {
        left(row.drop_last(), removal).push(row.last())
    }
}

/// A removal leaves at most what was there.
pub proof fn lemma_left_len(row: Seq<Subscription>, removal: Removal)
    ensures
        left(row, removal).len() <= row.len(),
        left(row, removal).len() == row.len() ==> left(row, removal) == row,
        forall|s: Subscription| #[trigger]
            left(row, removal).contains(s) <==> row.contains(s) && !removal.hits(s),
    decreases row.len(),
{
    if row.len() > 0 {
        let init = row.drop_last();
        lemma_left_len(init, removal);
        assert(init.push(row.last()) =~= row);
        assert forall|s: Subscription| #[trigger]
            left(row, removal).contains(s) <==> row.contains(s) && !removal.hits(s) by {
            if row.contains(s) && !removal.hits(s) {
                let i = choose|i: int| 0 <= i < row.len() && row[i] == s;
                if i < init.len() {
                    assert(init[i] == s);
                    assert(init.contains(s));
                    assert(left(init, removal).contains(s));
                    let k = choose|k: int|
                        0 <= k < left(init, removal).len() && left(init, removal)[k] == s;
                    assert(left(row, removal)[k] == s);
                } else {
                    assert(left(row, removal)[left(row, removal).len() - 1] == s);
                }
            }
            if left(row, removal).contains(s) {
                let k = choose|k: int|
                    0 <= k < left(row, removal).len() && left(row, removal)[k] == s;
                if k < left(init, removal).len() {
                    assert(left(init, removal)[k] == s);
                    assert(left(init, removal).contains(s));
                    let i = choose|i: int| 0 <= i < init.len() && init[i] == s;
                    assert(row[i] == s);
                } else {
                    assert(row[row.len() - 1] == s);
                }
            }
        }
    }
}

/// The subscriptions of a row that do not belong to this client and flow, in order.
pub open spec fn without_slot(
    row: Seq<Subscription>,
    client_id: Seq<char>,
    flow_id: Option<u64>,
) -> Seq<Subscription>
    decreases row.len(),
{
    if row.len() == 0 {
        Seq::empty()
    } else if same_slot(row.last(), client_id, flow_id) {
        without_slot(row.drop_last(), client_id, flow_id)
    } else {
        without_slot(row.drop_last(), client_id, flow_id).push(row.last())
    }
}

proof fn lemma_left_slot(
    row: Seq<Subscription>,
    removal: Removal,
    client_id: Seq<char>,
    flow_id: Option<u64>,
)
    requires
        removal.clients@.len() == 1,
        removal.clients@[0]@ == client_id,
        removal.flow == Some(flow_id),
    ensures
        left(row, removal) == without_slot(row, client_id, flow_id),
    decreases row.len(),
{
    if row.len() > 0 {
        lemma_left_slot(row.drop_last(), removal, client_id, flow_id);
        assert(names(removal.clients@, row.last().client_id@) <==> row.last().client_id@
            == client_id) by {
            assert(removal.clients@[0]@ == client_id);
        }
    }
}

/// The subscriptions of a row that do not belong to this client, in order.
pub open spec fn without_client(row: Seq<Subscription>, client_id: Seq<char>) -> Seq<Subscription>
    decreases row.len(),
{
    if row.len() == 0 {
        Seq::empty()
    } else if row.last().client_id@ == client_id {
        without_client(row.drop_last(), client_id)
    } else {
        without_client(row.drop_last(), client_id).push(row.last())
    }
}

proof fn lemma_left_client(row: Seq<Subscription>, removal: Removal, client_id: Seq<char>)
    requires
        removal.clients@.len() == 1,
        removal.clients@[0]@ == client_id,
        removal.flow is None,
    ensures
        left(row, removal) == without_client(row, client_id),
    decreases row.len(),
{
    if row.len() > 0 {
        lemma_left_client(row.drop_last(), removal, client_id);
        assert(names(removal.clients@, row.last().client_id@) <==> row.last().client_id@
            == client_id) by {
            assert(removal.clients@[0]@ == client_id);
        }
    }
}

/// Rows of subscriptions by filter.
pub type Rows = TextMap<Vec<Subscription>>;

/// The row of a filter; a filter without subscriptions has an empty one.
pub open spec fn row_of(rows: Map<Seq<char>, Vec<Subscription>>, filter: Seq<char>) -> Seq<
    Subscription,
> {
    if rows.contains_key(filter) {
        rows[filter]@
    } else {
        Seq::empty()
    }
}

/// The filters whose rows a removal shortens, in order.
pub open spec fn shortened(
    list: Seq<(Seq<char>, Vec<Subscription>)>,
    removal: Removal,
) -> Seq<Seq<char>>
    decreases list.len(),
{
    if list.len() == 0 {
        Seq::empty()
    } else {
        let before = shortened(list.drop_last(), removal);
        if left(list.last().1@, removal).len() < list.last().1@.len() {
            before.push(list.last().0)
        } else {
            before
        }
    }
}

/// The subscriptions of every filter in the list that matches a topic, in order.
pub open spec fn matching_in(list: Seq<(Seq<char>, Vec<Subscription>)>, topic: Seq<char>) -> Seq<
    Subscription,
>
    decreases list.len(),
{
    if list.len() == 0 {
        Seq::empty()
    } else {
        matching_in(list.drop_last(), topic) + (if crate::topic::topic_matches(topic, list.last().0) {
            list.last().1@
        } else {
            Seq::empty()
        })
    }
}

/// The characters of each string in a list.
pub open spec fn texts(list: Seq<String>) -> Seq<Seq<char>> {
    list.map_values(|s: String| s@)
}

fn left_of(row: &Vec<Subscription>, removal: &Removal) -> (r: Vec<Subscription>)
    ensures
        r@ == left(row@, *removal),
{
    let mut out: Vec<Subscription> = Vec::new();
    let mut i: usize = 0;
    assert(row@.take(0) =~= Seq::<Subscription>::empty());
    while i < row.len()
        invariant
            i <= row@.len(),
            out@ == left(row@.take(i as int), *removal),
        decreases row@.len() - i,
    {
        assert(row@.take(i + 1).drop_last() =~= row@.take(i as int));
        if !removal.applies(&row[i]) {
            out.push(row[i].clone());
        }
        i = i + 1;
    }
    assert(row@.take(row@.len() as int) =~= row@);
    out
}

/// Applies a removal to every row and drops the rows that become empty. Returns the filters whose
/// rows became shorter.
fn remove_from_rows(rows: &mut Rows, removal: &Removal) -> (changed: Vec<String>)
    requires
        old(rows).wf(),
    ensures
        final(rows).wf(),
        forall|f: Seq<char>| #[trigger]
            row_of(final(rows)@, f) == left(row_of(old(rows)@, f), *removal),
        forall|f: Seq<char>| #[trigger]
            final(rows)@.contains_key(f) <==> row_of(final(rows)@, f).len() > 0,
        forall|f: Seq<char>| #[trigger]
            final(rows)@.contains_key(f) ==> old(rows)@.contains_key(f),
        texts(changed@) == shortened(old(rows).listing(), *removal),
{
    let ghost origin = rows@;
    let ghost olist = rows.listing();
    let ghost mut n: int = 0;
    let ghost mut done: Set<Seq<char>> = Set::empty();
    let mut changed: Vec<String> = Vec::new();
    let mut i: usize = 0;
    proof {
        assert(olist.skip(0) =~= olist);
        assert(olist.take(0) =~= Seq::<(Seq<char>, Vec<Subscription>)>::empty());
        assert(texts(changed@) =~= Seq::<Seq<char>>::empty());
        crate::text_map::lemma_as_map(olist);
    }
    while i < rows.len()
        invariant
            rows.wf(),
            origin == crate::text_map::as_map(olist),
            crate::text_map::distinct_keys(olist),
            0 <= n <= olist.len(),
            i <= rows.listing().len(),
            rows.listing().skip(i as int) == olist.skip(n),
            forall|m: int| 0 <= m < n ==> done.contains((#[trigger] olist[m]).0),
            forall|m: int| n <= m < olist.len() ==> !done.contains((#[trigger] olist[m]).0),
            forall|j: int|
                0 <= j < i ==> (#[trigger] rows.listing()[j]).1@.len() > 0 && done.contains(
                    rows.listing()[j].0,
                ),
            forall|f: Seq<char>| #[trigger]
                row_of(rows@, f) == (if done.contains(f) {
                    left(row_of(origin, f), *removal)
                } else {
                    row_of(origin, f)
                }),
            forall|f: Seq<char>| #[trigger] rows@.contains_key(f) ==> origin.contains_key(f),
            texts(changed@) == shortened(olist.take(n), *removal),
        decreases rows.listing().len() - i,
    {
        let ghost list = rows.listing();
        let ghost now = rows@;
        let ghost key = list[i as int].0;
        proof {
            crate::text_map::lemma_as_map(list);
            crate::text_map::lemma_as_map(olist);
            assert(list.skip(i as int)[0] == list[i as int]);
            assert(list.skip(i as int).len() == olist.skip(n).len());
            assert(olist.skip(n)[0] == olist[n]);
            assert(now.contains_key(key) && now[key] == list[i as int].1);
            assert(origin.contains_key(key) && origin[key] == olist[n].1);
            assert(row_of(origin, key) == olist[n].1@);
            lemma_left_len(olist[n].1@, *removal);
            assert(olist.take(n + 1).drop_last() =~= olist.take(n));
            assert(olist.take(n + 1).last() == olist[n]);
            assert(list.skip(i as int).drop_first() =~= list.skip(i + 1));
            assert(olist.skip(n).drop_first() =~= olist.skip(n + 1));
            assert forall|m: int| n < m < olist.len() implies (#[trigger] olist[m]).0 != key by {
                assert(olist[n].0 != olist[m].0);
            }
        }
        let rest = left_of(rows.value_at(i), removal);
        let shorter = rest.len() < rows.value_at(i).len();
        if shorter {
            let ghost before = changed@;
            changed.push(rows.key_at(i).clone());
            assert(texts(changed@) =~= texts(before).push(key));
        }
        if rest.len() == 0 {
            let _ = rows.remove_at(i);
            proof {
                assert(rows.listing() =~= list.remove(i as int));
                assert(rows.listing().skip(i as int) =~= list.skip(i + 1));
                assert forall|j: int| 0 <= j < i implies (#[trigger] rows.listing()[j]).1@.len() > 0
                    && done.contains(rows.listing()[j].0) by {
                    assert(rows.listing()[j] == list[j]);
                }
            }
        } else {
            if shorter {
                let _ = rows.replace_at(i, rest);
                assert(rows.listing().skip(i + 1) =~= list.skip(i + 1));
            }
            proof {
                assert forall|j: int| 0 <= j < i implies (#[trigger] rows.listing()[j]).1@.len() > 0
                    && done.contains(rows.listing()[j].0) by {
                    assert(rows.listing()[j] == list[j]);
                }
            }
            i = i + 1;
        }
        proof {
            assert forall|f: Seq<char>| #[trigger] row_of(rows@, f) == (if done.insert(key).contains(
                f,
            ) {
                left(row_of(origin, f), *removal)
            } else {
                row_of(origin, f)
            }) by {
                assert(row_of(now, f) == (if done.contains(f) {
                    left(row_of(origin, f), *removal)
                } else {
                    row_of(origin, f)
                }));
            }
            done = done.insert(key);
            n = n + 1;
        }
    }
    proof {
        let list = rows.listing();
        crate::text_map::lemma_as_map(list);
        crate::text_map::lemma_as_map(olist);
        assert(list.skip(i as int).len() == 0);
        assert(n == olist.len());
        assert(olist.take(n) =~= olist);
        assert forall|f: Seq<char>| #[trigger] row_of(rows@, f) == left(row_of(origin, f), *removal) by {
            if !done.contains(f) {
                if origin.contains_key(f) {
                    let m = choose|m: int| 0 <= m < olist.len() && (#[trigger] olist[m]).0 == f;
                    assert(done.contains(olist[m].0));
                }
            }
        }
        assert forall|f: Seq<char>| #[trigger] rows@.contains_key(f) implies row_of(rows@, f).len()
            > 0 by {
            let j = choose|j: int| 0 <= j < list.len() && (#[trigger] list[j]).0 == f;
            assert(rows@[list[j].0] == list[j].1);
        }
    }
    changed
}

/// How many subscriptions of a row belong to a client.
pub open spec fn owned_in_row(row: Seq<Subscription>, client_id: Seq<char>) -> nat
    decreases row.len(),
{
    if row.len() == 0 {
        0
    } else {
        owned_in_row(row.drop_last(), client_id) + (if row.last().client_id@ == client_id {
            1nat
        } else {
            0
        })
    }
}

/// How many subscriptions of a list of rows belong to a client.
pub open spec fn owned_in(
    list: Seq<(Seq<char>, Vec<Subscription>)>,
    client_id: Seq<char>,
) -> nat
    decreases list.len(),
{
    if list.len() == 0 {
        0
    } else {
        owned_in(list.drop_last(), client_id) + owned_in_row(list.last().1@, client_id)
    }
}

/// Whether a client has a subscription in a row.
pub open spec fn subscribes(row: Seq<Subscription>, client_id: Seq<char>) -> bool {
    exists|i: int| 0 <= i < row.len() && (#[trigger] row[i]).client_id@ == client_id
}

/// Every subscription, by filter. Filters without wildcards are looked up by the topic name, the
/// others are matched one after the other.
#[derive(Debug)]
pub struct SubscriptionTable {
    exact: Rows,
    wildcard: Rows,
}

impl SubscriptionTable {
    /// The rows of filters without wildcards.
    pub closed spec fn exact_rows(&self) -> Map<Seq<char>, Vec<Subscription>> {
        self.exact@
    }

    /// The rows of filters with wildcards.
    pub closed spec fn wildcard_rows(&self) -> Map<Seq<char>, Vec<Subscription>> {
        self.wildcard@
    }

    /// The rows of filters without wildcards, in the order of first use.
    pub closed spec fn exact_list(&self) -> Seq<(Seq<char>, Vec<Subscription>)> {
        self.exact.listing()
    }

    /// The rows of filters with wildcards, in the order of first use.
    pub closed spec fn wildcard_list(&self) -> Seq<(Seq<char>, Vec<Subscription>)> {
        self.wildcard.listing()
    }

    /// Every filter stands on its side and has subscriptions, at most one of a client on a flow.
    pub closed spec fn wf(&self) -> bool {
        &&& self.exact.wf()
        &&& self.wildcard.wf()
        &&& sound_rows(self.exact@, false)
        &&& sound_rows(self.wildcard@, true)
    }

    /// The lists hold each filter once, with its row; every filter stands on its side, has
    /// subscriptions, and at most one of a client on a flow.
    pub proof fn lemma_lists(&self)
        requires
            self.wf(),
        ensures
            crate::text_map::distinct_keys(self.exact_list()),
            crate::text_map::distinct_keys(self.wildcard_list()),
            self.exact_rows() == crate::text_map::as_map(self.exact_list()),
            self.wildcard_rows() == crate::text_map::as_map(self.wildcard_list()),
            sound_rows(self.exact_rows(), false),
            sound_rows(self.wildcard_rows(), true),
            forall|f: Seq<char>| one_per_slot(#[trigger] self.row(f)),
    {
    }

    /// The subscriptions to a filter, in order.
    pub open spec fn row(&self, filter: Seq<char>) -> Seq<Subscription> {
        if crate::topic::has_wildcard(filter) {
            row_of(self.wildcard_rows(), filter)
        } else {
            row_of(self.exact_rows(), filter)
        }
    }

    /// The subscriptions that a message on a topic goes to: those to the topic itself, then those
    /// to matching filters.
    pub open spec fn matches(&self, topic: Seq<char>) -> Seq<Subscription> {
        row_of(self.exact_rows(), topic) + matching_in(self.wildcard_list(), topic)
    }

    /// No subscription at all.
    pub fn new() -> (r: Self)
        ensures
            r.wf(),
            forall|f: Seq<char>| #[trigger] r.row(f) == Seq::<Subscription>::empty(),
            r.exact_list().len() == 0,
            r.wildcard_list().len() == 0,
    {
        SubscriptionTable { exact: TextMap::new(), wildcard: TextMap::new() }
    }

    /// Adds a subscription to a filter, or replaces the one of the same client and flow. Returns
    /// whether it is new.
    pub fn add(&mut self, filter: &str, sub: Subscription) -> (new: bool)
        requires
            old(self).wf(),
        ensures
            final(self).wf(),
            forall|f: Seq<char>| #[trigger]
                final(self).row(f) == (if f == filter@ {
                    put(old(self).row(f), sub)
                } else {
                    old(self).row(f)
                }),
            new == (slot(old(self).row(filter@), sub.client_id@, sub.flow_id) == old(self).row(
                filter@,
            ).len()),
    {
        proof {
            lemma_slot(self.row(filter@), sub.client_id@, sub.flow_id);
            law_one_subscription_per_client_and_flow(self.row(filter@), sub);
        }
        if is_wildcard_filter(filter) {
            add_to_rows(&mut self.wildcard, filter, sub)
        } else {
            add_to_rows(&mut self.exact, filter, sub)
        }
    }

    /// Removes a client's subscription to a filter on a flow. Returns whether there was one.
    pub fn remove(&mut self, filter: &str, client_id: &str, flow_id: Option<u64>) -> (removed: bool)
        requires
            old(self).wf(),
        ensures
            final(self).wf(),
            forall|f: Seq<char>|
                f != filter@ ==> #[trigger] final(self).row(f) == old(self).row(f),
            final(self).row(filter@) == without_slot(
                old(self).row(filter@),
                client_id@,
                flow_id,
            ),
            removed == (final(self).row(filter@).len() < old(self).row(filter@).len()),
    {
        let removal = Removal::of_flow(client_id, flow_id);
        proof {
            lemma_left_slot(self.row(filter@), removal, client_id@, flow_id);
            lemma_left_one_per_slot(self.row(filter@), removal);
        }
        if is_wildcard_filter(filter) {
            remove_from_row(&mut self.wildcard, filter, &removal)
        } else {
            remove_from_row(&mut self.exact, filter, &removal)
        }
    }

    /// Applies a removal to every filter. Returns the filters that lost a subscription.
    pub fn remove_everywhere(&mut self, removal: &Removal) -> (changed: Vec<String>)
        requires
            old(self).wf(),
        ensures
            final(self).wf(),
            forall|f: Seq<char>| #[trigger]
                final(self).row(f) == left(old(self).row(f), *removal),
            texts(changed@) == shortened(old(self).exact_list(), *removal) + shortened(
                old(self).wildcard_list(),
                *removal,
            ),
            texts(changed@).no_duplicates(),
    {
        let ghost origin = *self;
        proof {
            lemma_shortened_sides(origin, *removal);
        }
        let mut changed = remove_from_rows(&mut self.exact, removal);
        let mut more = remove_from_rows(&mut self.wildcard, removal);
        let ghost first = changed@;
        let ghost second = more@;
        changed.append(&mut more);
        proof {
            assert(texts(changed@) =~= texts(first) + texts(second));
            assert forall|f: Seq<char>| #[trigger] self.exact@.contains_key(f) implies {
                &&& !crate::topic::has_wildcard(f)
                &&& self.exact@[f]@.len() > 0
                &&& one_per_slot(self.exact@[f]@)
            } by {
                assert(row_of(self.exact@, f).len() > 0);
                assert(origin.exact@.contains_key(f));
                lemma_left_one_per_slot(origin.exact@[f]@, *removal);
            }
            assert forall|f: Seq<char>| #[trigger] self.wildcard@.contains_key(f) implies {
                &&& crate::topic::has_wildcard(f)
                &&& self.wildcard@[f]@.len() > 0
                &&& one_per_slot(self.wildcard@[f]@)
            } by {
                assert(row_of(self.wildcard@, f).len() > 0);
                assert(origin.wildcard@.contains_key(f));
                lemma_left_one_per_slot(origin.wildcard@[f]@, *removal);
            }
            assert forall|f: Seq<char>| #[trigger] self.row(f) == left(origin.row(f), *removal) by {
                assert(row_of(self.exact@, f) == left(row_of(origin.exact@, f), *removal));
                assert(row_of(self.wildcard@, f) == left(row_of(origin.wildcard@, f), *removal));
            }
        }
        changed
    }

    /// Removes every subscription of a client.
    pub fn strip_client(&mut self, client_id: &str)
        requires
            old(self).wf(),
        ensures
            final(self).wf(),
            forall|f: Seq<char>| #[trigger]
                final(self).row(f) == without_client(old(self).row(f), client_id@),
            final(self).owned(client_id@) == 0,
    {
        let ghost origin = *self;
        let removal = Removal::of_client(client_id);
        let _ = self.remove_everywhere(&removal);
        proof {
            assert forall|f: Seq<char>| #[trigger] self.row(f) == without_client(
                origin.row(f),
                client_id@,
            ) by {
                lemma_left_client(origin.row(f), removal, client_id@);
            }
            assert forall|f: Seq<char>| owned_in_row(#[trigger] self.row(f), client_id@) == 0 by {
                lemma_without_client(origin.row(f), client_id@);
            }
            law_client_without_rows_owns_nothing(*self, client_id@);
        }
    }

    /// Removes every subscription of a client on a flow. Returns the filters that lost one.
    pub fn strip_flow(&mut self, client_id: &str, flow_id: u64) -> (changed: Vec<String>)
        requires
            old(self).wf(),
        ensures
            final(self).wf(),
            forall|f: Seq<char>| #[trigger]
                final(self).row(f) == without_slot(old(self).row(f), client_id@, Some(flow_id)),
            forall|f: Seq<char>| #[trigger]
                texts(changed@).contains(f) <==> final(self).row(f).len() < old(self).row(f).len(),
            texts(changed@).no_duplicates(),
    {
        let ghost origin = *self;
        let removal = Removal::of_flow(client_id, Some(flow_id));
        let changed = self.remove_everywhere(&removal);
        proof {
            assert forall|f: Seq<char>| #[trigger] self.row(f) == without_slot(
                origin.row(f),
                client_id@,
                Some(flow_id),
            ) by {
                lemma_left_slot(origin.row(f), removal, client_id@, Some(flow_id));
            }
            assert forall|f: Seq<char>| #[trigger]
                texts(changed@).contains(f) <==> self.row(f).len() < origin.row(f).len() by {
                let a = shortened(origin.exact_list(), removal);
                let b = shortened(origin.wildcard_list(), removal);
                lemma_shortened_row(origin.exact_list(), removal, f);
                lemma_shortened_row(origin.wildcard_list(), removal, f);
                assert(row_of(origin.exact@, f).len() > 0 ==> origin.exact@.contains_key(f));
                assert(row_of(origin.wildcard@, f).len() > 0 ==> origin.wildcard@.contains_key(f));
                assert((a + b).contains(f) <==> a.contains(f) || b.contains(f)) by {
                    if a.contains(f) {
                        let i = choose|i: int| 0 <= i < a.len() && a[i] == f;
                        assert((a + b)[i] == f);
                    }
                    if b.contains(f) {
                        let i = choose|i: int| 0 <= i < b.len() && b[i] == f;
                        assert((a + b)[a.len() + i] == f);
                    }
                }
                assert(self.row(f) == left(origin.row(f), removal));
            }
        }
        changed
    }

    /// The subscriptions that a message on a topic goes to.
    pub fn matching(&self, topic: &str) -> (r: Vec<Subscription>)
        requires
            self.wf(),
        ensures
            r@ == self.matches(topic@),
    {
        let mut out: Vec<Subscription> = Vec::new();
        if let Some(row) = self.exact.get(topic) {
            append_row(&mut out, row);
        }
        let ghost own = out@;
        let n: usize = self.wildcard.len();
        let ghost list = self.wildcard.listing();
        let mut i: usize = 0;
        proof {
            assert(own =~= row_of(self.exact@, topic@));
            assert(list.take(0) =~= Seq::<(Seq<char>, Vec<Subscription>)>::empty());
            assert(own + Seq::<Subscription>::empty() =~= own);
        }
        while i < n
            invariant
                i <= n,
                n == list.len(),
                list == self.wildcard.listing(),
                out@ == own + matching_in(list.take(i as int), topic@),
            decreases n - i,
        {
            proof {
                assert(list.take(i + 1).drop_last() =~= list.take(i as int));
                assert(list.take(i + 1).last() == list[i as int]);
            }
            let ghost before = matching_in(list.take(i as int), topic@);
            if topic_matches_filter(topic, self.wildcard.key_at(i).as_str()) {
                append_row(&mut out, self.wildcard.value_at(i));
                assert((own + before) + list[i as int].1@ =~= own + (before + list[i as int].1@));
            } else {
                assert(before + Seq::<Subscription>::empty() =~= before);
            }
            i = i + 1;
        }
        assert(list.take(list.len() as int) =~= list);
        out
    }

    /// Whether a client has a subscription to a filter, on whatever flow.
    pub fn has(&self, filter: &str, client_id: &str) -> (r: bool)
        requires
            self.wf(),
        ensures
            r == subscribes(self.row(filter@), client_id@),
    {
        let row = if is_wildcard_filter(filter) {
            self.wildcard.get(filter)
        } else {
            self.exact.get(filter)
        };
        match row {
            Some(row) => {
                let mut i: usize = 0;
                while i < row.len()
                    invariant
                        i <= row@.len(),
                        row@ == self.row(filter@),
                        forall|j: int| 0 <= j < i ==> (#[trigger] row@[j]).client_id@ != client_id@,
                    decreases row@.len() - i,
                {
                    if same_text(row[i].client_id.as_str(), client_id) {
                        assert(self.row(filter@)[i as int].client_id@ == client_id@);
                        return true;
                    }
                    i = i + 1;
                }
                false
            },
            None => false,
        }
    }

    /// The number of filters that are subscribed to.
    pub fn filter_count(&self) -> (r: usize)
        requires
            self.wf(),
        ensures
            r == (if self.filters() <= usize::MAX {
                self.filters() as int
            } else {
                usize::MAX as int
            }),
    {
        self.exact.len().saturating_add(self.wildcard.len())
    }

    /// How many filters are subscribed to.
    pub open spec fn filters(&self) -> nat {
        self.exact_list().len() + self.wildcard_list().len()
    }

    /// How many subscriptions a client has.
    pub open spec fn owned(&self, client_id: Seq<char>) -> nat {
        owned_in(self.exact_list(), client_id) + owned_in(self.wildcard_list(), client_id)
    }

    /// The number of a client's subscriptions.
    pub fn count_for(&self, client_id: &str) -> (r: usize)
        requires
            self.wf(),
        ensures
            r == (if self.owned(client_id@) <= usize::MAX {
                self.owned(client_id@) as int
            } else {
                usize::MAX as int
            }),
    {
        count_in_rows(&self.exact, client_id).saturating_add(
            count_in_rows(&self.wildcard, client_id),
        )
    }

    /// The clients that have subscriptions, each once.
    pub fn subscribers(&self) -> (r: Vec<String>)
        requires
            self.wf(),
        ensures
            forall|c: Seq<char>| #[trigger]
                names(r@, c) <==> exists|f: Seq<char>| #[trigger] subscribes(self.row(f), c),
            forall|i: int, j: int|
                #![trigger r@[i], r@[j]]
                0 <= i < j < r@.len() ==> r@[i]@ != r@[j]@,
    {
        let mut out: Vec<String> = Vec::new();
        gather_clients(&self.exact, &mut out);
        let ghost first = out@;
        gather_clients(&self.wildcard, &mut out);
        proof {
            assert forall|c: Seq<char>| #[trigger] names(out@, c) implies exists|f: Seq<char>|
                #[trigger] subscribes(self.row(f), c) by {
                if names(first, c) {
                    let f = choose|f: Seq<char>|
                        #[trigger] self.exact@.contains_key(f) && subscribes(self.exact@[f]@, c);
                    assert(subscribes(self.row(f), c));
                } else {
                    let f = choose|f: Seq<char>|
                        #[trigger] self.wildcard@.contains_key(f) && subscribes(
                            self.wildcard@[f]@,
                            c,
                        );
                    assert(subscribes(self.row(f), c));
                }
            }
            assert forall|f: Seq<char>, c: Seq<char>| #[trigger]
                subscribes(self.row(f), c) implies names(out@, c) by {
                if crate::topic::has_wildcard(f) {
                    assert(self.wildcard@.contains_key(f));
                } else {
                    assert(self.exact@.contains_key(f));
                    assert(names(first, c));
                }
            }
        }
        out
    }
}

proof fn lemma_shortened(
    list: Seq<(Seq<char>, Vec<Subscription>)>,
    removal: Removal,
    f: Seq<char>,
)
    ensures
        shortened(list, removal).contains(f) <==> exists|i: int|
            0 <= i < list.len() && (#[trigger] list[i]).0 == f && left(list[i].1@, removal).len()
                < list[i].1@.len(),
    decreases list.len(),
{
    if list.len() > 0 {
        let init = list.drop_last();
        lemma_shortened(init, removal, f);
        let before = shortened(init, removal);
        let all = shortened(list, removal);
        if all.contains(f) {
            let k = choose|k: int| 0 <= k < all.len() && all[k] == f;
            if k < before.len() {
                assert(before[k] == f);
                let i = choose|i: int|
                    0 <= i < init.len() && (#[trigger] init[i]).0 == f && left(
                        init[i].1@,
                        removal,
                    ).len() < init[i].1@.len();
                assert(list[i].0 == f);
            } else {
                assert(list[list.len() - 1].0 == f);
            }
        }
        if exists|i: int|
            0 <= i < list.len() && (#[trigger] list[i]).0 == f && left(list[i].1@, removal).len()
                < list[i].1@.len() {
            let i = choose|i: int|
                0 <= i < list.len() && (#[trigger] list[i]).0 == f && left(list[i].1@, removal).len()
                    < list[i].1@.len();
            if i < init.len() {
                assert(init[i].0 == f);
                let k = choose|k: int| 0 <= k < before.len() && before[k] == f;
                assert(all[k] == f);
            } else {
                assert(all[all.len() - 1] == f);
            }
        }
    }
}

proof fn lemma_shortened_once(list: Seq<(Seq<char>, Vec<Subscription>)>, removal: Removal)
    requires
        crate::text_map::distinct_keys(list),
    ensures
        shortened(list, removal).no_duplicates(),
    decreases list.len(),
{
    if list.len() > 0 {
        let init = list.drop_last();
        assert forall|i: int, j: int|
            #![trigger init[i], init[j]]
            0 <= i < j < init.len() implies init[i].0 != init[j].0 by {
            assert(list[i].0 != list[j].0);
        }
        lemma_shortened_once(init, removal);
        lemma_shortened(init, removal, list.last().0);
        if shortened(init, removal).contains(list.last().0) {
            let i = choose|i: int|
                0 <= i < init.len() && (#[trigger] init[i]).0 == list.last().0 && left(
                    init[i].1@,
                    removal,
                ).len() < init[i].1@.len();
            assert(list[i].0 != list[list.len() - 1].0);
        }
        let before = shortened(init, removal);
        let after = shortened(list, removal);
        assert forall|i: int, j: int|
            0 <= i < after.len() && 0 <= j < after.len() && i != j implies after[i]
            != after[j] by {
            if i < before.len() && j < before.len() {
                assert(before[i] != before[j]);
            } else if i < before.len() {
                assert(before.contains(before[i]));
            } else {
                assert(before.contains(before[j]));
            }
        }
    }
}

proof fn lemma_shortened_sides(table: SubscriptionTable, removal: Removal)
    requires
        table.wf(),
    ensures
        (shortened(table.exact_list(), removal) + shortened(
            table.wildcard_list(),
            removal,
        )).no_duplicates(),
{
    let a = shortened(table.exact_list(), removal);
    let b = shortened(table.wildcard_list(), removal);
    lemma_shortened_once(table.exact_list(), removal);
    lemma_shortened_once(table.wildcard_list(), removal);
    crate::text_map::lemma_as_map(table.exact_list());
    crate::text_map::lemma_as_map(table.wildcard_list());
    assert forall|i: int, j: int|
        0 <= i < (a + b).len() && 0 <= j < (a + b).len() && i != j implies (a + b)[i]
        != (a + b)[j] by {
        if i < a.len() && j >= a.len() {
            lemma_sides_differ(table, removal, i, j - a.len());
        } else if j < a.len() && i >= a.len() {
            lemma_sides_differ(table, removal, j, i - a.len());
        } else if i < a.len() {
            assert(a[i] != a[j]);
        } else {
            assert(b[i - a.len()] != b[j - a.len()]);
        }
    }
}

proof fn lemma_sides_differ(table: SubscriptionTable, removal: Removal, i: int, j: int)
    requires
        table.wf(),
        0 <= i < shortened(table.exact_list(), removal).len(),
        0 <= j < shortened(table.wildcard_list(), removal).len(),
    ensures
        shortened(table.exact_list(), removal)[i] != shortened(table.wildcard_list(), removal)[j],
{
    let x = table.exact_list();
    let y = table.wildcard_list();
    let a = shortened(x, removal)[i];
    let b = shortened(y, removal)[j];
    table.lemma_lists();
    assert(shortened(x, removal).contains(a));
    assert(shortened(y, removal).contains(b));
    lemma_shortened_row(x, removal, a);
    lemma_shortened_row(y, removal, b);
    assert(table.exact_rows().contains_key(a));
    assert(table.wildcard_rows().contains_key(b));
}

proof fn lemma_shortened_row(
    list: Seq<(Seq<char>, Vec<Subscription>)>,
    removal: Removal,
    f: Seq<char>,
)
    requires
        crate::text_map::distinct_keys(list),
    ensures
        ({
            let row = row_of(crate::text_map::as_map(list), f);
            shortened(list, removal).contains(f) <==> left(row, removal).len() < row.len()
        }),
{
    lemma_shortened(list, removal, f);
    crate::text_map::lemma_as_map(list);
    let map = crate::text_map::as_map(list);
    let row = row_of(map, f);
    if left(row, removal).len() < row.len() {
        assert(map.contains_key(f));
        let i = choose|i: int| 0 <= i < list.len() && (#[trigger] list[i]).0 == f;
        assert(map[list[i].0] == list[i].1);
    }
    if shortened(list, removal).contains(f) {
        let i = choose|i: int|
            0 <= i < list.len() && (#[trigger] list[i]).0 == f && left(list[i].1@, removal).len()
                < list[i].1@.len();
        assert(map[list[i].0] == list[i].1);
    }
}

fn append_row(out: &mut Vec<Subscription>, row: &Vec<Subscription>)
    ensures
        final(out)@ == old(out)@ + row@,
{
    let ghost before = out@;
    let mut i: usize = 0;
    assert(before + row@.take(0) =~= before);
    while i < row.len()
        invariant
            i <= row@.len(),
            out@ == before + row@.take(i as int),
        decreases row@.len() - i,
    {
        out.push(row[i].clone());
        i = i + 1;
        assert(out@ =~= before + row@.take(i as int));
    }
    assert(row@.take(row@.len() as int) =~= row@);
}

fn slot_in(row: &Vec<Subscription>, client_id: &str, flow_id: Option<u64>) -> (r: usize)
    ensures
        r == slot(row@, client_id@, flow_id),
        r <= row@.len(),
{
    let mut i: usize = 0;
    assert(row@.skip(0) =~= row@);
    while i < row.len()
        invariant
            i <= row@.len(),
            slot(row@, client_id@, flow_id) == i + slot(row@.skip(i as int), client_id@, flow_id),
        decreases row@.len() - i,
    {
        if same_text(row[i].client_id.as_str(), client_id) && same_flow(row[i].flow_id, flow_id) {
            return i;
        }
        assert(row@.skip(i as int).drop_first() =~= row@.skip(i + 1));
        i = i + 1;
    }
    i
}

fn add_to_rows(rows: &mut Rows, filter: &str, sub: Subscription) -> (new: bool)
    requires
        old(rows).wf(),
    ensures
        final(rows).wf(),
        forall|f: Seq<char>| #[trigger]
            final(rows)@.contains_key(f) <==> f == filter@ || old(rows)@.contains_key(f),
        final(rows)@[filter@]@ == put(row_of(old(rows)@, filter@), sub),
        forall|f: Seq<char>| f != filter@ ==> #[trigger] final(rows)@[f] == old(rows)@[f],
        new == (slot(row_of(old(rows)@, filter@), sub.client_id@, sub.flow_id) == row_of(
            old(rows)@,
            filter@,
        ).len()),
{
    let ghost origin = rows@;
    if let Some(row) = rows.get_mut(filter) {
        let ghost before = row@;
        let at: usize = slot_in(row, sub.client_id.as_str(), sub.flow_id);
        if at < row.len() {
            row.set(at, sub);
            return false;
        }
        row.push(sub);
        return true;
    }
    let mut row: Vec<Subscription> = Vec::new();
    row.push(sub);
    assert(row@ =~= put(Seq::<Subscription>::empty(), sub));
    let _ = rows.insert(filter.to_owned(), row);
    true
}

fn remove_from_row(rows: &mut Rows, filter: &str, removal: &Removal) -> (removed: bool)
    requires
        old(rows).wf(),
    ensures
        final(rows).wf(),
        row_of(final(rows)@, filter@) == left(row_of(old(rows)@, filter@), *removal),
        final(rows)@.contains_key(filter@) ==> final(rows)@[filter@]@.len() > 0,
        forall|f: Seq<char>|
            f != filter@ ==> (#[trigger] final(rows)@.contains_key(f) == old(rows)@.contains_key(f)
                && final(rows)@[f] == old(rows)@[f]),
        removed == (row_of(final(rows)@, filter@).len() < row_of(old(rows)@, filter@).len()),
{
    match rows.position(filter) {
        Some(i) => {
            let before: usize = rows.value_at(i).len();
            let rest = left_of(rows.value_at(i), removal);
            let removed = rest.len() < before;
            proof {
                lemma_left_len(row_of(rows@, filter@), *removal);
            }
            if rest.len() == 0 {
                let _ = rows.remove_at(i);
            } else {
                let _ = rows.replace_at(i, rest);
            }
            removed
        },
        None => false,
    }
}

/// A count that stays at the largest number there is.
spec fn bounded_count(n: nat) -> int {
    if n <= usize::MAX {
        n as int
    } else {
        usize::MAX as int
    }
}

fn count_in_rows(rows: &Rows, client_id: &str) -> (r: usize)
    requires
        rows.wf(),
    ensures
        r == bounded_count(owned_in(rows.listing(), client_id@)),
{
    let mut total: usize = 0;
    let n: usize = rows.len();
    let ghost list = rows.listing();
    let mut i: usize = 0;
    assert(list.take(0) =~= Seq::<(Seq<char>, Vec<Subscription>)>::empty());
    while i < n
        invariant
            i <= n,
            n == list.len(),
            list == rows.listing(),
            total == bounded_count(owned_in(list.take(i as int), client_id@)),
        decreases n - i,
    {
        proof {
            assert(list.take(i + 1).drop_last() =~= list.take(i as int));
            assert(list.take(i + 1).last() == list[i as int]);
        }
        let row = rows.value_at(i);
        let ghost base = owned_in(list.take(i as int), client_id@);
        let mut j: usize = 0;
        assert(row@.take(0) =~= Seq::<Subscription>::empty());
        while j < row.len()
            invariant
                j <= row@.len(),
                total == bounded_count(base + owned_in_row(row@.take(j as int), client_id@)),
            decreases row@.len() - j,
        {
            assert(row@.take(j + 1).drop_last() =~= row@.take(j as int));
            if same_text(row[j].client_id.as_str(), client_id) {
                total = total.saturating_add(1);
            }
            j = j + 1;
        }
        assert(row@.take(row@.len() as int) =~= row@);
        i = i + 1;
    }
    assert(list.take(list.len() as int) =~= list);
    total
}

proof fn lemma_without_client(row: Seq<Subscription>, client_id: Seq<char>)
    ensures
        owned_in_row(without_client(row, client_id), client_id) == 0,
    decreases row.len(),
{
    if row.len() > 0 {
        let rest = without_client(row.drop_last(), client_id);
        lemma_without_client(row.drop_last(), client_id);
        assert(rest.push(row.last()).drop_last() =~= rest);
    }
}

/// A client that has no subscription to any filter has none at all.
pub proof fn law_client_without_rows_owns_nothing(table: SubscriptionTable, client_id: Seq<char>)
    requires
        table.wf(),
        forall|f: Seq<char>| owned_in_row(#[trigger] table.row(f), client_id) == 0,
    ensures
        table.owned(client_id) == 0,
{
    table.lemma_lists();
    let exact = table.exact_list();
    let wildcard = table.wildcard_list();
    crate::text_map::lemma_as_map(exact);
    crate::text_map::lemma_as_map(wildcard);
    assert forall|i: int| 0 <= i < exact.len() implies owned_in_row(
        (#[trigger] exact[i]).1@,
        client_id,
    ) == 0 by {
        assert(table.exact_rows().contains_key(exact[i].0));
        assert(table.row(exact[i].0) == exact[i].1@);
    }
    assert forall|i: int| 0 <= i < wildcard.len() implies owned_in_row(
        (#[trigger] wildcard[i]).1@,
        client_id,
    ) == 0 by {
        assert(table.wildcard_rows().contains_key(wildcard[i].0));
        assert(table.row(wildcard[i].0) == wildcard[i].1@);
    }
    lemma_owned_zero(exact, client_id);
    lemma_owned_zero(wildcard, client_id);
}

proof fn lemma_owned_zero(list: Seq<(Seq<char>, Vec<Subscription>)>, client_id: Seq<char>)
    requires
        forall|i: int|
            0 <= i < list.len() ==> owned_in_row((#[trigger] list[i]).1@, client_id) == 0,
    ensures
        owned_in(list, client_id) == 0,
    decreases list.len(),
{
    if list.len() > 0 {
        let init = list.drop_last();
        assert forall|i: int| 0 <= i < init.len() implies owned_in_row(
            (#[trigger] init[i]).1@,
            client_id,
        ) == 0 by {
            assert(init[i] == list[i]);
        }
        lemma_owned_zero(init, client_id);
        assert(owned_in_row(list[list.len() - 1].1@, client_id) == 0);
    }
}

/// A removal leaves at most one subscription of a client on a flow.
proof fn lemma_left_one_per_slot(row: Seq<Subscription>, removal: Removal)
    requires
        one_per_slot(row),
    ensures
        one_per_slot(left(row, removal)),
    decreases row.len(),
{
    if row.len() > 0 {
        let init = row.drop_last();
        assert forall|i: int, j: int|
            #![trigger init[i], init[j]]
            0 <= i < j < init.len() implies !same_slot(
            init[i],
            init[j].client_id@,
            init[j].flow_id,
        ) by {
            assert(!same_slot(row[i], row[j].client_id@, row[j].flow_id));
        }
        lemma_left_one_per_slot(init, removal);
        lemma_left_len(init, removal);
        let rest = left(init, removal);
        let after = left(row, removal);
        assert forall|i: int, j: int|
            #![trigger after[i], after[j]]
            0 <= i < j < after.len() implies !same_slot(
            after[i],
            after[j].client_id@,
            after[j].flow_id,
        ) by {
            assert(after[i] == rest[i]);
            if j < rest.len() {
                assert(after[j] == rest[j]);
            } else {
                assert(rest.contains(rest[i]));
                let k = choose|k: int| 0 <= k < init.len() && init[k] == rest[i];
                assert(row[k] == rest[i]);
                assert(!same_slot(
                    row[k],
                    row[row.len() - 1].client_id@,
                    row[row.len() - 1].flow_id,
                ));
            }
        }
    }
}

/// The filters of a list that match a topic, in order.
pub open spec fn filters_in(list: Seq<(Seq<char>, Vec<Subscription>)>, topic: Seq<char>) -> Seq<
    Seq<char>,
>
    decreases list.len(),
{
    if list.len() == 0 {
        Seq::empty()
    } else if crate::topic::topic_matches(topic, list.last().0) {
        filters_in(list.drop_last(), topic).push(list.last().0)
    } else {
        filters_in(list.drop_last(), topic)
    }
}

impl SubscriptionTable {
    /// The filters whose subscriptions a message on a topic goes to: the topic itself, then the
    /// matching filters.
    pub open spec fn matching_filters(&self, topic: Seq<char>) -> Seq<Seq<char>> {
        (if self.exact_rows().contains_key(topic) {
            seq![topic]
        } else {
            Seq::empty()
        }) + filters_in(self.wildcard_list(), topic)
    }

    /// The rows of filters, one after the other.
    pub open spec fn rows_of(&self, filters: Seq<Seq<char>>) -> Seq<Subscription>
        decreases filters.len(),
    {
        if filters.len() == 0 {
            Seq::empty()
        } else {
            self.rows_of(filters.drop_last()) + self.row(filters.last())
        }
    }
}

/// A message on a topic goes to the rows of the filters that match the topic, and to each of these
/// rows exactly once.
pub proof fn law_each_matching_filter_counts_once(table: SubscriptionTable, topic: Seq<char>)
    requires
        table.wf(),
        !crate::topic::has_wildcard(topic),
    ensures
        table.matches(topic) == table.rows_of(table.matching_filters(topic)),
        table.matching_filters(topic).no_duplicates(),
        forall|f: Seq<char>| #[trigger]
            table.matching_filters(topic).contains(f) <==> table.row(f).len() > 0
                && crate::topic::topic_matches(topic, f),
{
    table.lemma_lists();
    let list = table.wildcard_list();
    let own = if table.exact_rows().contains_key(topic) {
        seq![topic]
    } else {
        Seq::empty()
    };
    let more = filters_in(list, topic);
    let all = table.matching_filters(topic);
    crate::text_map::lemma_as_map(list);
    crate::topic::lemma_topic_matches_itself(topic);
    lemma_filters_in(list, topic);
    assert forall|m: int| 0 <= m < list.len() implies table.row((#[trigger] list[m]).0)
        == list[m].1@ && crate::topic::has_wildcard(list[m].0) by {
        assert(table.wildcard_rows().contains_key(list[m].0));
    }
    assert(table.rows_of(own) =~= row_of(table.exact_rows(), topic)) by {
        if own.len() > 0 {
            assert(own.drop_last() =~= Seq::<Seq<char>>::empty());
            assert(table.rows_of(own.drop_last()) =~= Seq::<Subscription>::empty());
            assert(table.row(topic) == row_of(table.exact_rows(), topic));
            assert(table.rows_of(own) =~= table.row(topic));
        }
    }
    lemma_rows_of_list(table, list, topic);
    lemma_rows_of_concat(table, own, more);
    assert forall|i: int, j: int| 0 <= i < all.len() && 0 <= j < all.len() && i != j implies all[i]
        != all[j] by {
        if i >= own.len() && j >= own.len() {
            assert(more[i - own.len()] != more[j - own.len()]);
        } else if i >= own.len() {
            assert(more.contains(more[i - own.len()]));
        } else if j >= own.len() {
            assert(more.contains(more[j - own.len()]));
        }
    }
    assert forall|f: Seq<char>| #[trigger] all.contains(f) <==> table.row(f).len() > 0
        && crate::topic::topic_matches(topic, f) by {
        if all.contains(f) {
            let i = choose|i: int| 0 <= i < all.len() && all[i] == f;
            if i < own.len() {
                assert(table.exact_rows().contains_key(f));
            } else {
                assert(more.contains(more[i - own.len()]));
                let m = choose|m: int|
                    0 <= m < list.len() && (#[trigger] list[m]).0 == f
                        && crate::topic::topic_matches(topic, f);
                assert(table.wildcard_rows().contains_key(list[m].0));
            }
        }
        if table.row(f).len() > 0 && crate::topic::topic_matches(topic, f) {
            if crate::topic::has_wildcard(f) {
                let m = choose|m: int| 0 <= m < list.len() && (#[trigger] list[m]).0 == f;
                assert(list[m].0 == f);
                assert(more.contains(f));
                let i = choose|i: int| 0 <= i < more.len() && more[i] == f;
                assert(all[own.len() + i] == f);
            } else {
                crate::topic::lemma_plain_filter_matches_itself_only(topic, f);
                assert(all[0] == f);
            }
        }
    }
}

proof fn lemma_filters_in(list: Seq<(Seq<char>, Vec<Subscription>)>, topic: Seq<char>)
    requires
        crate::text_map::distinct_keys(list),
    ensures
        filters_in(list, topic).no_duplicates(),
        forall|f: Seq<char>| #[trigger]
            filters_in(list, topic).contains(f) <==> exists|m: int|
                0 <= m < list.len() && (#[trigger] list[m]).0 == f && crate::topic::topic_matches(
                    topic,
                    f,
                ),
    decreases list.len(),
{
    if list.len() > 0 {
        let init = list.drop_last();
        assert forall|i: int, j: int|
            #![trigger init[i], init[j]]
            0 <= i < j < init.len() implies init[i].0 != init[j].0 by {
            assert(list[i].0 != list[j].0);
        }
        lemma_filters_in(init, topic);
        let before = filters_in(init, topic);
        let after = filters_in(list, topic);
        let last = list.last().0;
        if before.contains(last) {
            let m = choose|m: int|
                0 <= m < init.len() && (#[trigger] init[m]).0 == last
                    && crate::topic::topic_matches(topic, last);
            assert(list[m].0 != list[list.len() - 1].0);
        }
        assert forall|i: int, j: int|
            0 <= i < after.len() && 0 <= j < after.len() && i != j implies after[i] != after[j] by {
            if i < before.len() {
                assert(before.contains(before[i]));
            }
            if j < before.len() {
                assert(before.contains(before[j]));
            }
        }
        assert forall|f: Seq<char>| #[trigger] after.contains(f) <==> exists|m: int|
            0 <= m < list.len() && (#[trigger] list[m]).0 == f && crate::topic::topic_matches(
                topic,
                f,
            ) by {
            vstd::seq_lib::lemma_seq_contains_after_push(before, last, f);
            if before.contains(f) {
                let m = choose|m: int|
                    0 <= m < init.len() && (#[trigger] init[m]).0 == f
                        && crate::topic::topic_matches(topic, f);
                assert(list[m].0 == f);
            }
            if f == last && crate::topic::topic_matches(topic, f) {
                assert(list[list.len() - 1].0 == f);
            }
            if exists|m: int|
                0 <= m < list.len() && (#[trigger] list[m]).0 == f && crate::topic::topic_matches(
                    topic,
                    f,
                ) {
                let m = choose|m: int|
                    0 <= m < list.len() && (#[trigger] list[m]).0 == f
                        && crate::topic::topic_matches(topic, f);
                if m < init.len() {
                    assert(init[m].0 == f);
                }
            }
        }
    }
}

proof fn lemma_rows_of_list(
    table: SubscriptionTable,
    list: Seq<(Seq<char>, Vec<Subscription>)>,
    topic: Seq<char>,
)
    requires
        forall|m: int| 0 <= m < list.len() ==> table.row((#[trigger] list[m]).0) == list[m].1@,
    ensures
        matching_in(list, topic) == table.rows_of(filters_in(list, topic)),
    decreases list.len(),
{
    if list.len() > 0 {
        let init = list.drop_last();
        assert forall|m: int| 0 <= m < init.len() implies table.row((#[trigger] init[m]).0)
            == init[m].1@ by {
            assert(init[m] == list[m]);
        }
        lemma_rows_of_list(table, init, topic);
        assert(table.row(list[list.len() - 1].0) == list.last().1@);
        let before = filters_in(init, topic);
        assert(before.push(list.last().0).drop_last() =~= before);
        assert(matching_in(list, topic) =~= table.rows_of(filters_in(list, topic)));
    }
}

proof fn lemma_rows_of_concat(table: SubscriptionTable, a: Seq<Seq<char>>, b: Seq<Seq<char>>)
    ensures
        table.rows_of(a + b) == table.rows_of(a) + table.rows_of(b),
    decreases b.len(),
{
    if b.len() > 0 {
        lemma_rows_of_concat(table, a, b.drop_last());
        assert((a + b).drop_last() =~= a + b.drop_last());
        assert((a + b).last() == b.last());
    } else {
        assert(a + b =~= a);
    }
    assert(table.rows_of(a + b) =~= table.rows_of(a) + table.rows_of(b));
}

/// A client whose only subscription that matches a topic is one to a filter is matched once:
/// neither a wildcard filter nor a plain one brings it a second copy.
pub proof fn law_single_subscription_is_matched_once(
    table: SubscriptionTable,
    topic: Seq<char>,
    filter: Seq<char>,
    client_id: Seq<char>,
)
    requires
        table.wf(),
        !crate::topic::has_wildcard(topic),
        crate::topic::topic_matches(topic, filter),
        owned_in_row(table.row(filter), client_id) == 1,
        forall|f: Seq<char>|
            f != filter && crate::topic::topic_matches(topic, f) ==> owned_in_row(
                #[trigger] table.row(f),
                client_id,
            ) == 0,
    ensures
        owned_in_row(table.matches(topic), client_id) == 1,
{
    law_each_matching_filter_counts_once(table, topic);
    let all = table.matching_filters(topic);
    assert(table.row(filter).len() > 0);
    assert(all.contains(filter));
    assert forall|i: int| 0 <= i < all.len() && #[trigger] all[i] != filter implies owned_in_row(
        table.row(all[i]),
        client_id,
    ) == 0 by {
        assert(all.contains(all[i]));
    }
    lemma_single_owner(table, all, filter, client_id);
}

proof fn lemma_single_owner(
    table: SubscriptionTable,
    filters: Seq<Seq<char>>,
    filter: Seq<char>,
    client_id: Seq<char>,
)
    requires
        filters.no_duplicates(),
        forall|i: int|
            0 <= i < filters.len() && #[trigger] filters[i] != filter ==> owned_in_row(
                table.row(filters[i]),
                client_id,
            ) == 0,
    ensures
        owned_in_row(table.rows_of(filters), client_id) == (if filters.contains(filter) {
            owned_in_row(table.row(filter), client_id)
        } else {
            0
        }),
    decreases filters.len(),
{
    if filters.len() > 0 {
        let init = filters.drop_last();
        let last = filters.last();
        assert forall|i: int| 0 <= i < init.len() && #[trigger] init[i] != filter implies owned_in_row(
            table.row(init[i]),
            client_id,
        ) == 0 by {
            assert(init[i] == filters[i]);
        }
        lemma_single_owner(table, init, filter, client_id);
        lemma_owned_concat(table.rows_of(init), table.row(last), client_id);
        assert(filters[filters.len() - 1] == last);
        if init.contains(filter) {
            let i = choose|i: int| 0 <= i < init.len() && init[i] == filter;
            assert(filters[i] == filter);
        }
        if filters.contains(filter) && last != filter {
            let i = choose|i: int| 0 <= i < filters.len() && filters[i] == filter;
            assert(init[i] == filter);
        }
    }
}

proof fn lemma_owned_concat(a: Seq<Subscription>, b: Seq<Subscription>, client_id: Seq<char>)
    ensures
        owned_in_row(a + b, client_id) == owned_in_row(a, client_id) + owned_in_row(b, client_id),
    decreases b.len(),
{
    if b.len() > 0 {
        lemma_owned_concat(a, b.drop_last(), client_id);
        assert((a + b).drop_last() =~= a + b.drop_last());
        assert((a + b).last() == b.last());
    } else {
        assert(a + b =~= a);
    }
}

/// Adds the clients of every row that the list does not hold yet.
fn gather_clients(rows: &Rows, out: &mut Vec<String>)
    requires
        rows.wf(),
        forall|i: int, j: int|
            #![trigger old(out)@[i], old(out)@[j]]
            0 <= i < j < old(out)@.len() ==> old(out)@[i]@ != old(out)@[j]@,
    ensures
        forall|c: Seq<char>| #[trigger]
            names(final(out)@, c) ==> names(old(out)@, c) || exists|f: Seq<char>| #[trigger]
                rows@.contains_key(f) && subscribes(rows@[f]@, c),
        forall|c: Seq<char>| #[trigger] names(old(out)@, c) ==> names(final(out)@, c),
        forall|f: Seq<char>, c: Seq<char>|
            #![trigger rows@.contains_key(f), names(final(out)@, c)]
            rows@.contains_key(f) && subscribes(rows@[f]@, c) ==> names(final(out)@, c),
        forall|i: int, j: int|
            #![trigger final(out)@[i], final(out)@[j]]
            0 <= i < j < final(out)@.len() ==> final(out)@[i]@ != final(out)@[j]@,
{
    let ghost first = out@;
    let ghost list = rows.listing();
    let n: usize = rows.len();
    let mut i: usize = 0;
    proof {
        crate::text_map::lemma_as_map(list);
    }
    while i < n
        invariant
            i <= n,
            n == list.len(),
            list == rows.listing(),
            rows.wf(),
            forall|m: int|
                0 <= m < list.len() ==> rows@.contains_key((#[trigger] list[m]).0)
                    && rows@[list[m].0] == list[m].1,
            forall|c: Seq<char>| #[trigger]
                names(out@, c) ==> names(first, c) || exists|f: Seq<char>| #[trigger]
                    rows@.contains_key(f) && subscribes(rows@[f]@, c),
            forall|c: Seq<char>| #[trigger] names(first, c) ==> names(out@, c),
            forall|m: int, c: Seq<char>|
                #![trigger list[m], names(out@, c)]
                0 <= m < i && subscribes(list[m].1@, c) ==> names(out@, c),
            forall|a: int, b: int|
                #![trigger out@[a], out@[b]]
                0 <= a < b < out@.len() ==> out@[a]@ != out@[b]@,
        decreases n - i,
    {
        let row = rows.value_at(i);
        let ghost start = out@;
        let mut j: usize = 0;
        while j < row.len()
            invariant
                i < n,
                n == list.len(),
                j <= row@.len(),
                row@ == list[i as int].1@,
                rows@.contains_key(list[i as int].0) && rows@[list[i as int].0] == list[i as int].1,
                forall|c: Seq<char>| #[trigger]
                    names(out@, c) ==> names(first, c) || exists|f: Seq<char>| #[trigger]
                        rows@.contains_key(f) && subscribes(rows@[f]@, c),
                forall|c: Seq<char>| #[trigger] names(start, c) ==> names(out@, c),
                forall|m: int| 0 <= m < j ==> names(out@, (#[trigger] row@[m]).client_id@),
                forall|a: int, b: int|
                    #![trigger out@[a], out@[b]]
                    0 <= a < b < out@.len() ==> out@[a]@ != out@[b]@,
            decreases row@.len() - j,
        {
            let id = &row[j].client_id;
            if !holds_name(out, id.as_str()) {
                let ghost before = out@;
                out.push(id.clone());
                proof {
                    assert forall|c: Seq<char>| #[trigger] names(before, c) implies names(out@, c) by {
                        let a = choose|a: int| 0 <= a < before.len() && (#[trigger] before[a])@ == c;
                        assert(out@[a]@ == c);
                    }
                    assert(out@[out@.len() - 1]@ == id@);
                    assert forall|c: Seq<char>| #[trigger] names(out@, c) implies names(first, c)
                        || exists|f: Seq<char>| #[trigger]
                        rows@.contains_key(f) && subscribes(rows@[f]@, c) by {
                        let a = choose|a: int| 0 <= a < out@.len() && (#[trigger] out@[a])@ == c;
                        if a < before.len() {
                            assert(before[a]@ == c);
                            assert(names(before, c));
                        } else {
                            assert(row@[j as int].client_id@ == c);
                            assert(subscribes(rows@[list[i as int].0]@, c));
                        }
                    }
                    assert forall|a: int, b: int|
                        #![trigger out@[a], out@[b]]
                        0 <= a < b < out@.len() implies out@[a]@ != out@[b]@ by {
                        assert(before[a] == out@[a]);
                        if b < before.len() {
                            assert(before[b] == out@[b]);
                        }
                    }
                }
            }
            j = j + 1;
        }
        i = i + 1;
        proof {
            assert forall|m: int, c: Seq<char>|
                #![trigger list[m], names(out@, c)]
                0 <= m < i && subscribes(list[m].1@, c) implies names(out@, c) by {
                if m == i - 1 {
                    let a = choose|a: int|
                        0 <= a < row@.len() && (#[trigger] row@[a]).client_id@ == c;
                    assert(names(out@, row@[a].client_id@));
                } else {
                    assert(names(start, c));
                }
            }
            assert forall|c: Seq<char>| #[trigger] names(first, c) implies names(out@, c) by {
                assert(names(start, c));
            }
        }
    }
    proof {
        assert forall|f: Seq<char>, c: Seq<char>|
            #![trigger rows@.contains_key(f), names(out@, c)]
            rows@.contains_key(f) && subscribes(rows@[f]@, c) implies names(out@, c) by {
            let m = choose|m: int| 0 <= m < list.len() && (#[trigger] list[m]).0 == f;
            assert(rows@[list[m].0] == list[m].1);
        }
    }
}

/// A message reaches exactly the subscriptions whose filter matches its topic, whichever side of
/// the table the filter stands on.
pub proof fn law_message_reaches_matching_filters(
    table: SubscriptionTable,
    topic: Seq<char>,
    sub: Subscription,
)
    requires
        table.wf(),
        !crate::topic::has_wildcard(topic),
    ensures
        table.matches(topic).contains(sub) <==> exists|f: Seq<char>| #[trigger]
            table.row(f).contains(sub) && crate::topic::topic_matches(topic, f),
{
    let own = row_of(table.exact_rows(), topic);
    let list = table.wildcard_list();
    let rest = matching_in(list, topic);
    crate::text_map::lemma_as_map(list);
    lemma_matching_in(list, topic, sub);
    crate::topic::lemma_topic_matches_itself(topic);
    if table.matches(topic).contains(sub) {
        let i = choose|i: int| 0 <= i < (own + rest).len() && (own + rest)[i] == sub;
        if i < own.len() {
            assert(own[i] == sub);
            assert(table.row(topic).contains(sub));
        } else {
            assert(rest[i - own.len()] == sub);
            let m = choose|m: int|
                0 <= m < list.len() && crate::topic::topic_matches(topic, (#[trigger] list[m]).0)
                    && list[m].1@.contains(sub);
            assert(table.wildcard_rows().contains_key(list[m].0));
            assert(table.row(list[m].0).contains(sub));
        }
    }
    if exists|f: Seq<char>| #[trigger]
        table.row(f).contains(sub) && crate::topic::topic_matches(topic, f) {
        let f = choose|f: Seq<char>| #[trigger]
            table.row(f).contains(sub) && crate::topic::topic_matches(topic, f);
        if crate::topic::has_wildcard(f) {
            let m = choose|m: int| 0 <= m < list.len() && (#[trigger] list[m]).0 == f;
            assert(list[m].1@.contains(sub));
            let i = choose|i: int| 0 <= i < rest.len() && rest[i] == sub;
            assert((own + rest)[own.len() + i] == sub);
        } else {
            crate::topic::lemma_plain_filter_matches_itself_only(topic, f);
            let i = choose|i: int| 0 <= i < own.len() && own[i] == sub;
            assert((own + rest)[i] == sub);
        }
    }
}

proof fn lemma_matching_in(
    list: Seq<(Seq<char>, Vec<Subscription>)>,
    topic: Seq<char>,
    sub: Subscription,
)
    ensures
        matching_in(list, topic).contains(sub) <==> exists|m: int|
            0 <= m < list.len() && crate::topic::topic_matches(topic, (#[trigger] list[m]).0)
                && list[m].1@.contains(sub),
    decreases list.len(),
{
    if list.len() > 0 {
        let init = list.drop_last();
        lemma_matching_in(init, topic, sub);
        let before = matching_in(init, topic);
        let last = if crate::topic::topic_matches(topic, list.last().0) {
            list.last().1@
        } else {
            Seq::empty()
        };
        let all = before + last;
        if all.contains(sub) {
            let i = choose|i: int| 0 <= i < all.len() && all[i] == sub;
            if i < before.len() {
                assert(before[i] == sub);
                let m = choose|m: int|
                    0 <= m < init.len() && crate::topic::topic_matches(topic, (#[trigger] init[m]).0)
                        && init[m].1@.contains(sub);
                assert(list[m] == init[m]);
            } else {
                assert(last[i - before.len()] == sub);
                assert(list[list.len() - 1].1@.contains(sub));
            }
        }
        if exists|m: int|
            0 <= m < list.len() && crate::topic::topic_matches(topic, (#[trigger] list[m]).0)
                && list[m].1@.contains(sub) {
            let m = choose|m: int|
                0 <= m < list.len() && crate::topic::topic_matches(topic, (#[trigger] list[m]).0)
                    && list[m].1@.contains(sub);
            if m < init.len() {
                assert(init[m] == list[m]);
                let i = choose|i: int| 0 <= i < before.len() && before[i] == sub;
                assert(all[i] == sub);
            } else {
                let i = choose|i: int| 0 <= i < last.len() && last[i] == sub;
                assert(all[before.len() + i] == sub);
            }
        }
    }
}

/// Subscribing again with the same client and flow replaces the subscription: a filter never
/// holds two subscriptions of one client on one flow.
pub proof fn law_one_subscription_per_client_and_flow(row: Seq<Subscription>, sub: Subscription)
    requires
        one_per_slot(row),
    ensures
        one_per_slot(put(row, sub)),
{
    let after = put(row, sub);
    let at = slot(row, sub.client_id@, sub.flow_id);
    lemma_slot(row, sub.client_id@, sub.flow_id);
    assert forall|i: int, j: int|
        #![trigger after[i], after[j]]
        0 <= i < j < after.len() implies !same_slot(
        after[i],
        after[j].client_id@,
        after[j].flow_id,
    ) by {
        if at < row.len() {
            if i != at && j != at {
                assert(!same_slot(row[i], row[j].client_id@, row[j].flow_id));
            } else if i == at {
                assert(!same_slot(row[i], row[j].client_id@, row[j].flow_id));
            } else {
                assert(!same_slot(row[i], row[j].client_id@, row[j].flow_id));
            }
        } else if j < row.len() {
            assert(!same_slot(row[i], row[j].client_id@, row[j].flow_id));
        } else {
            assert(!same_slot(row[i], sub.client_id@, sub.flow_id));
        }
    }
}

proof fn lemma_slot(row: Seq<Subscription>, client_id: Seq<char>, flow_id: Option<u64>)
    ensures
        0 <= slot(row, client_id, flow_id) <= row.len(),
        forall|i: int|
            0 <= i < slot(row, client_id, flow_id) ==> !same_slot(
                #[trigger] row[i],
                client_id,
                flow_id,
            ),
        slot(row, client_id, flow_id) < row.len() ==> same_slot(
            row[slot(row, client_id, flow_id)],
            client_id,
            flow_id,
        ),
    decreases row.len(),
{
    if row.len() > 0 && !same_slot(row[0], client_id, flow_id) {
        lemma_slot(row.drop_first(), client_id, flow_id);
        assert forall|i: int| 0 <= i < slot(row, client_id, flow_id) implies !same_slot(
            #[trigger] row[i],
            client_id,
            flow_id,
        ) by {
            if i > 0 {
                assert(row.drop_first()[i - 1] == row[i]);
            }
        }
    }
}

/// After a subscribe the row of the filter holds the subscription, every other client's and every
/// other flow's as before, and none of the same client and flow beside it.
pub proof fn law_subscription_is_in_its_row(
    row: Seq<Subscription>,
    sub: Subscription,
    other: Subscription,
)
    requires
        one_per_slot(row),
        other.client_id@ != sub.client_id@ || other.flow_id != sub.flow_id,
    ensures
        put(row, sub).contains(sub),
        put(row, sub).contains(other) <==> row.contains(other),
        forall|i: int|
            0 <= i < put(row, sub).len() && (#[trigger] put(row, sub)[i]).client_id@
                == sub.client_id@ && put(row, sub)[i].flow_id == sub.flow_id ==> put(row, sub)[i]
                == sub,
        slot(row, sub.client_id@, sub.flow_id) == row.len() <==> !exists|i: int|
            0 <= i < row.len() && (#[trigger] row[i]).client_id@ == sub.client_id@
                && row[i].flow_id == sub.flow_id,
{
    let after = put(row, sub);
    let at = slot(row, sub.client_id@, sub.flow_id);
    lemma_slot(row, sub.client_id@, sub.flow_id);
    if at < row.len() {
        assert(after[at] == sub);
    } else {
        assert(after[row.len() as int] == sub);
    }
    if row.contains(other) {
        let i = choose|i: int| 0 <= i < row.len() && row[i] == other;
        assert(after[i] == other);
    }
    if after.contains(other) {
        let i = choose|i: int| 0 <= i < after.len() && after[i] == other;
        assert(i != at);
        assert(row[i] == other);
    }
    assert forall|i: int|
        0 <= i < after.len() && (#[trigger] after[i]).client_id@ == sub.client_id@
            && after[i].flow_id == sub.flow_id implies after[i] == sub by {
        if i != at && i < row.len() {
            if i < at {
                assert(!same_slot(row[i], sub.client_id@, sub.flow_id));
            } else {
                assert(!same_slot(row[at], row[i].client_id@, row[i].flow_id));
            }
        }
    }
    if at < row.len() {
        assert(row[at].client_id@ == sub.client_id@);
    }
}

/// What is left of a row without a client's subscription on a flow, without a client, or after a
/// removal, are the other subscriptions in their order.
pub proof fn law_removing_leaves_the_others(
    row: Seq<Subscription>,
    client_id: Seq<char>,
    flow_id: Option<u64>,
    removal: Removal,
)
    ensures
        without_slot(row, client_id, flow_id) == row.filter(
            |s: Subscription| s.client_id@ != client_id || s.flow_id != flow_id,
        ),
        without_client(row, client_id) == row.filter(|s: Subscription| s.client_id@ != client_id),
        left(row, removal) == row.filter(
            |s: Subscription|
                !((exists|i: int|
                    0 <= i < removal.clients@.len() && (#[trigger] removal.clients@[i])@
                        == s.client_id@) && (removal.flow is None || removal.flow->0
                    == s.flow_id)),
        ),
    decreases row.len(),
{
    reveal(Seq::filter);
    if row.len() > 0 {
        law_removing_leaves_the_others(row.drop_last(), client_id, flow_id, removal);
    }
}

/// The subscriptions of a client are counted: those of two rows add up, and one counts for its own
/// client alone.
pub proof fn law_subscriptions_of_a_client_add_up(
    a: Seq<Subscription>,
    b: Seq<Subscription>,
    sub: Subscription,
    client_id: Seq<char>,
)
    ensures
        owned_in_row(a + b, client_id) == owned_in_row(a, client_id) + owned_in_row(b, client_id),
        owned_in_row(seq![sub], client_id) == (if sub.client_id@ == client_id {
            1nat
        } else {
            0
        }),
    decreases b.len(),
{
    let one = seq![sub];
    assert(one.drop_last() =~= Seq::<Subscription>::empty());
    assert(owned_in_row(one.drop_last(), client_id) == 0);
    assert(one.last() == sub);
    if b.len() > 0 {
        law_subscriptions_of_a_client_add_up(a, b.drop_last(), sub, client_id);
        assert((a + b).drop_last() =~= a + b.drop_last());
        assert((a + b).last() == b.last());
    } else {
        assert(a + b =~= a);
    }
}

/// The subscriptions of a client over all filters are those of the rows together.
pub proof fn law_subscriptions_over_all_filters_add_up(
    list: Seq<(Seq<char>, Vec<Subscription>)>,
    row: (Seq<char>, Vec<Subscription>),
    client_id: Seq<char>,
)
    ensures
        owned_in(list.push(row), client_id) == owned_in(list, client_id) + owned_in_row(
            row.1@,
            client_id,
        ),
        owned_in(Seq::<(Seq<char>, Vec<Subscription>)>::empty(), client_id) == 0,
{
    assert(list.push(row).drop_last() =~= list);
}

} // verus!
