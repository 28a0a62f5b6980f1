use crate::text::{copy_texts, has_text, lemma_texts_push, texts};
use vstd::prelude::*;

verus! {

/// A destination that takes notifications.
#[derive(Debug)]
pub struct SubscriberEndpoint {
    pub url: String,
}

/// The addresses of a sequence of endpoints, in order.
pub open spec fn urls(v: Seq<SubscriberEndpoint>) -> Seq<Seq<char>> {
    v.map_values(|e: SubscriberEndpoint| e.url@)
}

/// `list` without every occurrence of `url`, the rest in order.
pub open spec fn without(list: Seq<Seq<char>>, url: Seq<char>) -> Seq<Seq<char>>
    decreases list.len(),
{
    if list.len() == 0 {
        list
    } else if list.last() == url {
        without(list.drop_last(), url)
    } else {
        without(list.drop_last(), url).push(list.last())
    }
}

/// The addresses of a list with one more endpoint.
pub proof fn lemma_urls_push(v: Seq<SubscriberEndpoint>, e: SubscriberEndpoint)
    ensures
        urls(v.push(e)) == urls(v).push(e.url@),
{
    assert(urls(v.push(e)) =~= urls(v).push(e.url@));
}

/// `list`, and `url` behind it unless it is in the list already.
pub open spec fn with_one(list: Seq<Seq<char>>, url: Seq<char>) -> Seq<Seq<char>> {
    if list.contains(url) {
        list
    } else {
        list.push(url)
    }
}

/// `list`, and behind it those of `more` that are not yet in it, each once, in order.
pub open spec fn with_all(list: Seq<Seq<char>>, more: Seq<Seq<char>>) -> Seq<Seq<char>>
    decreases more.len(),
{
    if more.len() == 0 {
        list
    } else {
        with_one(with_all(list, more.drop_last()), more.last())
    }
}

/// What the store holds: the ids of the events that were dispatched, and the
/// subscribers' addresses in the order in which they were added.
pub ghost struct StoreView {
    pub event_ids: Set<Seq<char>>,
    pub endpoints: Seq<Seq<char>>,
}

/// One change to the store.
pub ghost enum StoreOp {
    Record(Seq<char>),
    RemoveEndpoint(Seq<char>),
    AddEndpoints(Seq<Seq<char>>),
}

impl StoreOp {
    /// Whether the change may bring in the address `url`.
    pub open spec fn adds(self, url: Seq<char>) -> bool {
        match self {
            StoreOp::AddEndpoints(more) => more.contains(url),
            _ => false,
        }
    }
}

impl StoreView {
    /// The store after the event `id` was recorded.
    pub open spec fn record(self, id: Seq<char>) -> StoreView {
        StoreView { event_ids: self.event_ids.insert(id), endpoints: self.endpoints }
    }

    /// The store after the endpoint at `url` was removed.
    pub open spec fn remove_endpoint(self, url: Seq<char>) -> StoreView {
        StoreView { event_ids: self.event_ids, endpoints: without(self.endpoints, url) }
    }

    /// The store after the endpoints at `more` were added.
    pub open spec fn add_endpoints(self, more: Seq<Seq<char>>) -> StoreView {
        StoreView { event_ids: self.event_ids, endpoints: with_all(self.endpoints, more) }
    }

    /// The store after one change.
    pub open spec fn apply(self, op: StoreOp) -> StoreView {
        match op {
            StoreOp::Record(id) => self.record(id),
            StoreOp::RemoveEndpoint(url) => self.remove_endpoint(url),
            StoreOp::AddEndpoints(more) => self.add_endpoints(more),
        }
    }

    /// The store after a run of changes, the first of them first.
    pub open spec fn apply_all(self, ops: Seq<StoreOp>) -> StoreView
        decreases ops.len(),
    {
        if ops.len() == 0 {
            self
        } else {
            self.apply_all(ops.drop_last()).apply(ops.last())
        }
    }
}

/// A list without `url` does not hold `url`, and holds any other address exactly if
/// the list did.
pub proof fn lemma_without_contains(list: Seq<Seq<char>>, url: Seq<char>, other: Seq<char>)
    ensures
        without(list, url).contains(other) <==> (list.contains(other) && other != url),
    decreases list.len(),
{
    if list.len() > 0 {
        let front = list.drop_last();
        let last = list.last();
        lemma_without_contains(front, url, other);
        if list.contains(other) {
            let i = choose|i: int| 0 <= i < list.len() && list[i] == other;
            if i < front.len() {
                assert(front[i] == other);
            }
        }
        if front.contains(other) {
            let i = choose|i: int| 0 <= i < front.len() && front[i] == other;
            assert(list[i] == other);
        }
        if last != url {
            let kept = without(front, url);
            if kept.push(last).contains(other) {
                let i = choose|i: int| 0 <= i < kept.push(last).len() && kept.push(last)[i] == other;
                if i < kept.len() {
                    assert(kept[i] == other);
                }
            }
            if kept.contains(other) {
                let i = choose|i: int| 0 <= i < kept.len() && kept[i] == other;
                assert(kept.push(last)[i] == other);
            }
            if other == last {
                assert(kept.push(last)[kept.len() as int] == other);
                assert(list[list.len() - 1] == other);
            }
        }
    }
}

/// Taking an address out of a list in which nothing occurs twice leaves such a list.
pub proof fn lemma_without_no_duplicates(list: Seq<Seq<char>>, url: Seq<char>)
    requires
        list.no_duplicates(),
    ensures
        without(list, url).no_duplicates(),
    decreases list.len(),
{
    if list.len() > 0 {
        let front = list.drop_last();
        let last = list.last();
        lemma_without_no_duplicates(front, url);
        if last != url {
            let kept = without(front, url);
            lemma_without_contains(front, url, last);
            assert(!front.contains(last)) by {
                if front.contains(last) {
                    let i = choose|i: int| 0 <= i < front.len() && front[i] == last;
                    assert(list[i] == list[list.len() - 1]);
                }
            }
            assert(!kept.contains(last));
            assert(kept.push(last).no_duplicates()) by {
                assert forall|i: int, j: int|
                    0 <= i < kept.push(last).len() && 0 <= j < kept.push(last).len() && i != j implies kept.push(
                    last,
                )[i] != kept.push(last)[j] by {
                    if i < kept.len() && j < kept.len() {
                    } else if i < kept.len() {
                        assert(kept[i] != last);
                    } else {
                        assert(kept[j] != last);
                    }
                }
            }
        }
    }
}

/// Adding addresses to a list in which nothing occurs twice leaves such a list; it
/// holds what the list held and what was added, and nothing else.
pub proof fn lemma_with_all(list: Seq<Seq<char>>, more: Seq<Seq<char>>)
    requires
        list.no_duplicates(),
    ensures
        with_all(list, more).no_duplicates(),
        forall|u: Seq<char>|
            with_all(list, more).contains(u) <==> (list.contains(u) || more.contains(u)),
    decreases more.len(),
{
    if more.len() > 0 {
        let front = more.drop_last();
        let last = more.last();
        lemma_with_all(list, front);
        let so_far = with_all(list, front);
        let all = with_all(list, more);
        assert(more[more.len() - 1] == last);
        assert forall|u: Seq<char>| all.contains(u) <==> (list.contains(u) || more.contains(u)) by {
            if more.contains(u) {
                let i = choose|i: int| 0 <= i < more.len() && more[i] == u;
                if i < front.len() {
                    assert(front[i] == u);
                }
            }
            if front.contains(u) {
                let i = choose|i: int| 0 <= i < front.len() && front[i] == u;
                assert(more[i] == u);
            }
            if !so_far.contains(last) {
                assert(all == so_far.push(last));
                assert(all[so_far.len() as int] == last);
                if so_far.contains(u) {
                    let i = choose|i: int| 0 <= i < so_far.len() && so_far[i] == u;
                    assert(all[i] == u);
                }
                if all.contains(u) {
                    let i = choose|i: int| 0 <= i < all.len() && all[i] == u;
                    if i < so_far.len() {
                        assert(so_far[i] == u);
                    }
                }
            }
        }
        if !so_far.contains(last) {
            assert forall|i: int, j: int| 0 <= i < all.len() && 0 <= j < all.len() && i != j implies all[i]
                != all[j] by {
                if i < so_far.len() && j < so_far.len() {
                } else if i < so_far.len() {
                    assert(so_far[i] != last);
                } else {
                    assert(so_far[j] != last);
                }
            }
        }
    }
}

/// The durable state: the ids of the events that were dispatched, and the subscriber
/// endpoints. No endpoint is held twice.
#[derive(Debug)]
pub struct Store {
    ids: Vec<String>,
    endpoints: Vec<SubscriberEndpoint>,
}

impl View for Store {
    type V = StoreView;

    closed spec fn view(&self) -> StoreView {
        StoreView { event_ids: texts(self.ids@).to_set(), endpoints: urls(self.endpoints@) }
    }
}

impl Store {
    /// Whether no endpoint is held twice.
    pub open spec fn well_formed(&self) -> bool {
        self@.endpoints.no_duplicates()
    }

    /// A store that holds nothing.
    pub fn new() -> (store: Store)
        ensures
            store.well_formed(),
            store@.event_ids == Set::<Seq<char>>::empty(),
            store@.endpoints == Seq::<Seq<char>>::empty(),
    {
        let store = Store { ids: Vec::new(), endpoints: Vec::new() };
        assert(store@.event_ids =~= Set::<Seq<char>>::empty());
        assert(store@.endpoints =~= Seq::<Seq<char>>::empty());
        store
    }

    /// Tells whether the event `id` was recorded.
    pub fn contains_event_id(&self, id: &str) -> (known: bool)
        ensures
            known == self@.event_ids.contains(id@),
    {
        has_text(&self.ids, id)
    }

    /// Records the event `id` as dispatched. Recording it again changes nothing.
    pub fn record_event_id(&mut self, id: &str)
        requires
            old(self).well_formed(),
        ensures
            final(self).well_formed(),
            final(self)@ == old(self)@.record(id@),
    {
        if !has_text(&self.ids, id) {
            let ghost before = texts(self.ids@);
            let owned = String::from_str(id);
            proof {
                lemma_texts_push(self.ids@, owned);
            }
            self.ids.push(owned);
            proof {
                let after = texts(self.ids@);
                assert(after =~= before.push(id@));
                assert forall|t: Seq<char>| after.to_set().contains(t) <==> before.to_set().insert(
                    id@,
                ).contains(t) by {
                    if before.contains(t) {
                        let i = choose|i: int| 0 <= i < before.len() && before[i] == t;
                        assert(after[i] == t);
                    }
                    if t == id@ {
                        assert(after[before.len() as int] == t);
                    }
                    if after.contains(t) {
                        let i = choose|i: int| 0 <= i < after.len() && after[i] == t;
                        if i < before.len() {
                            assert(before[i] == t);
                        }
                    }
                }
                assert(after.to_set() =~= before.to_set().insert(id@));
            }
        } else {
            assert(self@.event_ids.insert(id@) =~= self@.event_ids);
        }
    }

    /// The ids of all recorded events.
    pub fn event_ids(&self) -> (ids: Vec<String>)
        ensures
            texts(ids@).to_set() == self@.event_ids,
    {
        copy_texts(&self.ids)
    }

    /// The subscriber endpoints, in the order in which they were added.
    pub fn list_endpoints(&self) -> (list: Vec<SubscriberEndpoint>)
        ensures
            urls(list@) == self@.endpoints,
    {
        let mut list: Vec<SubscriberEndpoint> = Vec::new();
        let mut i: usize = 0;
        assert(urls(list@) =~= urls(self.endpoints@.take(0)));
        while i < self.endpoints.len()
            invariant
                i <= self.endpoints.len(),
                urls(list@) == urls(self.endpoints@.take(i as int)),
            decreases self.endpoints.len() - i,
        {
            let endpoint = SubscriberEndpoint { url: self.endpoints[i].url.clone() };
            proof {
                lemma_urls_push(list@, endpoint);
                lemma_urls_push(self.endpoints@.take(i as int), self.endpoints@[i as int]);
                assert(self.endpoints@.take(i as int).push(self.endpoints@[i as int])
                    =~= self.endpoints@.take(i + 1));
            }
            list.push(endpoint);
            i = i + 1;
        }
        assert(self.endpoints@.take(i as int) =~= self.endpoints@);
        list
    }

    /// Tells whether an endpoint at `url` is held.
    pub fn has_endpoint(&self, url: &str) -> (held: bool)
        ensures
            held == self@.endpoints.contains(url@),
    {
        let wanted = String::from_str(url);
        let mut i: usize = 0;
        while i < self.endpoints.len()
            invariant
                i <= self.endpoints.len(),
                wanted@ == url@,
                forall|j: int| 0 <= j < i ==> urls(self.endpoints@)[j] != url@,
            decreases self.endpoints.len() - i,
        {
            if self.endpoints[i].url.eq(&wanted) {
                assert(urls(self.endpoints@)[i as int] == url@);
                return true;
            }
            i = i + 1;
        }
        false
    }

    /// Removes the endpoint at `url`. Where none is held, nothing changes.
    pub fn remove_endpoint(&mut self, url: &str)
        requires
            old(self).well_formed(),
        ensures
            final(self).well_formed(),
            final(self)@ == old(self)@.remove_endpoint(url@),
    {
        let wanted = String::from_str(url);
        let mut kept: Vec<SubscriberEndpoint> = Vec::new();
        let mut i: usize = 0;
        assert(urls(kept@) =~= without(urls(self.endpoints@.take(0)), url@));
        while i < self.endpoints.len()
            invariant
                i <= self.endpoints.len(),
                wanted@ == url@,
                urls(kept@) == without(urls(self.endpoints@.take(i as int)), url@),
            decreases self.endpoints.len() - i,
        {
            proof {
                let before = urls(self.endpoints@.take(i as int));
                let upto = urls(self.endpoints@.take(i + 1));
                lemma_urls_push(self.endpoints@.take(i as int), self.endpoints@[i as int]);
                assert(self.endpoints@.take(i as int).push(self.endpoints@[i as int])
                    =~= self.endpoints@.take(i + 1));
                assert(upto.drop_last() =~= before);
            }
            if !self.endpoints[i].url.eq(&wanted) {
                let endpoint = SubscriberEndpoint { url: self.endpoints[i].url.clone() };
                proof {
                    lemma_urls_push(kept@, endpoint);
                }
                kept.push(endpoint);
            }
            i = i + 1;
        }
        proof {
            assert(self.endpoints@.take(i as int) =~= self.endpoints@);
            lemma_without_no_duplicates(urls(self.endpoints@), url@);
        }
        self.endpoints = kept;
    }

    /// Adds the endpoints at `more`, each once, skipping those that are held already.
    pub fn add_endpoints(&mut self, more: &Vec<String>)
        requires
            old(self).well_formed(),
        ensures
            final(self).well_formed(),
            final(self)@ == old(self)@.add_endpoints(texts(more@)),
    {
        let mut i: usize = 0;
        assert(texts(more@.take(0)) =~= Seq::<Seq<char>>::empty());
        while i < more.len()
            invariant
                i <= more.len(),
                self@.event_ids == old(self)@.event_ids,
                self@.endpoints == with_all(old(self)@.endpoints, texts(more@.take(i as int))),
            decreases more.len() - i,
        {
            proof {
                let front = texts(more@.take(i as int));
                let upto = texts(more@.take(i + 1));
                assert(upto.drop_last() =~= front);
                assert(upto.last() == more@[i as int]@);
            }
            if !self.has_endpoint(more[i].as_str()) {
                let endpoint = SubscriberEndpoint { url: more[i].clone() };
                proof {
                    lemma_urls_push(self.endpoints@, endpoint);
                }
                self.endpoints.push(endpoint);
            }
            i = i + 1;
        }
        proof {
            assert(more@.take(i as int) =~= more@);
            lemma_with_all(old(self)@.endpoints, texts(more@));
        }
    }
}

/// Monotonic dedup: once an event is recorded, the store holds its id after any
/// further changes.
pub proof fn law_recorded_id_stays(store: StoreView, id: Seq<char>, ops: Seq<StoreOp>)
    ensures
        store.record(id).apply_all(ops).event_ids.contains(id),
    decreases ops.len(),
{
    if ops.len() > 0 {
        law_recorded_id_stays(store, id, ops.drop_last());
    }
}

/// No change takes an id out of the store.
pub proof fn law_event_ids_grow(store: StoreView, ops: Seq<StoreOp>, id: Seq<char>)
    requires
        store.event_ids.contains(id),
    ensures
        store.apply_all(ops).event_ids.contains(id),
    decreases ops.len(),
{
    if ops.len() > 0 {
        law_event_ids_grow(store, ops.drop_last(), id);
    }
}

/// Once an endpoint is removed it is not listed again, whatever changes follow,
/// unless one of them adds it anew; the other endpoints stay listed through the removal.
pub proof fn law_removed_endpoint_stays_away(store: StoreView, url: Seq<char>, ops: Seq<StoreOp>)
    requires
        store.endpoints.no_duplicates(),
        forall|i: int| 0 <= i < ops.len() ==> !(#[trigger] ops[i]).adds(url),
    ensures
        !store.remove_endpoint(url).apply_all(ops).endpoints.contains(url),
        forall|other: Seq<char>|
            other != url && store.endpoints.contains(other) ==> store.remove_endpoint(
                url,
            ).endpoints.contains(other),
    decreases ops.len(),
{
    assert forall|other: Seq<char>| other != url && store.endpoints.contains(other) implies store.remove_endpoint(
        url,
    ).endpoints.contains(other) by {
        lemma_without_contains(store.endpoints, url, other);
    }
    if ops.len() == 0 {
        lemma_without_contains(store.endpoints, url, url);
    } else {
        let front = ops.drop_last();
        assert forall|i: int| 0 <= i < front.len() implies !(#[trigger] front[i]).adds(url) by {
            assert(front[i] == ops[i]);
        }
        law_removed_endpoint_stays_away(store, url, front);
        let before = store.remove_endpoint(url).apply_all(front);
        assert(!ops[ops.len() - 1].adds(url));
        match ops.last() {
            StoreOp::Record(id) => {},
            StoreOp::RemoveEndpoint(gone) => {
                lemma_without_contains(before.endpoints, gone, url);
            },
            StoreOp::AddEndpoints(more) => {
                lemma_with_all_keeps_out(before.endpoints, more, url);
            },
        }
    }
}

/// Adding addresses does not bring in one that is neither in the list nor among them.
pub proof fn lemma_with_all_keeps_out(list: Seq<Seq<char>>, more: Seq<Seq<char>>, url: Seq<char>)
    requires
        !list.contains(url),
        !more.contains(url),
    ensures
        !with_all(list, more).contains(url),
    decreases more.len(),
{
    if more.len() > 0 {
        let front = more.drop_last();
        let last = more.last();
        assert(more[more.len() - 1] == last);
        if front.contains(url) {
            let i = choose|i: int| 0 <= i < front.len() && front[i] == url;
            assert(more[i] == url);
        }
        lemma_with_all_keeps_out(list, front, url);
        let so_far = with_all(list, front);
        if !so_far.contains(last) {
            let all = so_far.push(last);
            if all.contains(url) {
                let i = choose|i: int| 0 <= i < all.len() && all[i] == url;
                if i < so_far.len() {
                    assert(so_far[i] == url);
                }
            }
        }
    }
}

} // verus!
