//! The data the remote collection service reports, as plain values: the
//! fan page blob, the paginated collection responses, and the identifier to
//! download-URL map they are merged into.

use vstd::prelude::*;
use crate::util::str_eq;

pub mod digital_item;

verus! {

/// Data about the fan whose page was fetched.
pub struct FanData {
    /// The fan's numeric identity, carried as its decimal digits.
    pub fan_id: String,
    /// Whether the fetched page belongs to the authenticated fan; absent
    /// counts as not owned.
    pub is_own_page: Option<bool>,
}

/// One paginated collection as the landing page declares it.
pub struct CollectionData {
    /// How many items one page carries.
    pub batch_size: Option<u16>,
    /// How many items the collection holds in all.
    pub item_count: Option<u16>,
    /// The continuation token for the page after the initial batch.
    pub last_token: Option<String>,
    /// The initial batch of identifier-to-download-URL entries.
    pub redownload_urls: Option<DownloadsMap>,
}

/// One item as the landing page's item cache lists it.
pub struct Item {
    /// The identifier used in the identifier-to-download-URL map.
    pub sale_item_id: u64,
    /// The kind tag paired with the identifier in that map.
    pub sale_item_type: String,
    /// The band or artist who released the item.
    pub band_name: String,
    /// The item's name.
    pub item_title: String,
}

/// The landing page's cache of collection items, keyed by item identifier.
pub struct ItemCache {
    pub collection: Vec<(String, Item)>,
}

/// The structured blob embedded in a fan's landing page.
pub struct ParsedFanpageData {
    /// Data about the fan the page is for.
    pub fan_data: FanData,
    /// Data about the fan's visible collection.
    pub collection_data: CollectionData,
    /// Data about collection items the fan has hidden.
    pub hidden_data: CollectionData,
    pub item_cache: ItemCache,
}

/// One response of the paginated collection endpoint.
pub struct ParsedCollectionItems {
    /// Whether another page can be fetched after this one.
    pub more_available: bool,
    /// The continuation token the next request must carry.
    pub last_token: String,
    /// This page's batch of identifier-to-download-URL entries.
    pub redownload_urls: DownloadsMap,
    /// This page's batch of item descriptions.
    pub items: Vec<Item>,
}

/// The structured blob embedded in an item's detail page.
pub struct ParsedItemsData {
    pub digital_items: Vec<digital_item::DigitalItem>,
}

/// What [`FanData`] denotes.
pub struct FanDataView {
    pub fan_id: Seq<char>,
    pub is_own_page: Option<bool>,
}

impl View for FanData {
    type V = FanDataView;

    open spec fn view(&self) -> FanDataView {
        FanDataView { fan_id: self.fan_id@, is_own_page: self.is_own_page }
    }
}

/// What [`CollectionData`] denotes.
pub struct CollectionDataView {
    pub batch_size: Option<u16>,
    pub item_count: Option<u16>,
    pub last_token: Option<Seq<char>>,
    pub redownload_urls: Option<Map<Seq<char>, Seq<char>>>,
}

impl View for CollectionData {
    type V = CollectionDataView;

    open spec fn view(&self) -> CollectionDataView {
        CollectionDataView {
            batch_size: self.batch_size,
            item_count: self.item_count,
            last_token: match self.last_token {
                Some(t) => Some(t@),
                None => None,
            },
            redownload_urls: match self.redownload_urls {
                Some(m) => Some(m@),
                None => None,
            },
        }
    }
}

/// What [`Item`] denotes.
pub struct ItemView {
    pub sale_item_id: u64,
    pub sale_item_type: Seq<char>,
    pub band_name: Seq<char>,
    pub item_title: Seq<char>,
}

impl View for Item {
    type V = ItemView;

    open spec fn view(&self) -> ItemView {
        ItemView {
            sale_item_id: self.sale_item_id,
            sale_item_type: self.sale_item_type@,
            band_name: self.band_name@,
            item_title: self.item_title@,
        }
    }
}

impl DeepView for Item {
    type V = ItemView;

    open spec fn deep_view(&self) -> ItemView {
        self.view()
    }
}

impl View for ItemCache {
    type V = Seq<(Seq<char>, ItemView)>;

    open spec fn view(&self) -> Seq<(Seq<char>, ItemView)> {
        self.collection.deep_view()
    }
}

/// What [`ParsedFanpageData`] denotes.
pub struct FanpageView {
    pub fan_data: FanDataView,
    pub collection_data: CollectionDataView,
    pub hidden_data: CollectionDataView,
    pub item_cache: Seq<(Seq<char>, ItemView)>,
}

impl View for ParsedFanpageData {
    type V = FanpageView;

    open spec fn view(&self) -> FanpageView {
        FanpageView {
            fan_data: self.fan_data@,
            collection_data: self.collection_data@,
            hidden_data: self.hidden_data@,
            item_cache: self.item_cache@,
        }
    }
}

/// What [`ParsedCollectionItems`] denotes.
pub struct CollectionPageView {
    pub more_available: bool,
    pub last_token: Seq<char>,
    pub redownload_urls: Map<Seq<char>, Seq<char>>,
    pub items: Seq<ItemView>,
}

impl View for ParsedCollectionItems {
    type V = CollectionPageView;

    open spec fn view(&self) -> CollectionPageView {
        CollectionPageView {
            more_available: self.more_available,
            last_token: self.last_token@,
            redownload_urls: self.redownload_urls@,
            items: self.items.deep_view(),
        }
    }
}

impl View for ParsedItemsData {
    type V = Seq<digital_item::DigitalItemView>;

    open spec fn view(&self) -> Seq<digital_item::DigitalItemView> {
        self.digital_items.deep_view()
    }
}

/// The map a sequence of (identifier, URL) entries builds up, a later entry
/// with the same identifier overwriting an earlier one.
pub open spec fn map_of(entries: Seq<(Seq<char>, Seq<char>)>) -> Map<Seq<char>, Seq<char>>
    decreases entries.len(),
{
    if entries.len() == 0 {
        Map::empty()
    } else {
        map_of(entries.drop_last()).insert(entries.last().0, entries.last().1)
    }
}

/// No two entries share an identifier.
pub open spec fn unique_keys(entries: Seq<(Seq<char>, Seq<char>)>) -> bool {
    forall|i: int, j: int| 0 <= i < j < entries.len() ==> entries[i].0 != entries[j].0
}

/// The identifier-to-download-URL map assembled from the collection pages.
/// Viewed as a map from identifier to URL; entries keep their first-insertion
/// order, and an insert under a present identifier overwrites its URL.
pub struct DownloadsMap {
    entries: Vec<(String, String)>,
}

proof fn lemma_map_of_take_props(entries: Seq<(Seq<char>, Seq<char>)>)
    requires
        unique_keys(entries),
    ensures
        forall|k: Seq<char>|
            map_of(entries).dom().contains(k) <==> exists|i: int|
                0 <= i < entries.len() && #[trigger] entries[i].0 == k,
        forall|i: int|
            0 <= i < entries.len() ==> map_of(entries)[#[trigger] entries[i].0] == entries[i].1,
        map_of(entries).dom().finite(),
        map_of(entries).dom().len() == entries.len(),
    decreases entries.len(),
{
    if entries.len() > 0 {
        let prefix = entries.drop_last();
        assert(unique_keys(prefix)) by {
            assert(forall|i: int, j: int|
                0 <= i < j < prefix.len() ==> prefix[i] == entries[i] && prefix[j] == entries[j]);
        }
        lemma_map_of_take_props(prefix);
        let lastk = entries.last().0;
        assert(forall|i: int| 0 <= i < prefix.len() ==> #[trigger] prefix[i].0 != lastk);
        assert(!map_of(prefix).dom().contains(lastk));
        assert forall|i: int|
            0 <= i < entries.len() implies #[trigger] map_of(entries)[entries[i].0]
            == entries[i].1 by {
            if i < entries.len() - 1 {
                assert(entries[i] == prefix[i]);
                assert(entries[i].0 != lastk);
            }
        }
        assert forall|k: Seq<char>| map_of(entries).dom().contains(k) implies exists|i: int|
            0 <= i < entries.len() && #[trigger] entries[i].0 == k by {
            if k != lastk {
                let w = choose|i: int| 0 <= i < prefix.len() && #[trigger] prefix[i].0 == k;
                assert(entries[w].0 == k);
            } else {
                assert(entries[entries.len() - 1].0 == k);
            }
        }
        assert forall|k: Seq<char>|
            (exists|i: int| 0 <= i < entries.len() && #[trigger] entries[i].0 == k) implies map_of(
            entries,
        ).dom().contains(k) by {
            let i = choose|i: int| 0 <= i < entries.len() && #[trigger] entries[i].0 == k;
            if i < entries.len() - 1 {
                assert(prefix[i].0 == k);
            }
        }
        assert(map_of(entries).dom() =~= map_of(prefix).dom().insert(lastk));
        vstd::set::axiom_set_insert_finite(map_of(prefix).dom(), lastk);
        vstd::set::axiom_set_insert_len(map_of(prefix).dom(), lastk);
    } else {
        assert(map_of(entries).dom() =~= Set::<Seq<char>>::empty());
    }
}

impl DownloadsMap {
    /// The entries as (identifier, URL) pairs, in order.
    pub closed spec fn pairs(&self) -> Seq<(Seq<char>, Seq<char>)> {
        self.entries.deep_view()
    }

    /// The map the entries denote.
    pub closed spec fn view(&self) -> Map<Seq<char>, Seq<char>> {
        map_of(self.pairs())
    }

    /// Well-formed: no identifier occurs twice.
    pub closed spec fn wf(&self) -> bool {
        unique_keys(self.pairs())
    }

    /// The pairs are exactly the map: same length, every pair in the map.
    pub proof fn lemma_pairs(&self)
        requires
            self.wf(),
        ensures
            self@.dom().finite(),
            self@.dom().len() == self.pairs().len(),
            forall|i: int|
                0 <= i < self.pairs().len() ==> self@.contains_pair(
                    #[trigger] self.pairs()[i].0,
                    self.pairs()[i].1,
                ),
            forall|k: Seq<char>|
                self@.dom().contains(k) ==> exists|i: int|
                    0 <= i < self.pairs().len() && #[trigger] self.pairs()[i].0 == k,
            unique_keys(self.pairs()),
    {
        lemma_map_of_take_props(self.pairs());
    }

    /// An empty map.
    pub fn new() -> (m: Self)
        ensures
            m@ == Map::<Seq<char>, Seq<char>>::empty(),
            m.wf(),
            m.pairs() == Seq::<(Seq<char>, Seq<char>)>::empty(),
    {
        let m = DownloadsMap { entries: Vec::new() };
        proof {
            assert(m.pairs() =~= Seq::<(Seq<char>, Seq<char>)>::empty());
        }
        m
    }

    /// How many items the map holds.
    pub fn len(&self) -> (n: usize)
        requires
            self.wf(),
        ensures
            n == self@.dom().len(),
    {
        proof {
            self.lemma_pairs();
        }
        self.entries.len()
    }

    /// The index of the entry with this identifier, if one is there.
    fn index_of(&self, id: &str) -> (r: Option<usize>)
        ensures
            match r {
                Some(i) => i < self.pairs().len() && self.pairs()[i as int].0 == id@,
                None => forall|i: int| 0 <= i < self.pairs().len() ==> self.pairs()[i].0 != id@,
            },
    {
        let mut i: usize = 0;
        while i < self.entries.len()
            invariant
                i <= self.entries.len(),
                forall|j: int| 0 <= j < i ==> self.pairs()[j].0 != id@,
            decreases self.entries.len() - i,
        {
            if str_eq(self.entries[i].0.as_str(), id) {
                return Some(i);
            }
            i += 1;
        }
        None
    }

    /// Whether an item with this identifier is in the map.
    pub fn contains_key(&self, id: &str) -> (r: bool)
        requires
            self.wf(),
        ensures
            r == self@.dom().contains(id@),
    {
        proof {
            self.lemma_pairs();
        }
        match self.index_of(id) {
            Some(_) => true,
            None => {
                proof {
                    if self@.dom().contains(id@) {
                        let w = choose|i: int|
                            0 <= i < self.pairs().len() && #[trigger] self.pairs()[i].0 == id@;
                    }
                }
                false
            },
        }
    }

    /// The download URL recorded for this identifier.
    pub fn get(&self, id: &str) -> (r: Option<&String>)
        requires
            self.wf(),
        ensures
            match r {
                Some(url) => self@.dom().contains(id@) && self@[id@] == url@,
                None => !self@.dom().contains(id@),
            },
    {
        proof {
            self.lemma_pairs();
        }
        match self.index_of(id) {
            Some(i) => {
                let url = &self.entries[i].1;
                proof {
                    assert(self.pairs()[i as int] == (self.entries@[i as int].0@, url@));
                }
                Some(url)
            },
            None => {
                proof {
                    if self@.dom().contains(id@) {
                        let w = choose|i: int|
                            0 <= i < self.pairs().len() && #[trigger] self.pairs()[i].0 == id@;
                    }
                }
                None
            },
        }
    }

    /// Records a download URL under an identifier: a fresh identifier extends
    /// the map, a present one has its URL overwritten.
    pub fn insert(&mut self, id: String, url: String)
        requires
            old(self).wf(),
        ensures
            final(self).wf(),
            final(self)@ == old(self)@.insert(id@, url@),
    {
        proof {
            self.lemma_pairs();
        }
        let found = self.index_of(id.as_str());
        match found {
            Some(i) => {
                let ghost oldpairs = self.pairs();
                self.entries.set(i, (id, url));
                proof {
                    assert(self.pairs() =~= oldpairs.update(i as int, (id@, url@)));
                    lemma_map_of_update(oldpairs, i as int, id@, url@);
                }
            },
            None => {
                let ghost oldpairs = self.pairs();
                self.entries.push((id, url));
                proof {
                    assert(self.pairs() =~= oldpairs.push((id@, url@)));
                    assert(self.pairs().drop_last() =~= oldpairs);
                    assert(forall|i: int|
                        0 <= i < oldpairs.len() ==> self.pairs()[i] == oldpairs[i]);
                }
            },
        }
    }

    /// Merges another map into this one: every entry of the other is
    /// recorded here, overwriting any entry this map already had under the
    /// same identifier.
    pub fn extend(&mut self, other: &DownloadsMap)
        requires
            old(self).wf(),
            other.wf(),
        ensures
            final(self).wf(),
            final(self)@ == old(self)@.union_prefer_right(other@),
    {
        let n = other.entries.len();
        let mut i: usize = 0;
        proof {
            assert(map_of(other.pairs().take(0)) =~= Map::<Seq<char>, Seq<char>>::empty());
            assert(self@ =~= old(self)@.union_prefer_right(map_of(other.pairs().take(0))));
        }
        while i < n
            invariant
                i <= n,
                n == other.pairs().len(),
                other.wf(),
                self.wf(),
                self@ == old(self)@.union_prefer_right(map_of(other.pairs().take(i as int))),
            decreases n - i,
        {
            let pair = &other.entries[i];
            let id = pair.0.clone();
            let url = pair.1.clone();
            proof {
                assert(other.pairs()[i as int] == (id@, url@));
            }
            self.insert(id, url);
            proof {
                assert(other.pairs().take(i + 1).drop_last() =~= other.pairs().take(i as int));
                assert(map_of(other.pairs().take(i + 1)) == map_of(
                    other.pairs().take(i as int),
                ).insert(other.pairs()[i as int].0, other.pairs()[i as int].1));
                assert(self@ =~= old(self)@.union_prefer_right(
                    map_of(other.pairs().take(i + 1)),
                ));
            }
            i += 1;
        }
        proof {
            assert(other.pairs().take(n as int) =~= other.pairs());
        }
    }

    /// A copy holding the same entries.
    pub fn duplicate(&self) -> (r: Self)
        ensures
            r.pairs() == self.pairs(),
            r@ == self@,
            r.wf() == self.wf(),
    {
        let mut entries: Vec<(String, String)> = Vec::new();
        let n = self.entries.len();
        let mut i: usize = 0;
        while i < n
            invariant
                i <= n,
                n == self.entries.len(),
                entries.deep_view() =~~= self.pairs().take(i as int),
            decreases n - i,
        {
            let pair = &self.entries[i];
            proof {
                assert(self.pairs()[i as int] == (pair.0@, pair.1@));
            }
            entries.push((pair.0.clone(), pair.1.clone()));
            proof {
                assert(entries.deep_view() =~~= self.pairs().take(i + 1));
            }
            i += 1;
        }
        let r = DownloadsMap { entries };
        proof {
            assert(self.pairs().take(n as int) =~= self.pairs());
            assert(r.pairs() =~~= self.pairs());
        }
        r
    }

    /// Hands the entries out as a vector of (identifier, URL) pairs, each
    /// identifier once, together exactly the map's content.
    pub fn into_pairs(self) -> (r: Vec<(String, String)>)
        requires
            self.wf(),
        ensures
            r.deep_view() == self.pairs(),
            unique_keys(r.deep_view()),
            r.deep_view().len() == self@.dom().len(),
            forall|i: int|
                0 <= i < r.deep_view().len() ==> self@.contains_pair(
                    #[trigger] r.deep_view()[i].0,
                    r.deep_view()[i].1,
                ),
    {
        proof {
            self.lemma_pairs();
        }
        self.entries
    }
}

proof fn lemma_map_of_update(entries: Seq<(Seq<char>, Seq<char>)>, i: int, k: Seq<char>, v: Seq<char>)
    requires
        unique_keys(entries),
        0 <= i < entries.len(),
        entries[i].0 == k,
    ensures
        map_of(entries.update(i, (k, v))) == map_of(entries).insert(k, v),
        unique_keys(entries.update(i, (k, v))),
    decreases entries.len(),
{
    let updated = entries.update(i, (k, v));
    assert(unique_keys(updated)) by {
        assert(forall|j: int| 0 <= j < entries.len() ==> updated[j].0 == entries[j].0);
    }
    if i == entries.len() - 1 {
        assert(updated.drop_last() =~= entries.drop_last());
        assert(map_of(updated) == map_of(entries.drop_last()).insert(k, v));
        assert(map_of(entries.drop_last()).insert(k, entries.last().1).insert(k, v)
            =~= map_of(entries.drop_last()).insert(k, v));
    } else {
        let prefix = entries.drop_last();
        assert(unique_keys(prefix)) by {
            assert(forall|j: int| 0 <= j < prefix.len() ==> prefix[j] == entries[j]);
        }
        assert(prefix[i].0 == k);
        lemma_map_of_update(prefix, i, k, v);
        let (lk, lv) = entries.last();
        assert(lk != k);
        assert(updated.drop_last() =~= prefix.update(i, (k, v)));
        assert(updated.last() == (lk, lv));
        assert(map_of(updated) == map_of(prefix).insert(k, v).insert(lk, lv));
        assert(map_of(prefix).insert(k, v).insert(lk, lv) =~= map_of(prefix).insert(
            lk,
            lv,
        ).insert(k, v));
    }
}

} // verus!
