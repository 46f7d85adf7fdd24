//! The poster: every element that is to be drawn, under the id by which the
//! template refers to it.

use crate::cachable::{spec_plan, CachablePNG, Resolution};
use crate::datagram::Datagram;
use crate::histogram::Histogram;
use vstd::prelude::*;

verus! {

/// One element of the poster: a bit grid or a histogram.
#[derive(Debug)]
pub enum Element {
    Datagram(Datagram),
    Histogram(Histogram),
}

impl Element {
    /// The place of the element's image in the cache.
    pub open spec fn spec_cache_path(&self) -> Seq<char> {
        match self {
            Element::Datagram(d) => d@.cache_path(),
            Element::Histogram(h) => h@.cache_path(),
        }
    }

    /// The fingerprint of the element.
    pub open spec fn spec_fingerprint(&self) -> u64 {
        match self {
            Element::Datagram(d) => d@.fingerprint(),
            Element::Histogram(h) => h@.fingerprint(),
        }
    }

    /// The fingerprint of the element.
    pub fn fingerprint(&self) -> (fp: u64)
        ensures
            fp == self.spec_fingerprint(),
    {
        match self {
            Element::Datagram(d) => d.fingerprint(),
            Element::Histogram(h) => h.fingerprint(),
        }
    }

    /// The place of the element's image in the cache.
    pub fn cache_path(&self) -> (path: String)
        ensures
            path@ == self.spec_cache_path(),
    {
        match self {
            Element::Datagram(d) => d.cache_path(),
            Element::Histogram(h) => h.cache_path(),
        }
    }

    /// Resolves the element to the place of its image: `present` says
    /// whether a file exists at the cache path, and the step that comes
    /// back whether the image is there or has to be rendered first.
    pub fn png_cached(&self, present: bool) -> (resolution: Resolution)
        ensures
            resolution.path@ == self.spec_cache_path(),
            resolution.step == spec_plan(present, false),
    {
        match self {
            Element::Datagram(d) => d.png_cached(present),
            Element::Histogram(h) => h.png_cached(present),
        }
    }
}

/// An element with the id under which it stands.
#[derive(Debug)]
pub struct Entry {
    pub id: String,
    pub element: Element,
}

/// The elements of a poster by id. Elements are added and never taken out;
/// an element that is added under an id in use takes the place of the one
/// that was there.
#[derive(Debug)]
pub struct Registry {
    entries: Vec<Entry>,
}

/// No id stands twice among `entries`.
pub open spec fn distinct_ids(entries: Seq<Entry>) -> bool {
    forall|i: int, j: int|
        0 <= i < j < entries.len() ==> (#[trigger] entries[i]).id@ != (#[trigger] entries[j]).id@
}

/// The ids of `entries`, in their order.
pub open spec fn ids_of(entries: Seq<Entry>) -> Seq<Seq<char>> {
    Seq::new(entries.len(), |i: int| entries[i].id@)
}

/// Among entries with distinct ids, an id is found at its own place.
pub proof fn lemma_id_found_at_its_place(entries: Seq<Entry>, i: int)
    requires
        distinct_ids(entries),
        0 <= i < entries.len(),
    ensures
        ids_of(entries).contains(entries[i].id@),
        ids_of(entries).index_of(entries[i].id@) == i,
{
    let ids = ids_of(entries);
    assert(ids[i] == entries[i].id@);
    let k = ids.index_of(entries[i].id@);
    assert(0 <= k < ids.len() && ids[k] == entries[i].id@);
    if k < i {
        assert(entries[k].id@ != entries[i].id@);
    } else if i < k {
        assert(entries[i].id@ != entries[k].id@);
    }
}

impl Registry {
    /// No id stands twice.
    pub closed spec fn wf(&self) -> bool {
        distinct_ids(self.entries@)
    }

    /// The ids in the order in which they were first added.
    pub closed spec fn spec_ids(&self) -> Seq<Seq<char>> {
        ids_of(self.entries@)
    }

    /// The element at a place of `spec_ids`.
    pub closed spec fn spec_item(&self, i: int) -> Element {
        self.entries@[i].element
    }

    /// Whether an element stands under `id`.
    pub open spec fn has(&self, id: Seq<char>) -> bool {
        self.spec_ids().contains(id)
    }

    /// The element under `id`.
    pub open spec fn element(&self, id: Seq<char>) -> Element {
        self.spec_item(self.spec_ids().index_of(id))
    }

    /// The registry as a map from ids to elements.
    pub open spec fn view(&self) -> Map<Seq<char>, Element> {
        Map::new(|id: Seq<char>| self.has(id), |id: Seq<char>| self.element(id))
    }

    /// A registry without elements.
    pub fn new() -> (registry: Registry)
        ensures
            registry.wf(),
            registry@ == Map::<Seq<char>, Element>::empty(),
            registry.spec_ids().len() == 0,
    {
        let registry = Registry { entries: Vec::new() };
        assert(registry@ =~= Map::<Seq<char>, Element>::empty());
        registry
    }

    /// The place of `id` among the ids, if it is there.
    fn position(&self, id: &String) -> (place: Option<usize>)
        requires
            self.wf(),
        ensures
            match place {
                Some(i) => i < self.entries@.len() && self.entries@[i as int].id@ == id@
                    && self.spec_ids().index_of(id@) == i && self.has(id@),
                None => !self.has(id@),
            },
    {
        let n: usize = self.entries.len();
        let mut i: usize = 0;
        while i < n
            invariant
                self.wf(),
                n == self.entries@.len(),
                i <= n,
                forall|j: int| 0 <= j < i ==> self.spec_ids()[j] != id@,
            decreases n - i,
        {
            if self.entries[i].id == *id {
                proof {
                    lemma_id_found_at_its_place(self.entries@, i as int);
                }
                return Some(i);
            }
            i = i + 1;
        }
        None
    }

    /// Whether an element stands under `id`.
    pub fn contains_key(&self, id: &String) -> (found: bool)
        requires
            self.wf(),
        ensures
            found == self@.dom().contains(id@),
    {
        self.position(id).is_some()
    }

    /// The element under `id`, if there is one.
    pub fn get(&self, id: &String) -> (element: Option<&Element>)
        requires
            self.wf(),
        ensures
            match element {
                Some(element) => self@.dom().contains(id@) && *element == self@[id@],
                None => !self@.dom().contains(id@),
            },
    {
        match self.position(id) {
            Some(i) => Some(&self.entries[i].element),
            None => None,
        }
    }

    /// Puts `element` under `id`, in place of what stood there.
    pub fn insert(&mut self, id: String, element: Element)
        requires
            old(self).wf(),
        ensures
            final(self).wf(),
            final(self)@ == old(self)@.insert(id@, element),
            old(self).has(id@) ==> final(self).spec_ids() == old(self).spec_ids(),
            !old(self).has(id@) ==> final(self).spec_ids() == old(self).spec_ids().push(id@),
    {
        let ghost before = self.entries@;
        let ghost key = id@;
        match self.position(&id) {
            Some(i) => {
                self.entries.set(i, Entry { id, element });
                proof {
                    let after = self.entries@;
                    assert(ids_of(after) =~= ids_of(before));
                    assert forall|k: Seq<char>| self.has(k) implies #[trigger] self.element(k) == (
                    if k == key {
                        element
                    } else {
                        old(self).element(k)
                    }) by {
                        let j = ids_of(before).index_of(k);
                        assert(ids_of(before)[j] == k);
                        lemma_id_found_at_its_place(before, j);
                        lemma_id_found_at_its_place(before, i as int);
                    }
                    assert(self@ =~= old(self)@.insert(key, element));
                }
            },
            None => {
                self.entries.push(Entry { id, element });
                proof {
                    let after = self.entries@;
                    let n = before.len() as int;
                    assert(ids_of(after) =~= ids_of(before).push(key));
                    assert forall|i: int, j: int| 0 <= i < j < after.len() implies (
                    #[trigger] after[i]).id@ != (#[trigger] after[j]).id@ by {
                        if j == n {
                            assert(ids_of(before)[i] == before[i].id@);
                        } else {
                            assert(before[i].id@ != before[j].id@);
                        }
                    }
                    lemma_id_found_at_its_place(after, n);
                    assert forall|k: Seq<char>| old(self).has(k) implies self.has(k)
                        && #[trigger] self.element(k) == old(self).element(k) by {
                        let j = ids_of(before).index_of(k);
                        assert(ids_of(before)[j] == k);
                        assert(ids_of(after)[j] == k);
                        lemma_id_found_at_its_place(after, j);
                    }
                    assert forall|k: Seq<char>| self.has(k) && k != key implies old(self).has(
                        k,
                    ) by {
                        let j = ids_of(after).index_of(k);
                        assert(ids_of(after)[j] == k);
                        assert(ids_of(before)[j] == k);
                    }
                    assert forall|k: Seq<char>| #[trigger] old(self).has(k) implies self.has(
                        k,
                    ) by {
                        let j = ids_of(before).index_of(k);
                        assert(ids_of(before)[j] == k);
                        assert(ids_of(after)[j] == k);
                    }
                    assert(after[n].id@ == key);
                    assert(self@ =~= old(self)@.insert(key, element));
                }
            },
        }
    }

    /// The number of elements.
    pub fn len(&self) -> (n: usize)
        ensures
            n == self.spec_ids().len(),
    {
        self.entries.len()
    }

    /// The id at a place of the order in which the ids were first added.
    pub fn id_at(&self, i: usize) -> (id: &String)
        requires
            i < self.spec_ids().len(),
        ensures
            id@ == self.spec_ids()[i as int],
            self@.dom().contains(id@),
    {
        assert(self.spec_ids().contains(self.spec_ids()[i as int]));
        &self.entries[i].id
    }
}

/// A poster of a given size with its elements.
#[derive(Debug)]
pub struct Plakat {
    pub width_pixels: u32,
    pub height_pixels: u32,
    pub total_amount_of_packets: u64,
    pub elements: Registry,
    pub template_path: String,
}

impl Plakat {
    /// A poster of `w` by `h` pixels without elements, for the template
    /// `./template.svg`.
    pub fn new(w: u32, h: u32) -> (plakat: Plakat)
        ensures
            plakat.width_pixels == w,
            plakat.height_pixels == h,
            plakat.total_amount_of_packets == 0,
            plakat.elements.wf(),
            plakat.elements@ == Map::<Seq<char>, Element>::empty(),
            plakat.elements.spec_ids().len() == 0,
            plakat.template_path@ == "./template.svg"@,
    {
        Plakat {
            width_pixels: w,
            height_pixels: h,
            total_amount_of_packets: 0,
            elements: Registry::new(),
            template_path: String::from_str("./template.svg"),
        }
    }
}

} // verus!
