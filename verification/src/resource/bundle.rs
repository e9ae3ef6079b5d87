//! A named, versioned set of resource references.

use vstd::prelude::*;
use vstd::string::*;

use crate::resource::reference::{ReferenceView, ResourceReference};
use crate::text::same_text;

verus! {

/// One entry of a bundle.
#[derive(Debug)]
pub struct BundleEntry {
    pub name: String,
    pub resource: ResourceReference,
}

/// The resources of `entries` by name; a later entry replaces an earlier
/// one of the same name.
pub open spec fn entries_map(entries: Seq<BundleEntry>) -> Map<Seq<char>, ReferenceView>
    decreases entries.len(),
{
    if entries.len() == 0 {
        Map::empty()
    } else {
        entries_map(entries.drop_last()).insert(entries.last().name@, entries.last().resource@)
    }
}

/// The sum of the sizes of `entries`.
pub open spec fn total_size(entries: Seq<BundleEntry>) -> nat
    decreases entries.len(),
{
    if entries.len() == 0 {
        0
    } else {
        total_size(entries.drop_last()) + entries.last().resource@.size as nat
    }
}

/// The entries of `entries` that are not called `name`, in order.
pub open spec fn without(entries: Seq<BundleEntry>, name: Seq<char>) -> Seq<BundleEntry>
    decreases entries.len(),
{
    if entries.len() == 0 {
        Seq::empty()
    } else if entries.last().name@ == name {
        without(entries.drop_last(), name)
    } else {
        without(entries.drop_last(), name).push(entries.last())
    }
}

/// Dropping the entries called `name` removes `name` from the map, leaves
/// every other name alone and does not add to the total size.
pub proof fn lemma_without(entries: Seq<BundleEntry>, name: Seq<char>)
    ensures
        entries_map(without(entries, name)) == entries_map(entries).remove(name),
        total_size(without(entries, name)) <= total_size(entries),
        entries_map(entries).contains_key(name) ==> total_size(without(entries, name))
            + entries_map(entries)[name].size <= total_size(entries),
    decreases entries.len(),
{
    if entries.len() > 0 {
        let rest = entries.drop_last();
        lemma_without(rest, name);
        if entries.last().name@ == name {
            assert(entries_map(rest).remove(name) =~= entries_map(entries).remove(name));
        } else {
            assert(without(entries, name).drop_last() =~= without(rest, name));
            assert(entries_map(without(entries, name)) =~= entries_map(entries).remove(name));
        }
    } else {
        assert(entries_map(entries).remove(name) =~= Map::<Seq<char>, ReferenceView>::empty());
    }
}

/// The sizes of the first entries do not exceed the sizes of all.
proof fn lemma_total_size_prefix(entries: Seq<BundleEntry>, i: int)
    requires
        0 <= i <= entries.len(),
    ensures
        total_size(entries.subrange(0, i)) <= total_size(entries),
    decreases entries.len() - i,
{
    if i < entries.len() {
        let next = entries.subrange(0, i + 1);
        assert(next.drop_last() =~= entries.subrange(0, i));
        lemma_total_size_prefix(entries, i + 1);
    } else {
        assert(entries.subrange(0, i) =~= entries);
    }
}

/// A set of resources under one identifier and version, with the running
/// total of the sizes of the resources put into it.
#[derive(Debug)]
pub struct ResourceBundle {
    id: String,
    version: u64,
    size: u64,
    resources: Vec<BundleEntry>,
}

/// What a bundle is: its identifier, its version, its recorded size and
/// its resources by name.
pub struct BundleView {
    pub id: Seq<char>,
    pub version: u64,
    pub size: u64,
    pub resources: Map<Seq<char>, ReferenceView>,
}

impl View for ResourceBundle {
    type V = BundleView;

    closed spec fn view(&self) -> BundleView {
        BundleView {
            id: self.id@,
            version: self.version,
            size: self.size,
            resources: entries_map(self.resources@),
        }
    }
}

impl ResourceBundle {
    /// Whether the recorded size covers the resources the bundle holds.
    pub closed spec fn wf(&self) -> bool {
        total_size(self.resources@) <= self.size
    }

    /// An empty bundle.
    pub fn new(id: &str, version: u64) -> (bundle: Self)
        ensures
            bundle.wf(),
            bundle@.id == id@,
            bundle@.version == version,
            bundle@.size == 0,
            bundle@.resources == Map::<Seq<char>, ReferenceView>::empty(),
    {
        ResourceBundle { id: String::from_str(id), version, size: 0, resources: Vec::new() }
    }

    /// The bundle of `entries` with the recorded size `size`, as a stored or
    /// transmitted bundle gives them; none if `size` does not cover the
    /// sizes of the entries.
    pub fn from_parts(id: &str, version: u64, size: u64, entries: Vec<BundleEntry>) -> (bundle:
        Option<Self>)
        ensures
            match bundle {
                Some(bundle) => {
                    &&& total_size(entries@) <= size
                    &&& bundle.wf()
                    &&& bundle@.id == id@
                    &&& bundle@.version == version
                    &&& bundle@.size == size
                    &&& bundle@.resources == entries_map(entries@)
                },
                None => total_size(entries@) > size,
            },
    {
        let mut total: u64 = 0;
        let mut i: usize = 0;
        assert(entries@.subrange(0, 0) =~= Seq::<BundleEntry>::empty());
        while i < entries.len()
            invariant
                i <= entries.len(),
                total == total_size(entries@.subrange(0, i as int)),
                total <= size,
            decreases entries.len() - i,
        {
            let ghost next = entries@.subrange(0, i + 1);
            assert(next.drop_last() =~= entries@.subrange(0, i as int));
            assert(next.last() == entries@[i as int]);
            let added = entries[i].resource.size();
            if added > size - total {
                proof {
                    lemma_total_size_prefix(entries@, i + 1);
                }
                return None;
            }
            total = total + added;
            i += 1;
        }
        assert(entries@.subrange(0, entries@.len() as int) =~= entries@);
        Some(ResourceBundle { id: String::from_str(id), version, size, resources: entries })
    }

    pub fn id(&self) -> (id: &str)
        ensures
            id@ == self@.id,
    {
        self.id.as_str()
    }

    pub fn version(&self) -> (version: u64)
        ensures
            version == self@.version,
    {
        self.version
    }

    /// The sum of the sizes of all resources ever inserted, less those
    /// removed.
    pub fn size(&self) -> (size: u64)
        ensures
            size == self@.size,
    {
        self.size
    }

    /// The entries of the bundle; where a name occurs twice, the later
    /// entry is the bundle's.
    pub fn resources(&self) -> (entries: &Vec<BundleEntry>)
        ensures
            entries_map(entries@) == self@.resources,
    {
        &self.resources
    }

    /// The index of the last entry called `name`.
    fn position(&self, name: &str) -> (at: Option<usize>)
        ensures
            match at {
                Some(i) => i < self.resources@.len() && self.resources@[i as int].name@ == name@
                    && self@.resources.contains_key(name@) && self@.resources[name@] == self.resources@[i as int].resource@,
                None => !self@.resources.contains_key(name@),
            },
    {
        let mut i = self.resources.len();
        assert(self.resources@.subrange(0, i as int) =~= self.resources@);
        while i > 0
            invariant
                i <= self.resources.len(),
                entries_map(self.resources@.subrange(0, i as int)).contains_key(name@)
                    == self@.resources.contains_key(name@),
                self@.resources.contains_key(name@) ==> entries_map(
                    self.resources@.subrange(0, i as int),
                )[name@] == self@.resources[name@],
            decreases i,
        {
            let ghost prefix = self.resources@.subrange(0, i as int);
            assert(prefix.drop_last() =~= self.resources@.subrange(0, i - 1));
            assert(prefix.last() == self.resources@[i - 1]);
            i -= 1;
            if same_text(self.resources[i].name.as_str(), name) {
                return Some(i);
            }
        }
        assert(self.resources@.subrange(0, 0) =~= Seq::<BundleEntry>::empty());
        None
    }

    /// The resource called `name`.
    pub fn get(&self, name: &str) -> (found: Option<&ResourceReference>)
        ensures
            match found {
                Some(resource) => self@.resources.contains_key(name@) && self@.resources[name@] == resource@,
                None => !self@.resources.contains_key(name@),
            },
    {
        match self.position(name) {
            Some(i) => Some(&self.resources[i].resource),
            None => None,
        }
    }

    /// Moves the entries not called `name` out of the bundle, in order.
    fn take_without(&mut self, name: &str) -> (kept: Vec<BundleEntry>)
        ensures
            kept@ == without(old(self).resources@, name@),
            final(self).id == old(self).id,
            final(self).version == old(self).version,
            final(self).size == old(self).size,
            final(self).resources@.len() == 0,
    {
        let mut kept: Vec<BundleEntry> = Vec::new();
        let mut rest: Vec<BundleEntry> = Vec::new();
        std::mem::swap(&mut self.resources, &mut rest);
        let ghost all = rest@;
        // entries leave `rest` from its end, so `kept` is built back to front
        let mut reversed: Vec<BundleEntry> = Vec::new();
        while rest.len() > 0
            invariant
                rest@.len() <= all.len(),
                rest@ == all.subrange(0, rest@.len() as int),
                without(all, name@) == without(rest@, name@) + reversed@.reverse(),
            decreases rest.len(),
        {
            let ghost before = rest@;
            let ghost done = reversed@;
            let entry = rest.pop().unwrap();
            assert(rest@ =~= before.drop_last());
            if !same_text(entry.name.as_str(), name) {
                reversed.push(entry);
                assert(reversed@.reverse() =~= seq![entry] + done.reverse());
                assert(without(before, name@) + done.reverse() =~= without(rest@, name@)
                    + reversed@.reverse());
            }
            assert(rest@ =~= all.subrange(0, rest@.len() as int));
        }
        assert(without(rest@, name@) + reversed@.reverse() =~= reversed@.reverse());
        while reversed.len() > 0
            invariant
                without(all, name@) == kept@ + reversed@.reverse(),
                self.id == old(self).id,
                self.version == old(self).version,
                self.size == old(self).size,
                self.resources@.len() == 0,
            decreases reversed.len(),
        {
            let ghost before = reversed@;
            let ghost done = kept@;
            let entry = reversed.pop().unwrap();
            kept.push(entry);
            assert(before.reverse() =~= seq![entry] + reversed@.reverse());
            assert(done + before.reverse() =~= kept@ + reversed@.reverse());
        }
        assert(kept@ + reversed@.reverse() =~= kept@);
        kept
    }

    /// Puts `resource` under `name`, in place of any resource of that name,
    /// and adds its size to the bundle's.
    pub fn insert(&mut self, name: String, resource: ResourceReference)
        requires
            old(self).wf(),
            old(self)@.size + resource@.size <= u64::MAX,
        ensures
            final(self).wf(),
            final(self)@.resources == old(self)@.resources.insert(name@, resource@),
            final(self)@.size == old(self)@.size + resource@.size,
            final(self)@.id == old(self)@.id,
            final(self)@.version == old(self)@.version,
    {
        proof {
            lemma_without(self.resources@, name@);
        }
        self.size += resource.size();
        let mut kept = self.take_without(name.as_str());
        let ghost inner = kept@;
        kept.push(BundleEntry { name, resource });
        assert(kept@.drop_last() =~= inner);
        self.resources = kept;
        assert(self@.resources =~= old(self)@.resources.insert(name@, resource@));
    }

    /// Takes the resource called `name` out of the bundle and its size off
    /// the bundle's.
    pub fn remove(&mut self, name: &str) -> (removed: Option<ResourceReference>)
        requires
            old(self).wf(),
        ensures
            final(self).wf(),
            final(self)@.id == old(self)@.id,
            final(self)@.version == old(self)@.version,
            match removed {
                Some(resource) => {
                    &&& old(self)@.resources.contains_key(name@)
                    &&& resource@ == old(self)@.resources[name@]
                    &&& final(self)@.resources == old(self)@.resources.remove(name@)
                    &&& final(self)@.size == old(self)@.size - resource@.size
                },
                None => {
                    &&& !old(self)@.resources.contains_key(name@)
                    &&& final(self)@.resources == old(self)@.resources
                    &&& final(self)@.size == old(self)@.size
                },
            },
    {
        proof {
            lemma_without(self.resources@, name@);
        }
        let removed = match self.position(name) {
            Some(i) => self.resources[i].resource.clone(),
            None => {
                assert(old(self)@.resources.remove(name@) =~= old(self)@.resources);
                return None;
            },
        };
        let kept = self.take_without(name);
        self.resources = kept;
        self.size -= removed.size();
        Some(removed)
    }
}

} // verus!
