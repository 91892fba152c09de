//! The state of one build: the packages, the build items, and the graph of
//! their dependencies.
//!
//! Items say what they depend on by package and class, not by handle, so an
//! item may depend on items that are registered after it. The names are
//! turned into edges in one pass, once every item is registered.

use crate::config::{Package, PackageQuery};
use crate::dependencies::{is_dependency_order, DependencyGraph, Id};
use crate::item::{
    declaration_views, found_ids, lemma_matching_contains, matching, BuildClass,
    BuildDependencyContext,
    BuildItem, BuildItems, Declaration, DeclarationView, Direction, EntryView, NullBuildItem,
};
use vstd::prelude::*;

verus! {

/// The edges that the declaration `d` of the item `id` stands for: one
/// between `id` and each entry of the package and class that `d` names, from
/// `id` to the entry if `id` depends on it, and from the entry to `id` if
/// the entry depends on `id`.
pub open spec fn edges_of(entries: Seq<EntryView>, id: u64, d: DeclarationView) -> Set<(u64, u64)> {
    Set::new(
        |e: (u64, u64)|
            match d.direction {
                Direction::DependsOn => e.0 == id && matching(entries, d.package, d.class).contains(
                    e.1,
                ),
                Direction::RequiredBy => e.1 == id && matching(
                    entries,
                    d.package,
                    d.class,
                ).contains(e.0),
            },
    )
}

/// The edges that the declarations `list` of the item `id` stand for.
pub open spec fn edges_of_all(entries: Seq<EntryView>, id: u64, list: Seq<DeclarationView>) -> Set<
    (u64, u64),
> {
    Set::new(
        |e: (u64, u64)| exists|k: int| 0 <= k < list.len() && #[trigger] edges_of(entries, id, list[k]).contains(e),
    )
}

/// The edges that the declarations of the first items stand for, where
/// `declared` holds what the first item declared, what the second item
/// declared, and so on.
pub open spec fn edges_of_items(entries: Seq<EntryView>, declared: Seq<Seq<DeclarationView>>) -> Set<
    (u64, u64),
> {
    Set::new(
        |e: (u64, u64)|
            exists|i: int|
                0 <= i < declared.len() && i < entries.len() && #[trigger] edges_of_all(
                    entries,
                    entries[i].id,
                    declared[i],
                ).contains(e),
    )
}

/// Whether `id` is the handle of an entry.
pub open spec fn is_item(entries: Seq<EntryView>, id: u64) -> bool {
    exists|i: int| 0 <= i < entries.len() && (#[trigger] entries[i]).id == id
}

/// A declaration that names no entry stands for no edge.
pub proof fn lemma_no_match_no_edge(entries: Seq<EntryView>, id: u64, d: DeclarationView)
    requires
        matching(entries, d.package, d.class).len() == 0,
    ensures
        edges_of(entries, id, d) == Set::<(u64, u64)>::empty(),
        edges_of_all(entries, id, seq![d]) == Set::<(u64, u64)>::empty(),
{
    assert(edges_of(entries, id, d) =~= Set::<(u64, u64)>::empty());
    assert(edges_of_all(entries, id, seq![d]) =~= Set::<(u64, u64)>::empty());
}

/// An item that declared that it depends on a package and class has an edge
/// to every entry of that package and class, wherever the entry stands.
pub proof fn lemma_declared_dependency_is_edge(
    entries: Seq<EntryView>,
    id: u64,
    list: Seq<DeclarationView>,
    k: int,
    at: int,
)
    requires
        0 <= k < list.len(),
        list[k].direction == Direction::DependsOn,
        0 <= at < entries.len(),
        entries[at].is_of(list[k].package, list[k].class),
    ensures
        edges_of_all(entries, id, list).contains((id, entries[at].id)),
{
    lemma_matching_contains(entries, list[k].package, list[k].class, entries[at].id);
    assert(edges_of(entries, id, list[k]).contains((id, entries[at].id)));
}

/// In an order of dependencies, what a vertex of the order depends on stands
/// before the vertex.
pub proof fn lemma_dependency_comes_first(
    edges: Set<(u64, u64)>,
    root: u64,
    order: Seq<u64>,
    item: u64,
    dependency: u64,
)
    requires
        is_dependency_order(edges, root, order),
        order.contains(item),
        edges.contains((item, dependency)),
    ensures
        exists|i: int, j: int|
            0 <= j < i < order.len() && order[i] == item && order[j] == dependency,
{
    let i = choose|i: int| 0 <= i < order.len() && order[i] == item;
    assert(edges.contains((order[i], dependency)));
    let j = choose|j: int| 0 <= j < i && order[j] == dependency;
    assert(0 <= j < i < order.len() && order[i] == item && order[j] == dependency);
}

/// An item may depend on an item that is registered after it: once the
/// declaration "depends on package and class" of the item `id` is wired,
/// every entry of that package and class stands before `id` in every order
/// of the dependencies of `id`, wherever the entry stands in the registry.
pub proof fn lemma_forward_reference(
    entries: Seq<EntryView>,
    before: Set<(u64, u64)>,
    id: u64,
    list: Seq<DeclarationView>,
    k: int,
    at: int,
    order: Seq<u64>,
)
    requires
        0 <= k < list.len(),
        list[k].direction == Direction::DependsOn,
        0 <= at < entries.len(),
        entries[at].is_of(list[k].package, list[k].class),
        is_dependency_order(before.union(edges_of_all(entries, id, list)), id, order),
    ensures
        exists|i: int, j: int|
            0 <= j < i < order.len() && order[i] == id && order[j] == entries[at].id,
{
    let edges = before.union(edges_of_all(entries, id, list));
    lemma_declared_dependency_is_edge(entries, id, list, k, at);
    crate::dependencies::lemma_reaches_step(edges, id, id);
    assert(order.contains(id));
    lemma_dependency_comes_first(edges, id, order, id, entries[at].id);
}

/// The state of one build.
pub struct Context {
    pub packages: Vec<Package>,
    pub dependency_graph: DependencyGraph,
    pub build_items: BuildItems,
}

impl Context {
    /// The invariant of a build: graph and registry are in order, and every
    /// registered item has a handle of the graph.
    pub open spec fn wf(&self) -> bool {
        &&& self.dependency_graph.wf()
        &&& self.build_items.wf()
        &&& forall|i: int|
            0 <= i < self.build_items@.len() ==> self.dependency_graph@.has(
                (#[trigger] self.build_items@[i]).id,
            )
    }

    /// A build without packages and items.
    pub fn new() -> (context: Self)
        ensures
            context.wf(),
            context.packages@.len() == 0,
            context.build_items@.len() == 0,
            context.dependency_graph@.count == 0,
            context.dependency_graph@.edges == Set::<(u64, u64)>::empty(),
    {
        Context {
            packages: Vec::new(),
            dependency_graph: DependencyGraph::new(),
            build_items: BuildItems::new(),
        }
    }

    /// The first package that answers `query`.
    pub fn query_package(&self, query: &PackageQuery) -> (found: Option<&Package>)
        ensures
            match found {
                Some(package) => exists|i: int|
                    0 <= i < self.packages@.len() && package == #[trigger] self.packages@[i]
                        && query.admits(self.packages@[i]@) && forall|j: int|
                        0 <= j < i ==> !query.admits((#[trigger] self.packages@[j])@),
                None => forall|j: int|
                    0 <= j < self.packages@.len() ==> !query.admits((#[trigger] self.packages@[j])@),
            },
    {
        let mut i: usize = 0;
        while i < self.packages.len()
            invariant
                i <= self.packages.len(),
                forall|j: int| 0 <= j < i ==> !query.admits((#[trigger] self.packages@[j])@),
            decreases self.packages.len() - i,
        {
            if query.matches(&self.packages[i]) {
                return Some(&self.packages[i]);
            }
            i = i + 1;
        }
        None
    }

    /// Registers `b` as an item of `package` and returns its handle, which is
    /// new. The item gets a vertex without edges.
    pub fn register_build_item<B: BuildItem + 'static>(&mut self, package: &Package, b: B) -> (id:
        Id)
        requires
            old(self).wf(),
            old(self).dependency_graph@.count < u64::MAX,
        ensures
            final(self).wf(),
            final(self).packages == old(self).packages,
            id@ == old(self).dependency_graph@.count,
            final(self).dependency_graph@.count == old(self).dependency_graph@.count + 1,
            final(self).dependency_graph@.edges == old(self).dependency_graph@.edges,
            final(self).build_items@.len() == old(self).build_items@.len() + 1,
            final(self).build_items@.drop_last() == old(self).build_items@,
            final(self).build_items@.last().id == id@,
            final(self).build_items@.last().package == package@,
    {
        let id = self.dependency_graph.register();
        let boxed: Box<dyn BuildItem> = Box::new(b);
        self.build_items.register_build_item(id, package, boxed);
        proof {
            assert forall|i: int| 0 <= i < self.build_items@.len() implies self.dependency_graph@.has(
                (#[trigger] self.build_items@[i]).id,
            ) by {
                if i < old(self).build_items@.len() {
                    assert(self.build_items@[i] == self.build_items@.drop_last()[i]);
                    assert(old(self).dependency_graph@.has(old(self).build_items@[i].id));
                }
            }
        }
        id
    }

    /// Registers the placeholder `item` as an item of `package` and returns
    /// its handle, which is new. The entry has the class of the placeholder.
    pub fn register_placeholder(&mut self, package: &Package, item: NullBuildItem) -> (id: Id)
        requires
            old(self).wf(),
            old(self).dependency_graph@.count < u64::MAX,
        ensures
            final(self).wf(),
            final(self).packages == old(self).packages,
            id@ == old(self).dependency_graph@.count,
            final(self).dependency_graph@.count == old(self).dependency_graph@.count + 1,
            final(self).dependency_graph@.edges == old(self).dependency_graph@.edges,
            final(self).build_items@ == old(self).build_items@.push(
                EntryView { id: id@, package: package@, class: item@.class },
            ),
    {
        let id = self.dependency_graph.register();
        self.build_items.register_placeholder(id, package, item);
        proof {
            assert forall|i: int| 0 <= i < self.build_items@.len() implies self.dependency_graph@.has(
                (#[trigger] self.build_items@[i]).id,
            ) by {
                if i < old(self).build_items@.len() {
                    assert(self.build_items@[i] == old(self).build_items@[i]);
                    assert(old(self).dependency_graph@.has(old(self).build_items@[i].id));
                }
            }
        }
        id
    }

    /// Turns what the item `id` declared into edges.
    ///
    /// Each declaration is looked up among the items registered now. It
    /// gives an edge for each item of the package and class that it names,
    /// and none, which is no fault, where there is no such item.
    pub fn wire(&mut self, id: Id, declared: &Vec<Declaration>)
        requires
            old(self).wf(),
            old(self).dependency_graph@.has(id@),
        ensures
            final(self).wf(),
            final(self).packages == old(self).packages,
            final(self).build_items@ == old(self).build_items@,
            final(self).dependency_graph@.count == old(self).dependency_graph@.count,
            final(self).dependency_graph@.edges == old(self).dependency_graph@.edges.union(
                edges_of_all(old(self).build_items@, id@, declaration_views(declared@)),
            ),
    {
        let ghost entries = self.build_items@;
        let ghost list = declaration_views(declared@);
        let ghost start = self.dependency_graph@.edges;
        let mut k: usize = 0;
        assert(self.dependency_graph@.edges =~= start.union(
            edges_of_all(entries, id@, list.take(0)),
        ));
        while k < declared.len()
            invariant
                self.wf(),
                self.packages == old(self).packages,
                self.build_items@ == entries,
                self.dependency_graph@.count == old(self).dependency_graph@.count,
                self.dependency_graph@.has(id@),
                list == declaration_views(declared@),
                k <= declared.len(),
                self.dependency_graph@.edges == start.union(
                    edges_of_all(entries, id@, list.take(k as int)),
                ),
            decreases declared.len() - k,
        {
            let d = &declared[k];
            assert(list[k as int] == d@);
            let found = self.build_items.dependencies_matching(&d.package, d.class);
            let ghost ids = matching(entries, d@.package, d@.class);
            let ghost base = self.dependency_graph@.edges;
            let mut m: usize = 0;
            while m < found.len()
                invariant
                    self.wf(),
                    self.packages == old(self).packages,
                    self.build_items@ == entries,
                    self.dependency_graph@.count == old(self).dependency_graph@.count,
                    self.dependency_graph@.has(id@),
                    m <= found.len(),
                    found_ids(found@) == ids,
                    ids == matching(entries, d@.package, d@.class),
                    forall|e: (u64, u64)|
                        #[trigger] self.dependency_graph@.edges.contains(e) <==> base.contains(e)
                            || (exists|j: int|
                            0 <= j < m && e == match d@.direction {
                                Direction::DependsOn => (id@, #[trigger] ids[j]),
                                Direction::RequiredBy => (ids[j], id@),
                            }),
                decreases found.len() - m,
            {
                let other = found[m].0;
                assert(found_ids(found@)[m as int] == other@);
                proof {
                    assert(ids.contains(other@));
                    lemma_matching_contains(entries, d@.package, d@.class, other@);
                    let i = choose|i: int|
                        0 <= i < entries.len() && (#[trigger] entries[i]).id == other@
                            && entries[i].is_of(d@.package, d@.class);
                    assert(self.dependency_graph@.has(self.build_items@[i].id));
                }
                let ghost before = self.dependency_graph@.edges;
                match d.direction {
                    Direction::DependsOn => {
                        self.dependency_graph.link(id, other);
                    },
                    Direction::RequiredBy => {
                        self.dependency_graph.link(other, id);
                    },
                }
                proof {
                    let added = match d@.direction {
                        Direction::DependsOn => (id@, ids[m as int]),
                        Direction::RequiredBy => (ids[m as int], id@),
                    };
                    assert(self.dependency_graph@.edges == before.insert(added));
                    assert forall|e: (u64, u64)| #[trigger]
                        self.dependency_graph@.edges.contains(e) <==> base.contains(e) || (exists|
                            j: int,
                        |
                            0 <= j < m + 1 && e == match d@.direction {
                                Direction::DependsOn => (id@, #[trigger] ids[j]),
                                Direction::RequiredBy => (ids[j], id@),
                            }) by {
                        if e == added {
                            assert(0 <= m < m + 1 && ids[m as int] == ids[m as int]);
                        }
                    }
                }
                m = m + 1;
            }
            proof {
                let next = list.take(k + 1);
                let so_far = list.take(k as int);
                let now = self.dependency_graph@.edges;
                assert forall|e: (u64, u64)| now.contains(e) <==> start.union(
                    edges_of_all(entries, id@, next),
                ).contains(e) by {
                    if now.contains(e) && !base.contains(e) {
                        let j = choose|j: int|
                            0 <= j < found.len() && e == match d@.direction {
                                Direction::DependsOn => (id@, #[trigger] ids[j]),
                                Direction::RequiredBy => (ids[j], id@),
                            };
                        assert(ids.contains(ids[j]));
                        assert(edges_of(entries, id@, next[k as int]).contains(e));
                    }
                    if base.contains(e) && !start.contains(e) {
                        let q = choose|q: int|
                            0 <= q < so_far.len() && #[trigger] edges_of(
                                entries,
                                id@,
                                so_far[q],
                            ).contains(e);
                        assert(edges_of(entries, id@, next[q]).contains(e));
                    }
                    if edges_of_all(entries, id@, next).contains(e) {
                        let q = choose|q: int|
                            0 <= q < next.len() && #[trigger] edges_of(entries, id@, next[q]).contains(
                                e,
                            );
                        if q < k {
                            assert(edges_of(entries, id@, so_far[q]).contains(e));
                            assert(base.contains(e));
                        } else {
                            let other = match d@.direction {
                                Direction::DependsOn => e.1,
                                Direction::RequiredBy => e.0,
                            };
                            assert(ids.contains(other));
                            let j = choose|j: int| 0 <= j < ids.len() && ids[j] == other;
                            assert(e == match d@.direction {
                                Direction::DependsOn => (id@, ids[j]),
                                Direction::RequiredBy => (ids[j], id@),
                            });
                        }
                    }
                }
                assert(now =~= start.union(edges_of_all(entries, id@, next)));
            }
            k = k + 1;
        }
        assert(list.take(declared.len() as int) =~= list);
    }

    /// Asks every item, in the order of registration, for its dependencies,
    /// and turns what it declares into edges.
    ///
    /// The pass stops at the first item that fails, and fails itself; what
    /// was declared up to then, by the failing item too, stays in the graph.
    /// What an item declares and whether it fails is the item's affair. So
    /// the pass is described by what the items it asked have declared: it
    /// asked the first items, all of them if it succeeded, and it added the
    /// edges that their declarations stand for and no others. It follows
    /// that the pass adds edges between registered items only, and takes
    /// nothing away.
    pub fn resolve_dependencies(&mut self) -> (done: Result<(), ()>)
        requires
            old(self).wf(),
        ensures
            final(self).wf(),
            final(self).packages == old(self).packages,
            final(self).build_items@ == old(self).build_items@,
            final(self).dependency_graph@.count == old(self).dependency_graph@.count,
            exists|declared: Seq<Seq<DeclarationView>>|
                {
                    &&& declared.len() <= old(self).build_items@.len()
                    &&& done is Ok ==> declared.len() == old(self).build_items@.len()
                    &&& done is Err ==> declared.len() > 0
                    &&& final(self).dependency_graph@.edges == old(self).dependency_graph@.edges.union(
                        #[trigger] edges_of_items(old(self).build_items@, declared),
                    )
                },
            old(self).dependency_graph@.edges.subset_of(final(self).dependency_graph@.edges),
            forall|a: u64, b: u64|
                #[trigger] final(self).dependency_graph@.edges.contains((a, b)) && !old(self).dependency_graph@.edges.contains((a, b)) ==> is_item(final(self).build_items@, a)
                    && is_item(final(self).build_items@, b),
    {
        let ghost entries = self.build_items@;
        let ghost start = self.dependency_graph@.edges;
        let ghost mut told: Seq<Seq<DeclarationView>> = Seq::empty();
        let n = self.build_items.len();
        let mut i: usize = 0;
        assert(start =~= start.union(edges_of_items(entries, told)));
        while i < n
            invariant
                self.wf(),
                n == entries.len(),
                i <= n,
                told.len() == i,
                self.dependency_graph@.edges == start.union(edges_of_items(entries, told)),
                entries == old(self).build_items@,
                start == old(self).dependency_graph@.edges,
                self.packages == old(self).packages,
                self.build_items@ == entries,
                self.dependency_graph@.count == old(self).dependency_graph@.count,
                start.subset_of(self.dependency_graph@.edges),
                forall|a: u64, b: u64|
                    #[trigger] self.dependency_graph@.edges.contains((a, b)) && !start.contains(
                        (a, b),
                    ) ==> is_item(entries, a) && is_item(entries, b),
            decreases n - i,
        {
            let id = self.build_items.id_at(i);
            let mut context = BuildDependencyContext::new(self.build_items.package_at(i));
            let done = self.build_items.item_at(i).register_dependencies(&mut context);
            let declared = context.declared;
            let ghost before = self.dependency_graph@.edges;
            assert(self.dependency_graph@.has(self.build_items@[i as int].id));
            self.wire(id, &declared);
            proof {
                let list = declaration_views(declared@);
                let more = told.push(list);
                assert forall|e: (u64, u64)|
                    self.dependency_graph@.edges.contains(e) <==> start.union(
                        edges_of_items(entries, more),
                    ).contains(e) by {
                    if edges_of_all(entries, id@, list).contains(e) {
                        assert(more[i as int] == list);
                        assert(edges_of_all(entries, entries[i as int].id, more[i as int]).contains(
                            e,
                        ));
                    }
                    if edges_of_items(entries, told).contains(e) {
                        let j = choose|j: int|
                            0 <= j < told.len() && j < entries.len() && #[trigger] edges_of_all(
                                entries,
                                entries[j].id,
                                told[j],
                            ).contains(e);
                        assert(more[j] == told[j]);
                        assert(edges_of_all(entries, entries[j].id, more[j]).contains(e));
                    }
                    if edges_of_items(entries, more).contains(e) {
                        let j = choose|j: int|
                            0 <= j < more.len() && j < entries.len() && #[trigger] edges_of_all(
                                entries,
                                entries[j].id,
                                more[j],
                            ).contains(e);
                        if j < i {
                            assert(more[j] == told[j]);
                            assert(edges_of_all(entries, entries[j].id, told[j]).contains(e));
                        }
                    }
                }
                assert(self.dependency_graph@.edges =~= start.union(
                    edges_of_items(entries, more),
                ));
                told = more;
                assert forall|a: u64, b: u64| #[trigger]
                    self.dependency_graph@.edges.contains((a, b)) && !start.contains(
                        (a, b),
                    ) implies is_item(entries, a) && is_item(entries, b) by {
                    if !before.contains((a, b)) {
                        let k = choose|k: int|
                            0 <= k < list.len() && #[trigger] edges_of(entries, id@, list[k]).contains(
                                (a, b),
                            );
                        let other = if a == id@ {
                            b
                        } else {
                            a
                        };
                        assert(entries[i as int].id == id@);
                        if list[k].direction == Direction::DependsOn {
                            lemma_matching_contains(entries, list[k].package, list[k].class, b);
                        } else {
                            lemma_matching_contains(entries, list[k].package, list[k].class, a);
                        }
                    }
                }
            }
            if done.is_err() {
                return Err(());
            }
            i = i + 1;
        }
        Ok(())
    }

    /// The handle of the image of `package`: the first item registered for
    /// the package with class `Image`.
    pub fn image_dependency(&self, package: &Package) -> (found: Option<Id>)
        requires
            self.wf(),
        ensures
            match found {
                Some(id) => matching(self.build_items@, package@, BuildClass::Image).len() > 0
                    && id@ == matching(self.build_items@, package@, BuildClass::Image)[0],
                None => matching(self.build_items@, package@, BuildClass::Image).len() == 0,
            },
    {
        let found = self.build_items.dependencies_matching(package, BuildClass::Image);
        if found.len() > 0 {
            assert(found_ids(found@)[0] == found@[0].0@);
            Some(found[0].0)
        } else {
            None
        }
    }
}

} // verus!
