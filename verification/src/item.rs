//! Build items: the units of work of a build, and the registry that holds
//! them.
//!
//! An item belongs to a package and may carry a class. The class is what
//! other items name when they say what they depend on: "the stage of package
//! `p`" is every item of `p` whose class is `Stage`, whether it was
//! registered already or not.

use crate::config::{Package, PackageView};
use crate::dependencies::Id;
use crate::work::Workspace;
use vstd::prelude::*;

verus! {

/// The class of a build item.
#[derive(Copy, Clone, Debug, PartialEq, Eq, Structural, Hash)]
pub enum BuildClass {
    /// What prepares the staging of a package.
    Prestage,
    /// The staging of a package.
    Stage,
    /// The image of a package.
    Image,
}

/// Which way a declared dependency points.
#[derive(Copy, Clone, Debug, PartialEq, Eq, Structural)]
pub enum Direction {
    /// The declaring item runs after the items it names.
    DependsOn,
    /// The declaring item runs before the items it names.
    RequiredBy,
}

/// One declared dependency: a direction and the items it is about, named by
/// package and class.
#[derive(Debug)]
pub struct Declaration {
    pub direction: Direction,
    pub package: Package,
    pub class: BuildClass,
}

/// What a declaration holds.
pub ghost struct DeclarationView {
    pub direction: Direction,
    pub package: PackageView,
    pub class: BuildClass,
}

impl View for Declaration {
    type V = DeclarationView;

    open spec fn view(&self) -> DeclarationView {
        DeclarationView { direction: self.direction, package: self.package@, class: self.class }
    }
}

/// The views of the declarations `list`.
pub open spec fn declaration_views(list: Seq<Declaration>) -> Seq<DeclarationView> {
    Seq::new(list.len(), |i: int| list[i]@)
}

/// What an item is handed when it is asked for its dependencies: the package
/// it was registered for, and a list that takes down what it declares.
pub struct BuildDependencyContext<'a> {
    pub package: &'a Package,
    pub declared: Vec<Declaration>,
}

impl<'a> BuildDependencyContext<'a> {
    /// What was declared so far, in the order of declaration.
    pub open spec fn declared(&self) -> Seq<DeclarationView> {
        declaration_views(self.declared@)
    }

    /// A context for an item of `package`, with nothing declared.
    pub fn new(package: &'a Package) -> (context: Self)
        ensures
            context.package == package,
            context.declared() == Seq::<DeclarationView>::empty(),
    {
        let context = BuildDependencyContext { package, declared: Vec::new() };
        assert(context.declared() =~= Seq::<DeclarationView>::empty());
        context
    }

    /// Takes down a declaration.
    fn declare(&mut self, direction: Direction, p: &Package, b: BuildClass)
        ensures
            final(self).package == old(self).package,
            final(self).declared() == old(self).declared().push(
                DeclarationView { direction, package: p@, class: b },
            ),
    {
        self.declared.push(Declaration { direction, package: p.clone(), class: b });
        assert(self.declared() =~= old(self).declared().push(
            DeclarationView { direction, package: p@, class: b },
        ));
    }

    /// Declares that the item runs after every item of package `p` with
    /// class `b`.
    pub fn depends_on(&mut self, p: &Package, b: BuildClass)
        ensures
            final(self).package == old(self).package,
            final(self).declared() == old(self).declared().push(
                DeclarationView { direction: Direction::DependsOn, package: p@, class: b },
            ),
    {
        self.declare(Direction::DependsOn, p, b);
    }

    /// Declares that the item runs before every item of package `p` with
    /// class `b`.
    pub fn required_by(&mut self, p: &Package, b: BuildClass)
        ensures
            final(self).package == old(self).package,
            final(self).declared() == old(self).declared().push(
                DeclarationView { direction: Direction::RequiredBy, package: p@, class: b },
            ),
    {
        self.declare(Direction::RequiredBy, p, b);
    }
}

/// What an item is handed when it is built.
pub struct BuildContext<'a> {
    pub package: &'a Package,
    pub workspace: &'a Workspace,
}

/// A unit of build work.
///
/// What an item answers is its own affair: nothing here says what `class`
/// returns, what `register_dependencies` declares or whether it succeeds,
/// or what `build` does.
pub trait BuildItem {
    /// The class of the item, if it has one. An item without a class is not
    /// found by package and class. An item that does not say otherwise has
    /// none.
    fn class(&self) -> (class: Option<BuildClass>)
        default_ensures
            class is None,
    {
        None
    }

    /// Declares to `context` what the item depends on and what depends on
    /// it.
    fn register_dependencies(&self, context: &mut BuildDependencyContext) -> Result<(), ()>;

    /// Does the work of the item.
    fn build(&self, context: &mut BuildContext) -> Result<(), ()>;

    /// A name for the item, for messages.
    fn to_string(&self) -> String;
}

/// An item without work, which marks a point in the order of a build.
#[derive(Debug)]
pub struct NullBuildItem(String, Option<BuildClass>);

/// What a placeholder item holds.
pub ghost struct NullBuildItemView {
    pub name: Seq<char>,
    pub class: Option<BuildClass>,
}

impl View for NullBuildItem {
    type V = NullBuildItemView;

    closed spec fn view(&self) -> NullBuildItemView {
        NullBuildItemView { name: self.0@, class: self.1 }
    }
}

impl NullBuildItem {
    /// The placeholder called `s`, of class `class`.
    pub fn new(s: &str, class: Option<BuildClass>) -> (item: Self)
        ensures
            item@ == (NullBuildItemView { name: s@, class }),
    {
        NullBuildItem(s.to_owned(), class)
    }
}

impl BuildItem for NullBuildItem {
    fn class(&self) -> (class: Option<BuildClass>)
        ensures
            class == self@.class,
    {
        self.1
    }

    /// Declares nothing, and succeeds.
    fn register_dependencies(&self, context: &mut BuildDependencyContext) -> (done: Result<(), ()>)
        ensures
            done is Ok,
            *final(context) == *old(context),
    {
        Ok(())
    }

    /// Does nothing, and succeeds.
    fn build(&self, context: &mut BuildContext) -> (done: Result<(), ()>)
        ensures
            done is Ok,
    {
        Ok(())
    }

    fn to_string(&self) -> (name: String)
        ensures
            name@ == self@.name,
    {
        self.0.clone()
    }
}

/// What is kept of an item beside the item itself.
struct Entry {
    id: Id,
    package: Package,
    class: Option<BuildClass>,
}

/// What the registry holds of one item: its handle, its package, and the
/// class it gave when it was registered.
pub ghost struct EntryView {
    pub id: u64,
    pub package: PackageView,
    pub class: Option<BuildClass>,
}

impl EntryView {
    /// Whether the entry is of package `package` and class `class`.
    pub open spec fn is_of(self, package: PackageView, class: BuildClass) -> bool {
        self.package == package && self.class == Some(class)
    }
}

/// The handles of the entries of package `package` and class `class`, in the
/// order of the entries.
pub open spec fn matching(entries: Seq<EntryView>, package: PackageView, class: BuildClass) -> Seq<
    u64,
>
    decreases entries.len(),
{
    if entries.len() == 0 {
        Seq::empty()
    } else if entries.last().is_of(package, class) {
        matching(entries.drop_last(), package, class).push(entries.last().id)
    } else {
        matching(entries.drop_last(), package, class)
    }
}

/// The numbers of the handles of the items `found`.
pub open spec fn found_ids(found: Seq<(Id, &Box<dyn BuildItem>)>) -> Seq<u64> {
    Seq::new(found.len(), |k: int| found[k].0@)
}

/// Whether `after` holds the items of `before`, in their places, and one
/// more behind them.
pub open spec fn holds_one_more(
    before: Seq<Box<dyn BuildItem>>,
    after: Seq<Box<dyn BuildItem>>,
) -> bool {
    &&& after.len() == before.len() + 1
    &&& forall|i: int| 0 <= i < before.len() ==> #[trigger] after[i] == before[i]
}

/// Whether no two entries have the same handle.
pub open spec fn distinct_ids(entries: Seq<EntryView>) -> bool {
    forall|i: int, j: int|
        0 <= i < j < entries.len() ==> (#[trigger] entries[i]).id != (#[trigger] entries[j]).id
}

/// A handle is among those of the entries of a package and class exactly
/// when an entry of that package and class has it.
pub proof fn lemma_matching_contains(
    entries: Seq<EntryView>,
    package: PackageView,
    class: BuildClass,
    id: u64,
)
    ensures
        matching(entries, package, class).contains(id) <==> exists|i: int|
            0 <= i < entries.len() && (#[trigger] entries[i]).id == id && entries[i].is_of(
                package,
                class,
            ),
    decreases entries.len(),
{
    if entries.len() > 0 {
        let rest = entries.drop_last();
        let found = matching(rest, package, class);
        lemma_matching_contains(rest, package, class, id);
        if matching(entries, package, class).contains(id) {
            if entries.last().is_of(package, class) {
                let all = found.push(entries.last().id);
                let k = choose|k: int| 0 <= k < all.len() && all[k] == id;
                if k < found.len() {
                    assert(found[k] == id);
                    let i = choose|i: int|
                        0 <= i < rest.len() && (#[trigger] rest[i]).id == id && rest[i].is_of(
                            package,
                            class,
                        );
                    assert(entries[i] == rest[i]);
                } else {
                    assert(entries[entries.len() - 1].id == id);
                }
            } else {
                let i = choose|i: int|
                    0 <= i < rest.len() && (#[trigger] rest[i]).id == id && rest[i].is_of(
                        package,
                        class,
                    );
                assert(entries[i] == rest[i]);
            }
        }
        if exists|i: int|
            0 <= i < entries.len() && (#[trigger] entries[i]).id == id && entries[i].is_of(
                package,
                class,
            ) {
            let i = choose|i: int|
                0 <= i < entries.len() && (#[trigger] entries[i]).id == id && entries[i].is_of(
                    package,
                    class,
                );
            if i < rest.len() {
                assert(rest[i] == entries[i]);
                assert(found.contains(id));
                let k = choose|k: int| 0 <= k < found.len() && found[k] == id;
                if entries.last().is_of(package, class) {
                    assert(found.push(entries.last().id)[k] == id);
                }
            } else {
                let all = found.push(entries.last().id);
                assert(all[found.len() as int] == id);
            }
        }
    }
}

/// The registry of build items. Items are added and never removed.
pub struct BuildItems {
    entries: Vec<Entry>,
    build_items: Vec<Box<dyn BuildItem>>,
}

impl Entry {
    spec fn view(&self) -> EntryView {
        EntryView { id: self.id@, package: self.package@, class: self.class }
    }
}

impl View for BuildItems {
    type V = Seq<EntryView>;

    /// The entries, in the order of registration.
    closed spec fn view(&self) -> Seq<EntryView> {
        Seq::new(self.entries@.len(), |i: int| self.entries@[i].view())
    }
}

impl BuildItems {
    /// The items themselves, in the order of registration: item `i` is the
    /// item of entry `i`.
    pub closed spec fn items(&self) -> Seq<Box<dyn BuildItem>> {
        self.build_items@
    }

    /// What `wf` says of the items: each entry has one.
    pub proof fn lemma_items_len(&self)
        requires
            self.wf(),
        ensures
            self.items().len() == self@.len(),
    {
    }

    /// The invariant of the registry: no two entries have the same handle,
    /// and every entry has its item.
    pub closed spec fn wf(&self) -> bool {
        &&& distinct_ids(self@)
        &&& self.build_items@.len() == self.entries@.len()
    }


    /// What `wf` says of the entries: no two have the same handle.
    pub proof fn lemma_distinct_ids(&self)
        requires
            self.wf(),
        ensures
            distinct_ids(self@),
    {
    }

    /// A registry without entries.
    pub fn new() -> (items: Self)
        ensures
            items.wf(),
            items@.len() == 0,
    {
        BuildItems { entries: Vec::new(), build_items: Vec::new() }
    }

    /// How many items are registered.
    pub fn len(&self) -> (n: usize)
        ensures
            n == self@.len(),
    {
        self.entries.len()
    }

    /// The handle of entry `index`.
    pub fn id_at(&self, index: usize) -> (id: Id)
        requires
            index < self@.len(),
        ensures
            id@ == self@[index as int].id,
    {
        self.entries[index].id
    }

    /// The package of entry `index`.
    pub fn package_at(&self, index: usize) -> (package: &Package)
        requires
            index < self@.len(),
        ensures
            package@ == self@[index as int].package,
    {
        &self.entries[index].package
    }

    /// The item of entry `index`.
    pub fn item_at(&self, index: usize) -> (item: &Box<dyn BuildItem>)
        requires
            self.wf(),
            index < self@.len(),
        ensures
            *item == self.items()[index as int],
    {
        &self.build_items[index]
    }

    /// Adds an entry with these parts.
    fn push_entry(
        &mut self,
        id: Id,
        package: &Package,
        class: Option<BuildClass>,
        b: Box<dyn BuildItem>,
    )
        requires
            old(self).wf(),
            forall|i: int| 0 <= i < old(self)@.len() ==> (#[trigger] old(self)@[i]).id != id@,
        ensures
            final(self).wf(),
            final(self)@ == old(self)@.push(EntryView { id: id@, package: package@, class }),
            holds_one_more(old(self).items(), final(self).items()),
    {
        let ghost item = b;
        self.entries.push(Entry { id, package: package.clone(), class });
        self.build_items.push(b);
        proof {
            vstd::seq::axiom_seq_push_len(old(self).build_items@, item);
            assert forall|i: int| 0 <= i < old(self).items().len() implies #[trigger] self.items()[i]
                == old(self).items()[i] by {
                vstd::seq::axiom_seq_push_index_different(old(self).build_items@, item, i);
            }
            assert forall|i: int| 0 <= i < old(self)@.len() implies self@[i] == old(self)@[i] by {
                assert(self.entries@[i] == old(self).entries@[i]);
            }
            assert(self@.last() == self.entries@[self@.len() - 1].view());
            assert(self@ =~= old(self)@.push(EntryView { id: id@, package: package@, class }));
        }
    }

    /// Adds `b` as an item of `package` under the handle `id`, which must not
    /// be taken. The class of the entry is what the item answers now.
    pub fn register_build_item(&mut self, id: Id, package: &Package, b: Box<dyn BuildItem>)
        requires
            old(self).wf(),
            forall|i: int| 0 <= i < old(self)@.len() ==> (#[trigger] old(self)@[i]).id != id@,
        ensures
            final(self).wf(),
            final(self)@.len() == old(self)@.len() + 1,
            final(self)@.drop_last() == old(self)@,
            final(self)@.last().id == id@,
            final(self)@.last().package == package@,
            holds_one_more(old(self).items(), final(self).items()),
    {
        let class = b.class();
        self.push_entry(id, package, class, b);
        assert(self@.drop_last() =~= old(self)@);
    }

    /// Adds the placeholder `item` as an item of `package` under the handle
    /// `id`, which must not be taken.
    pub fn register_placeholder(&mut self, id: Id, package: &Package, item: NullBuildItem)
        requires
            old(self).wf(),
            forall|i: int| 0 <= i < old(self)@.len() ==> (#[trigger] old(self)@[i]).id != id@,
        ensures
            final(self).wf(),
            final(self)@ == old(self)@.push(
                EntryView { id: id@, package: package@, class: item@.class },
            ),
            holds_one_more(old(self).items(), final(self).items()),
    {
        let class = item.class();
        let boxed: Box<dyn BuildItem> = Box::new(item);
        self.push_entry(id, package, class, boxed);
    }

    /// The class of entry `index`.
    pub fn class_at(&self, index: usize) -> (class: Option<BuildClass>)
        requires
            index < self@.len(),
        ensures
            class == self@[index as int].class,
    {
        self.entries[index].class
    }

    /// The items of package `package` and class `class`, each with its
    /// handle, in the order of registration.
    pub fn dependencies_matching(&self, package: &Package, class: BuildClass) -> (found: Vec<
        (Id, &Box<dyn BuildItem>),
    >)
        requires
            self.wf(),
        ensures
            found_ids(found@) == matching(self@, package@, class),
    {
        let mut found: Vec<(Id, &Box<dyn BuildItem>)> = Vec::new();
        let mut i: usize = 0;
        assert(found_ids(found@) =~= matching(self@.take(0), package@, class));
        while i < self.entries.len()
            invariant
                self.wf(),
                i <= self.entries.len(),
                found_ids(found@) == matching(self@.take(i as int), package@, class),
            decreases self.entries.len() - i,
        {
            let entry = &self.entries[i];
            proof {
                let next = self@.take(i + 1);
                assert(next.drop_last() =~= self@.take(i as int));
                assert(next.last() == entry.view());
            }
            let of_class = match entry.class {
                Some(c) => c == class,
                None => false,
            };
            if of_class && entry.package == *package {
                let ghost before = found@;
                let pair = (entry.id, &self.build_items[i]);
                found.push(pair);
                proof {
                    vstd::seq::axiom_seq_push_len(before, pair);
                    vstd::seq::axiom_seq_push_index_same(before, pair, before.len() as int);
                    assert forall|k: int| 0 <= k < before.len() implies found@[k] == before[k] by {
                        vstd::seq::axiom_seq_push_index_different(before, pair, k);
                    }
                    assert(found_ids(found@) =~= found_ids(before).push(entry.id@));
                }
            }
            i = i + 1;
        }
        assert(self@.take(self.entries.len() as int) =~= self@);
        found
    }

    /// The package that the handle `id` was registered for, and the item, if
    /// the handle is taken.
    pub fn get(&self, id: Id) -> (found: Option<(&Package, &Box<dyn BuildItem>)>)
        requires
            self.wf(),
        ensures
            found is Some <==> exists|i: int| 0 <= i < self@.len() && (#[trigger] self@[i]).id == id@,
            found matches Some(pair) ==> exists|i: int|
                0 <= i < self@.len() && (#[trigger] self@[i]).id == id@ && pair.0@
                    == self@[i].package && *pair.1 == self.items()[i],
    {
        let mut i: usize = 0;
        while i < self.entries.len()
            invariant
                self.wf(),
                i <= self.entries.len(),
                forall|k: int| 0 <= k < i ==> (#[trigger] self@[k]).id != id@,
            decreases self.entries.len() - i,
        {
            let entry = &self.entries[i];
            assert(self@[i as int] == entry.view());
            if entry.id == id {
                return Some((&entry.package, &self.build_items[i]));
            }
            proof {
                if entry.id@ == id@ {
                    Id::lemma_view_injective(entry.id, id);
                }
            }
            i = i + 1;
        }
        None
    }
}

} // verus!
