use encage_build::config::Package;
use encage_build::context::Context;
use encage_build::dependencies::{DependencyGraph, WalkError};
use encage_build::item::{
    BuildClass, BuildContext, BuildDependencyContext, BuildItem, NullBuildItem,
};
use semver::Version;

fn package(name: &str) -> Package {
    Package { name: name.to_string(), version: Version::new(1, 0, 0) }
}

/// An item that declares one dependency, in one direction.
struct Needs {
    after: bool,
    package: Package,
    class: BuildClass,
    own: Option<BuildClass>,
}

impl BuildItem for Needs {
    fn class(&self) -> Option<BuildClass> {
        self.own
    }

    fn register_dependencies(&self, context: &mut BuildDependencyContext) -> Result<(), ()> {
        if self.after {
            context.depends_on(&self.package, self.class);
        } else {
            context.required_by(&self.package, self.class);
        }
        Ok(())
    }

    fn build(&self, _context: &mut BuildContext) -> Result<(), ()> {
        Ok(())
    }

    fn to_string(&self) -> String {
        "needs".to_string()
    }
}

/// An item that declares, and then fails.
struct Broken;

impl BuildItem for Broken {
    fn register_dependencies(&self, context: &mut BuildDependencyContext) -> Result<(), ()> {
        let target = context.package.clone();
        context.depends_on(&target, BuildClass::Stage);
        Err(())
    }

    fn build(&self, _context: &mut BuildContext) -> Result<(), ()> {
        Err(())
    }

    fn to_string(&self) -> String {
        "broken".to_string()
    }
}

#[test]
fn forward_reference_is_resolved() {
    let a = package("a");
    let b = package("b");
    let mut context = Context::new();
    let x = context.register_build_item(&a, NullBuildItem::new("x", Some(BuildClass::Stage)));
    let y = context.register_build_item(
        &b,
        Needs { after: true, package: a.clone(), class: BuildClass::Stage, own: Some(BuildClass::Image) },
    );
    assert_eq!(context.resolve_dependencies(), Ok(()));
    assert_eq!(context.dependency_graph.walk(y), Ok(vec![x, y]));
    assert_eq!(context.dependency_graph.walk(x), Ok(vec![x]));
}

#[test]
fn dependency_on_a_later_item_is_resolved() {
    let a = package("a");
    let b = package("b");
    let mut context = Context::new();
    let y = context.register_build_item(
        &b,
        Needs { after: true, package: a.clone(), class: BuildClass::Stage, own: None },
    );
    let x = context.register_build_item(&a, NullBuildItem::new("x", Some(BuildClass::Stage)));
    assert_eq!(context.resolve_dependencies(), Ok(()));
    assert_eq!(context.dependency_graph.walk(y), Ok(vec![x, y]));
}

#[test]
fn required_by_points_the_other_way() {
    let a = package("a");
    let mut context = Context::new();
    let x = context.register_build_item(&a, NullBuildItem::new("x", Some(BuildClass::Image)));
    let y = context.register_build_item(
        &a,
        Needs { after: false, package: a.clone(), class: BuildClass::Image, own: None },
    );
    assert_eq!(context.resolve_dependencies(), Ok(()));
    assert_eq!(context.dependency_graph.walk(x), Ok(vec![y, x]));
    assert_eq!(context.dependency_graph.walk(y), Ok(vec![y]));
}

#[test]
fn declaration_without_a_match_adds_nothing() {
    let a = package("a");
    let other = package("other");
    let mut context = Context::new();
    let x = context.register_build_item(&a, NullBuildItem::new("x", Some(BuildClass::Stage)));
    let y = context.register_build_item(
        &a,
        Needs { after: false, package: other, class: BuildClass::Stage, own: None },
    );
    assert_eq!(context.resolve_dependencies(), Ok(()));
    assert_eq!(context.dependency_graph.walk(x), Ok(vec![x]));
    assert_eq!(context.dependency_graph.walk(y), Ok(vec![y]));
}

#[test]
fn match_asks_for_the_same_version() {
    let a = package("a");
    let newer = Package { name: "a".to_string(), version: Version::new(2, 0, 0) };
    let mut context = Context::new();
    let _x = context.register_build_item(&a, NullBuildItem::new("x", Some(BuildClass::Stage)));
    let y = context.register_build_item(
        &a,
        Needs { after: true, package: newer, class: BuildClass::Stage, own: None },
    );
    assert_eq!(context.resolve_dependencies(), Ok(()));
    assert_eq!(context.dependency_graph.walk(y), Ok(vec![y]));
}

#[test]
fn item_without_class_is_not_matched() {
    let a = package("a");
    let mut context = Context::new();
    let _x = context.register_build_item(&a, NullBuildItem::new("x", None));
    let y = context.register_build_item(
        &a,
        Needs { after: true, package: a.clone(), class: BuildClass::Stage, own: None },
    );
    assert_eq!(context.resolve_dependencies(), Ok(()));
    assert_eq!(context.dependency_graph.walk(y), Ok(vec![y]));
}

#[test]
fn failing_item_stops_the_pass() {
    let a = package("a");
    let mut context = Context::new();
    let x = context.register_build_item(&a, NullBuildItem::new("x", Some(BuildClass::Stage)));
    let broken = context.register_build_item(&a, Broken);
    let late = context.register_build_item(
        &a,
        Needs { after: true, package: a.clone(), class: BuildClass::Stage, own: None },
    );
    assert_eq!(context.resolve_dependencies(), Err(()));
    assert_eq!(context.dependency_graph.walk(broken), Ok(vec![x, broken]));
    assert_eq!(context.dependency_graph.walk(late), Ok(vec![late]));
}

#[test]
fn image_dependency_is_the_first_image_of_the_package() {
    let a = package("a");
    let b = package("b");
    let mut context = Context::new();
    let _stage = context.register_build_item(&a, NullBuildItem::new("stage", Some(BuildClass::Stage)));
    let other = context.register_build_item(&b, NullBuildItem::new("image", Some(BuildClass::Image)));
    let first = context.register_build_item(&a, NullBuildItem::new("image", Some(BuildClass::Image)));
    let _second = context.register_build_item(&a, NullBuildItem::new("image", Some(BuildClass::Image)));
    assert_eq!(context.image_dependency(&a), Some(first));
    assert_eq!(context.image_dependency(&b), Some(other));
    assert_eq!(context.image_dependency(&package("c")), None);
}

#[test]
fn registry_finds_items_by_handle_and_by_class() {
    let a = package("a");
    let b = package("b");
    let mut context = Context::new();
    let x = context.register_build_item(&a, NullBuildItem::new("x", Some(BuildClass::Stage)));
    let y = context.register_build_item(&b, NullBuildItem::new("y", Some(BuildClass::Stage)));
    let z = context.register_build_item(&a, NullBuildItem::new("z", Some(BuildClass::Stage)));
    let w = context.register_build_item(&a, NullBuildItem::new("w", Some(BuildClass::Prestage)));
    assert_eq!(context.build_items.len(), 4);
    let ids = |package: &Package, class: BuildClass| -> Vec<_> {
        context.build_items.dependencies_matching(package, class).iter().map(|pair| pair.0).collect()
    };
    assert_eq!(ids(&a, BuildClass::Stage), vec![x, z]);
    assert_eq!(ids(&b, BuildClass::Stage), vec![y]);
    assert_eq!(ids(&a, BuildClass::Prestage), vec![w]);
    assert_eq!(ids(&b, BuildClass::Image), vec![]);
    let stages = context.build_items.dependencies_matching(&a, BuildClass::Stage);
    assert_eq!(stages[0].1.to_string(), "x");
    assert_eq!(stages[1].1.to_string(), "z");
    let (found, item) = context.build_items.get(z).expect("z is registered");
    assert_eq!(found, &a);
    assert_eq!(item.to_string(), "z");
    assert_eq!(item.class(), Some(BuildClass::Stage));
    let mut lone = DependencyGraph::new();
    lone.register();
    lone.register();
    lone.register();
    lone.register();
    let stranger = lone.register();
    assert!(context.build_items.get(stranger).is_none());
}

#[test]
fn cycle_is_detected() {
    let mut graph = DependencyGraph::new();
    let a = graph.register();
    let b = graph.register();
    graph.link(a, b);
    graph.link(b, a);
    assert_eq!(graph.walk(a), Err(WalkError::CycleDetected));
    assert_eq!(graph.walk(b), Err(WalkError::CycleDetected));
}

#[test]
fn cycle_below_the_root_is_detected() {
    let mut graph = DependencyGraph::new();
    let root = graph.register();
    let a = graph.register();
    let b = graph.register();
    let free = graph.register();
    graph.link(root, a);
    graph.link(a, b);
    graph.link(b, a);
    assert_eq!(graph.walk(root), Err(WalkError::CycleDetected));
    assert_eq!(graph.walk(free), Ok(vec![free]));
}

#[test]
fn self_dependency_is_a_cycle() {
    let mut graph = DependencyGraph::new();
    let a = graph.register();
    graph.link(a, a);
    assert_eq!(graph.walk(a), Err(WalkError::CycleDetected));
}

#[test]
fn walk_of_a_stranger_fails() {
    let mut graph = DependencyGraph::new();
    let mut other = DependencyGraph::new();
    let _a = graph.register();
    other.register();
    let stranger = other.register();
    assert!(!graph.contains(stranger));
    assert_eq!(graph.walk(stranger), Err(WalkError::NoSuchNode));
}

#[test]
fn walk_puts_dependencies_first() {
    let mut graph = DependencyGraph::new();
    let a = graph.register();
    let b = graph.register();
    let c = graph.register();
    let d = graph.register();
    let e = graph.register();
    graph.link(a, b);
    graph.link(a, c);
    graph.link(b, d);
    graph.link(c, d);
    graph.link(e, a);
    let order = graph.walk(a).expect("no cycle");
    assert_eq!(order.len(), 4);
    let at = |id| order.iter().position(|&x| x == id).expect("in the order");
    assert!(at(d) < at(b));
    assert!(at(d) < at(c));
    assert!(at(b) < at(a));
    assert!(at(c) < at(a));
    assert_eq!(order[3], a);
    assert!(!order.contains(&e));
}

#[test]
fn link_twice_is_link_once() {
    let mut graph = DependencyGraph::new();
    let a = graph.register();
    let b = graph.register();
    graph.link(a, b);
    graph.link(a, b);
    assert_eq!(graph.walk(a), Ok(vec![b, a]));
}
