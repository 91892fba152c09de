use encage_build::config::Package;
use encage_build::console::{log_line, LogLevel};
use encage_build::context::Context;
use encage_build::item::BuildClass;
use encage_build::parse::{
    describe_images, finish_image, ImageKind, ImageSource, PluginData, PluginError, UserData,
};
use encage_build::plugins::{
    is_enabled, register_placeholders, BuildPlugin, CommandsPlugin, DependsPlugin, FilesPlugin,
    HandlebarsPlugin, ImageConfigurationContext, ImageDependencyContext, Plugin, Registry,
};
use semver::Version;
use serde_value::Value;
use std::collections::BTreeMap;

fn package(name: &str) -> Package {
    Package { name: name.to_string(), version: Version::new(0, 1, 0) }
}

fn text(s: &str) -> Value {
    Value::String(s.to_string())
}

fn settings(entries: &[(&str, Value)]) -> UserData {
    let mut data = UserData::new();
    for (name, value) in entries {
        data.insert(name.to_string(), value.clone());
    }
    data
}

fn names(list: &[&str]) -> Vec<String> {
    list.iter().map(|s| s.to_string()).collect()
}

fn image(name: &str, kind: ImageKind, entries: &[(&str, Value)]) -> ImageSource {
    ImageSource { name: name.to_string(), kind, user_data: settings(entries) }
}

fn builtins() -> Registry {
    let mut registry = Registry::new();
    registry.register_builtins();
    registry
}

#[test]
fn parse() {
    let mut vars = BTreeMap::new();
    vars.insert(text("arch"), text("x86_64"));
    let images = vec![
        image(
            ".base",
            ImageKind::Container,
            &[
                ("vars", Value::Map(vars)),
                ("commands", Value::Seq(vec![text("make")])),
                ("files", Value::Seq(vec![])),
                ("build", text("host")),
                ("build-commands", Value::Seq(vec![])),
                ("depends", Value::Seq(vec![text("other")])),
            ],
        ),
        image("tools", ImageKind::Host, &[]),
    ];
    let config = describe_images(
        &package("sample"),
        &names(&["base", "handlebars"]),
        images,
        &builtins(),
    );
    let config = config.expect("parse failed");
    assert_eq!(config.len(), 2);
    assert_eq!(config[0].package, package("sample.base"));
    assert_eq!(config[0].kind, ImageKind::Container);
    let kept = config[0].plugin_data.get_vars().expect("vars are kept");
    assert_eq!(kept.inner.first_key(), Some(&"arch".to_string()));
    assert_eq!(config[1].package, package("tools"));
    assert_eq!(config[1].kind, ImageKind::Host);
    assert!(config[1].plugin_data.get_vars().is_none());
}

#[test]
fn image_kinds_are_read_by_name() {
    assert_eq!(ImageKind::from_str("host"), Some(ImageKind::Host));
    assert_eq!(ImageKind::from_str("container"), Some(ImageKind::Container));
    assert_eq!(ImageKind::from_str("Host"), None);
    assert_eq!(ImageKind::from_str(""), None);
    assert_eq!(ImageKind::from_str("containers"), None);
    assert_eq!(ImageKind::default(), ImageKind::Container);
}

#[test]
fn settings_are_kept_by_name() {
    let mut data = UserData::new();
    assert!(data.is_empty());
    assert_eq!(data.first_key(), None);
    assert_eq!(data.insert("b".to_string(), text("1")), None);
    assert_eq!(data.insert("a".to_string(), text("2")), None);
    assert_eq!(data.insert("c".to_string(), text("3")), None);
    assert_eq!(data.insert("b".to_string(), text("4")), Some(text("1")));
    assert!(!data.is_empty());
    assert_eq!(data.first_key(), Some(&"a".to_string()));
    assert_eq!(data.remove("a"), Some(text("2")));
    assert_eq!(data.remove("a"), None);
    assert_eq!(data.first_key(), Some(&"b".to_string()));
    assert_eq!(data.remove("b"), Some(text("4")));
    assert_eq!(data.first_key(), Some(&"c".to_string()));
    assert_eq!(data.remove("c"), Some(text("3")));
    assert!(data.is_empty());
    assert_eq!(data.first_key(), None);
}

#[test]
fn first_setting_is_first_in_the_order_of_strings() {
    let data = settings(&[("zeta", text("")), ("Beta", text("")), ("alpha", text("")), ("alph", text(""))]);
    assert_eq!(data.first_key(), Some(&"Beta".to_string()));
}

#[test]
fn setting_that_nobody_took_is_unknown() {
    let left = settings(&[("other", text("x")), ("more", text("y"))]);
    match finish_image(package("p"), ImageKind::Host, &left, PluginData::new()) {
        Err(PluginError::UnknownField(name)) => assert_eq!(name, "more"),
        _ => panic!("the image is not known"),
    }
    let image = finish_image(package("p"), ImageKind::Host, &UserData::new(), PluginData::new())
        .expect("nothing is left");
    assert_eq!(image.package, package("p"));
    assert_eq!(image.kind, ImageKind::Host);
}

#[test]
fn groups_that_are_not_named_take_nothing() {
    let images = vec![image("a", ImageKind::Container, &[("commands", text("x"))])];
    match describe_images(&package("p"), &names(&["handlebars"]), images, &builtins()) {
        Err(PluginError::UnknownField(name)) => assert_eq!(name, "commands"),
        _ => panic!("commands were not taken"),
    }
    let images = vec![image("a", ImageKind::Container, &[("vars", Value::Map(BTreeMap::new()))])];
    match describe_images(&package("p"), &names(&["base"]), images, &builtins()) {
        Err(PluginError::UnknownField(name)) => assert_eq!(name, "vars"),
        _ => panic!("vars were not taken"),
    }
}

#[test]
fn variables_have_to_be_a_map() {
    let images = vec![image("a", ImageKind::Container, &[("vars", text("no map"))])];
    match describe_images(&package("p"), &names(&["handlebars"]), images, &builtins()) {
        Err(PluginError::Value(_)) => {}
        _ => panic!("a string is no map"),
    }
}

#[test]
fn first_failing_image_ends_the_work() {
    let images = vec![
        image("a", ImageKind::Container, &[]),
        image("b", ImageKind::Container, &[("zz", text(""))]),
        image("c", ImageKind::Container, &[("aa", text(""))]),
    ];
    match describe_images(&package("p"), &names(&["base"]), images, &builtins()) {
        Err(PluginError::UnknownField(name)) => assert_eq!(name, "zz"),
        _ => panic!("the second image is not known"),
    }
}

#[test]
fn plugin_is_enabled_when_its_group_is_named() {
    let named = names(&["base", "handlebars"]);
    assert!(is_enabled(Some("base"), &named));
    assert!(is_enabled(Some("handlebars"), &named));
    assert!(!is_enabled(Some("bas"), &named));
    assert!(!is_enabled(Some(""), &named));
    assert!(!is_enabled(None, &named));
    assert!(!is_enabled(Some("base"), &names(&[])));
}

#[test]
fn builtin_plugins_have_their_groups() {
    assert_eq!(CommandsPlugin::new().config_group(), Some("base"));
    assert_eq!(FilesPlugin::new().config_group(), Some("base"));
    assert_eq!(BuildPlugin::new().config_group(), Some("base"));
    assert_eq!(DependsPlugin::new().config_group(), Some("base"));
    assert_eq!(HandlebarsPlugin::new().config_group(), Some("handlebars"));
    assert_eq!(builtins().len(), 5);
}

#[test]
fn builtin_plugins_take_their_settings() {
    let p = package("p");
    let mut context = ImageConfigurationContext {
        root_package: &p,
        package: &p,
        user_data: settings(&[
            ("build", text("")),
            ("build-commands", text("")),
            ("commands", text("")),
            ("depends", text("")),
            ("files", text("")),
            ("zzz", text("")),
        ]),
        plugin_data: PluginData::new(),
    };
    assert!(BuildPlugin::new().configure_image(&mut context).is_ok());
    assert_eq!(context.user_data.first_key(), Some(&"commands".to_string()));
    assert!(CommandsPlugin::new().configure_image(&mut context).is_ok());
    assert_eq!(context.user_data.first_key(), Some(&"depends".to_string()));
    assert!(DependsPlugin::new().configure_image(&mut context).is_ok());
    assert_eq!(context.user_data.first_key(), Some(&"files".to_string()));
    assert!(FilesPlugin::new().configure_image(&mut context).is_ok());
    assert_eq!(context.user_data.first_key(), Some(&"zzz".to_string()));
    assert!(HandlebarsPlugin::new().configure_image(&mut context).is_ok());
    assert_eq!(context.user_data.first_key(), Some(&"zzz".to_string()));
    assert!(context.plugin_data.get_vars().is_none());
}

/// A plugin without a group, which fails when it is asked for items.
struct Failing;

impl Plugin for Failing {
    fn configure_image_dependencies(&self, _context: &mut ImageDependencyContext) -> Result<(), ()> {
        Err(())
    }
}

/// A plugin that takes the setting `extra`.
struct Extra;

impl Plugin for Extra {
    fn config_group(&self) -> Option<&str> {
        Some("extra")
    }

    fn configure_image(&self, context: &mut ImageConfigurationContext) -> Result<(), PluginError> {
        context.user_data.remove("extra");
        Ok(())
    }
}

#[test]
fn own_plugins_are_asked_behind_the_builtins() {
    let mut registry = builtins();
    registry.register_plugin(Extra);
    registry.register_plugin(Failing);
    assert_eq!(registry.len(), 7);
    let images = vec![image("a", ImageKind::Container, &[("extra", text("")), ("files", text(""))])];
    let described = describe_images(&package("p"), &names(&["extra", "base"]), images, &registry);
    assert_eq!(described.expect("every setting is taken").len(), 1);
}

#[test]
fn image_gets_its_placeholders() {
    let p = package("p");
    let mut context = ImageDependencyContext {
        context: Context::new(),
        package: &p,
        plugin_data: PluginData::new(),
    };
    assert_eq!(builtins().configure_image_dependencies(&mut context), Ok(()));
    let build = &mut context.context;
    assert_eq!(build.build_items.len(), 2);
    let image = build.build_items.id_at(0);
    let stage = build.build_items.id_at(1);
    assert_eq!(build.build_items.class_at(0), Some(BuildClass::Image));
    assert_eq!(build.build_items.class_at(1), Some(BuildClass::Stage));
    assert_eq!(build.build_items.package_at(0), &p);
    assert_eq!(build.build_items.item_at(0).to_string(), "image");
    assert_eq!(build.build_items.item_at(1).to_string(), "stage");
    assert_eq!(build.image_dependency(&p), Some(image));
    assert_eq!(build.dependency_graph.walk(image), Ok(vec![stage, image]));
}

#[test]
fn failing_plugin_leaves_the_image_without_placeholders() {
    let p = package("p");
    let mut registry = builtins();
    registry.register_plugin(Failing);
    let mut context = ImageDependencyContext {
        context: Context::new(),
        package: &p,
        plugin_data: PluginData::new(),
    };
    assert_eq!(registry.configure_image_dependencies(&mut context), Err(()));
    assert_eq!(context.context.build_items.len(), 0);
}

#[test]
fn messages_are_written_behind_their_level() {
    assert_eq!(log_line(LogLevel::Error, "no such file"), "Error: no such file");
    assert_eq!(log_line(LogLevel::Note, ""), "Note: ");
    assert_eq!(log_line(LogLevel::Debug, "x"), format!("{:?}: {}", LogLevel::Debug, "x"));
    assert_eq!(LogLevel::Trace.label(), "Trace");
}

#[test]
fn without_plugins_every_setting_is_left() {
    let images = vec![
        image("a", ImageKind::Container, &[]),
        image("b", ImageKind::Host, &[("files", text("x")), ("commands", text("y"))]),
        image("c", ImageKind::Host, &[("a", text("z"))]),
    ];
    match describe_images(&package("p"), &names(&["base"]), images, &Registry::new()) {
        Err(PluginError::UnknownField(name)) => assert_eq!(name, "commands"),
        _ => panic!("the second image has settings"),
    }
    let images = vec![image("b", ImageKind::Host, &[("files", text("x"))])];
    match describe_images(&package("p"), &names(&[]), images, &builtins()) {
        Err(PluginError::UnknownField(name)) => assert_eq!(name, "files"),
        _ => panic!("no group is named"),
    }
    let images = vec![image(".a", ImageKind::Container, &[]), image("b", ImageKind::Host, &[])];
    let described = describe_images(&package("p"), &names(&[]), images, &Registry::new())
        .expect("no image has settings");
    assert_eq!(described.len(), 2);
    assert_eq!(described[0].package, package("p.a"));
    assert_eq!(described[1].kind, ImageKind::Host);
    assert!(described[0].plugin_data.get_vars().is_none());
    let none = describe_images(&package("p"), &names(&["base"]), vec![], &builtins());
    assert_eq!(none.expect("there is no image").len(), 0);
}

#[test]
fn without_plugins_the_image_stays_as_it_is() {
    let p = package("p");
    let mut context = ImageConfigurationContext {
        root_package: &p,
        package: &p,
        user_data: settings(&[("files", text("x"))]),
        plugin_data: PluginData::new(),
    };
    assert!(Registry::new().configure_image(&names(&["base"]), &mut context).is_ok());
    assert_eq!(context.user_data.get("files"), Some(&text("x")));
    assert!(builtins().configure_image(&names(&[]), &mut context).is_ok());
    assert_eq!(context.user_data.get("files"), Some(&text("x")));
    assert!(builtins().configure_image(&names(&["base"]), &mut context).is_ok());
    assert_eq!(context.user_data.get("files"), None);
}

#[test]
fn placeholders_go_behind_the_items_that_are_there() {
    let p = package("p");
    let q = package("q");
    let mut build = Context::new();
    let first = build.register_build_item(&q, encage_build::item::NullBuildItem::new("x", None));
    assert_eq!(register_placeholders(&mut build, &p), Ok(()));
    assert_eq!(build.build_items.len(), 3);
    assert_eq!(build.build_items.id_at(0), first);
    let image = build.build_items.id_at(1);
    let stage = build.build_items.id_at(2);
    assert_eq!(build.build_items.class_at(1), Some(BuildClass::Image));
    assert_eq!(build.build_items.class_at(2), Some(BuildClass::Stage));
    assert_eq!(build.build_items.package_at(1), &p);
    assert_eq!(build.build_items.package_at(2), &p);
    assert_eq!(build.build_items.item_at(0).to_string(), "x");
    assert_eq!(build.build_items.item_at(1).to_string(), "image");
    assert_eq!(build.build_items.item_at(2).to_string(), "stage");
    assert_eq!(build.dependency_graph.walk(image), Ok(vec![stage, image]));
    assert_eq!(build.dependency_graph.walk(first), Ok(vec![first]));
    let mut context =
        ImageDependencyContext { context: build, package: &q, plugin_data: PluginData::new() };
    assert_eq!(Registry::new().configure_image_dependencies(&mut context), Ok(()));
    assert_eq!(context.context.build_items.len(), 5);
    assert_eq!(context.context.image_dependency(&q), Some(context.context.build_items.id_at(3)));
}
