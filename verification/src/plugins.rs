//! Plugins: what takes the settings of an image and turns them into build
//! items.
//!
//! A plugin belongs to a group, and a package file names the groups it wants.
//! A plugin of a named group is handed every image of the file and takes from
//! its settings what it understands.

use crate::config::{Package, PackageView};
use crate::context::Context;
use crate::item::{BuildClass, EntryView, NullBuildItem};
use crate::parse::{PluginData, PluginError, UserData, Vars};
use crate::text::same_text;
use serde_value::{DeserializerError, Value};
use std::collections::BTreeMap;
use vstd::prelude::*;

verus! {

/// What a plugin is handed when it takes the settings of an image.
pub struct ImageConfigurationContext<'a> {
    pub root_package: &'a Package,
    pub package: &'a Package,
    pub user_data: UserData,
    pub plugin_data: PluginData,
}

/// What a plugin is handed when it registers the build items of an image.
pub struct ImageDependencyContext<'a> {
    pub context: Context,
    pub package: &'a Package,
    pub plugin_data: PluginData,
}

/// Something that understands part of the settings of an image.
///
/// A plugin keeps what it is handed in order: the settings stay settings, and
/// the build stays a build. Beyond that, what a plugin does is its own
/// affair.
pub trait Plugin {
    /// The group that the plugin belongs to. A plugin without a group takes
    /// no settings. A plugin that does not say otherwise has none.
    fn config_group(&self) -> (group: Option<&str>)
        default_ensures
            group is None,
    {
        None
    }

    /// Takes from the settings of an image what the plugin understands. A
    /// plugin that does not say otherwise takes nothing, and succeeds.
    fn configure_image(&self, context: &mut ImageConfigurationContext) -> (done: Result<
        (),
        PluginError,
    >)
        requires
            old(context).user_data.wf(),
        ensures
            final(context).user_data.wf(),
        default_ensures
            done is Ok,
            *final(context) == *old(context),
    {
        Ok(())
    }

    /// Registers the build items of an image. A plugin that does not say
    /// otherwise registers nothing, and succeeds.
    fn configure_image_dependencies(&self, context: &mut ImageDependencyContext) -> (done: Result<
        (),
        (),
    >)
        requires
            old(context).context.wf(),
        ensures
            final(context).context.wf(),
        default_ensures
            done is Ok,
            *final(context) == *old(context),
    {
        Ok(())
    }
}

/// Takes the setting `key` out of the settings of an image and drops it.
fn take_setting(context: &mut ImageConfigurationContext, key: &str) -> (value: Option<Value>)
    requires
        old(context).user_data.wf(),
    ensures
        final(context).user_data.wf(),
        final(context).user_data@ == old(context).user_data@.remove(key@),
        final(context).plugin_data == old(context).plugin_data,
        final(context).package == old(context).package,
        final(context).root_package == old(context).root_package,
        value == (if old(context).user_data@.dom().contains(key@) {
            Some(old(context).user_data@[key@])
        } else {
            None
        }),
{
    context.user_data.remove(key)
}

/// The plugin of the commands of an image.
pub struct CommandsPlugin(());

impl CommandsPlugin {
    pub fn new() -> Self {
        CommandsPlugin(())
    }
}

impl Plugin for CommandsPlugin {
    fn config_group(&self) -> (group: Option<&str>)
        ensures
            group matches Some(name) && name@ == "base"@,
    {
        Some("base")
    }

    /// Takes the setting `commands`.
    fn configure_image(&self, context: &mut ImageConfigurationContext) -> (done: Result<
        (),
        PluginError,
    >)
        ensures
            done is Ok,
            final(context).user_data@ == old(context).user_data@.remove("commands"@),
            final(context).plugin_data == old(context).plugin_data,
    {
        let _ = take_setting(context, "commands");
        Ok(())
    }
}

/// The plugin of the dependencies of an image.
pub struct DependsPlugin(());

impl DependsPlugin {
    pub fn new() -> Self {
        DependsPlugin(())
    }
}

impl Plugin for DependsPlugin {
    fn config_group(&self) -> (group: Option<&str>)
        ensures
            group matches Some(name) && name@ == "base"@,
    {
        Some("base")
    }

    /// Takes the setting `depends`.
    fn configure_image(&self, context: &mut ImageConfigurationContext) -> (done: Result<
        (),
        PluginError,
    >)
        ensures
            done is Ok,
            final(context).user_data@ == old(context).user_data@.remove("depends"@),
            final(context).plugin_data == old(context).plugin_data,
    {
        let _ = take_setting(context, "depends");
        Ok(())
    }
}

/// The plugin of the files of an image.
pub struct FilesPlugin(());

impl FilesPlugin {
    pub fn new() -> Self {
        FilesPlugin(())
    }
}

impl Plugin for FilesPlugin {
    fn config_group(&self) -> (group: Option<&str>)
        ensures
            group matches Some(name) && name@ == "base"@,
    {
        Some("base")
    }

    /// Takes the setting `files`.
    fn configure_image(&self, context: &mut ImageConfigurationContext) -> (done: Result<
        (),
        PluginError,
    >)
        ensures
            done is Ok,
            final(context).user_data@ == old(context).user_data@.remove("files"@),
            final(context).plugin_data == old(context).plugin_data,
    {
        let _ = take_setting(context, "files");
        Ok(())
    }
}

/// The plugin of how an image is built.
pub struct BuildPlugin(());

impl BuildPlugin {
    pub fn new() -> Self {
        BuildPlugin(())
    }
}

impl Plugin for BuildPlugin {
    fn config_group(&self) -> (group: Option<&str>)
        ensures
            group matches Some(name) && name@ == "base"@,
    {
        Some("base")
    }

    /// Takes the settings `build` and `build-commands`.
    fn configure_image(&self, context: &mut ImageConfigurationContext) -> (done: Result<
        (),
        PluginError,
    >)
        ensures
            done is Ok,
            final(context).user_data@ == old(context).user_data@.remove("build"@).remove(
                "build-commands"@,
            ),
            final(context).plugin_data == old(context).plugin_data,
    {
        let _ = take_setting(context, "build");
        let _ = take_setting(context, "build-commands");
        Ok(())
    }
}

/// `serde_value::Value::deserialize_into`, asked for a map from strings to
/// values; the entries of the map are handed out in the order of their
/// names. Nothing is said of when a value is such a map.
#[verifier::external_body]
fn value_into_entries(value: Value) -> (entries: Result<Vec<(String, Value)>, DeserializerError>) {
    value.deserialize_into::<BTreeMap<String, Value>>().map(|map| map.into_iter().collect())
}

/// The plugin of the variables of an image, which templates refer to.
pub struct HandlebarsPlugin(());

impl HandlebarsPlugin {
    pub fn new() -> Self {
        HandlebarsPlugin(())
    }
}

impl Plugin for HandlebarsPlugin {
    fn config_group(&self) -> (group: Option<&str>)
        ensures
            group matches Some(name) && name@ == "handlebars"@,
    {
        Some("handlebars")
    }

    /// Takes the setting `vars`, which has to be a map from names to
    /// values, and keeps the map for the templates of the image.
    fn configure_image(&self, context: &mut ImageConfigurationContext) -> (done: Result<
        (),
        PluginError,
    >)
        ensures
            final(context).user_data@ == old(context).user_data@.remove("vars"@),
            !old(context).user_data@.dom().contains("vars"@) ==> done is Ok
                && final(context).plugin_data == old(context).plugin_data,
            done matches Err(e) ==> e is Value,
    {
        match take_setting(context, "vars") {
            None => Ok(()),
            Some(value) => match value_into_entries(value) {
                Err(e) => Err(PluginError::Value(e)),
                Ok(entries) => {
                    let mut entries = entries;
                    let mut inner = UserData::new();
                    while entries.len() > 0
                        invariant
                            inner.wf(),
                        decreases entries@.len(),
                    {
                        let (name, value) = entries.remove(0);
                        let _ = inner.insert(name, value);
                    }
                    context.plugin_data.set_vars(Vars { inner });
                    Ok(())
                },
            },
        }
    }
}

/// Whether the group `group` is among the groups `names`.
pub open spec fn is_named(group: Seq<char>, names: Seq<String>) -> bool {
    exists|i: int| 0 <= i < names.len() && (#[trigger] names[i])@ == group
}

/// Whether a plugin of the group `group` is asked by a package that names the
/// groups `names`: the plugin has a group, and the group is named.
pub fn is_enabled(group: Option<&str>, names: &Vec<String>) -> (enabled: bool)
    ensures
        enabled == (group matches Some(g) && is_named(g@, names@)),
{
    match group {
        None => false,
        Some(g) => {
            let mut i: usize = 0;
            while i < names.len()
                invariant
                    i <= names.len(),
                    group == Some(g),
                    forall|k: int| 0 <= k < i ==> (#[trigger] names@[k])@ != g@,
                decreases names.len() - i,
            {
                if same_text(names[i].as_str(), g) {
                    assert(names@[i as int]@ == g@);
                    return true;
                }
                i = i + 1;
            }
            false
        },
    }
}

/// Whether a registry that holds `plugins` asks none of them for a package
/// that names the groups `names`, whatever the plugins are: there is no
/// plugin, or no group is named.
pub open spec fn asks_nobody(plugins: Seq<Box<dyn Plugin>>, names: Seq<String>) -> bool {
    plugins.len() == 0 || names.len() == 0
}

/// Whether `after` is the build `before` with the two placeholders of an
/// image of `package` behind its items: the image, under the next handle,
/// and the stage, under the handle after that, on which the image depends.
pub open spec fn with_placeholders(before: Context, after: Context, package: PackageView) -> bool {
    let image = before.dependency_graph@.count as u64;
    let stage = (before.dependency_graph@.count + 1) as u64;
    &&& after.packages == before.packages
    &&& after.dependency_graph@.count == before.dependency_graph@.count + 2
    &&& after.dependency_graph@.edges == before.dependency_graph@.edges.insert((image, stage))
    &&& after.build_items@ == before.build_items@.push(
        EntryView { id: image, package, class: Some(BuildClass::Image) },
    ).push(EntryView { id: stage, package, class: Some(BuildClass::Stage) })
}

/// Registers the two placeholders of an image of `package`: its image, which
/// depends on its stage. This fails, and changes nothing, where the graph
/// has no two handles left.
pub fn register_placeholders(context: &mut Context, package: &Package) -> (done: Result<(), ()>)
    requires
        old(context).wf(),
    ensures
        final(context).wf(),
        done is Ok <==> old(context).dependency_graph@.count + 2 <= u64::MAX,
        done is Ok ==> with_placeholders(*old(context), *final(context), package@),
        done is Err ==> *final(context) == *old(context),
{
    if context.dependency_graph.vacancies() < 2 {
        return Err(());
    }
    let image_id = context.register_placeholder(
        package,
        NullBuildItem::new("image", Some(BuildClass::Image)),
    );
    let stage_id = context.register_placeholder(
        package,
        NullBuildItem::new("stage", Some(BuildClass::Stage)),
    );
    context.dependency_graph.link(image_id, stage_id);
    Ok(())
}

/// The plugins of a build, in the order in which they were registered.
pub struct Registry(Vec<Box<dyn Plugin>>);

impl View for Registry {
    type V = Seq<Box<dyn Plugin>>;

    closed spec fn view(&self) -> Seq<Box<dyn Plugin>> {
        self.0@
    }
}

impl Registry {
    /// No plugins.
    pub fn new() -> (registry: Self)
        ensures
            registry@.len() == 0,
    {
        Registry(Vec::new())
    }

    /// How many plugins are registered.
    pub fn len(&self) -> (n: usize)
        ensures
            n == self@.len(),
    {
        self.0.len()
    }

    /// Registers the plugins that come with the library behind the plugins
    /// that are there: variables, commands, files, build and dependencies,
    /// in this order.
    pub fn register_builtins(&mut self)
        ensures
            final(self)@.len() == old(self)@.len() + 5,
            final(self)@.take(old(self)@.len() as int) == old(self)@,
    {
        self.register_plugin(HandlebarsPlugin::new());
        self.register_plugin(CommandsPlugin::new());
        self.register_plugin(FilesPlugin::new());
        self.register_plugin(BuildPlugin::new());
        self.register_plugin(DependsPlugin::new());
        proof {
            let n = old(self)@.len() as int;
            assert(self@.take(n) =~= self@.drop_last().drop_last().drop_last().drop_last()
                .drop_last());
        }
    }

    /// Registers `p` behind the plugins that are there.
    pub fn register_plugin<P: Plugin + 'static>(&mut self, p: P)
        ensures
            final(self)@.len() == old(self)@.len() + 1,
            final(self)@.drop_last() == old(self)@,
    {
        let boxed: Box<dyn Plugin> = Box::new(p);
        let ghost last = boxed;
        self.0.push(boxed);
        proof {
            vstd::seq::axiom_seq_push_len(old(self)@, last);
            let before = old(self)@;
            assert forall|i: int| 0 <= i < before.len() implies #[trigger] self@[i] == before[i] by {
                vstd::seq::axiom_seq_push_index_different(old(self)@, last, i);
            }
            assert(self@.drop_last() =~= old(self)@);
        }
    }

    /// Hands the image to every plugin whose group is among `plugins`, in the
    /// order of registration, and stops at the first that fails.
    ///
    /// Where no plugin is registered, or no group is named, no plugin is
    /// asked: the work succeeds and the image stays as it is. What the
    /// plugins that are asked do is their own affair.
    pub fn configure_image(&self, plugins: &Vec<String>, context: &mut ImageConfigurationContext) -> (done:
        Result<(), PluginError>)
        requires
            old(context).user_data.wf(),
        ensures
            final(context).user_data.wf(),
            asks_nobody(self@, plugins@) ==> done is Ok && *final(context) == *old(context),
    {
        let mut i: usize = 0;
        while i < self.0.len()
            invariant
                i <= self.0.len(),
                context.user_data.wf(),
                asks_nobody(self@, plugins@) ==> *context == *old(context),
            decreases self.0.len() - i,
        {
            let plugin = &self.0[i];
            assert(plugins@.len() == 0 ==> forall|g: Seq<char>| !is_named(g, plugins@));
            if is_enabled(plugin.config_group(), plugins) {
                match plugin.configure_image(context) {
                    Err(e) => {
                        return Err(e);
                    },
                    Ok(()) => {},
                }
            }
            i = i + 1;
        }
        Ok(())
    }

    /// Hands the image to every plugin, in the order of registration, and
    /// then registers the two placeholders of the image: its image, which
    /// depends on its stage.
    ///
    /// The work fails where a plugin fails, and where the graph has no two
    /// handles left. Where it succeeds, the build is what the plugins made
    /// of it, with the two placeholders behind its items. Without plugins
    /// that is the build as it was with the placeholders, and the work fails
    /// only for want of handles, changing nothing.
    pub fn configure_image_dependencies(&self, context: &mut ImageDependencyContext) -> (done:
        Result<(), ()>)
        requires
            old(context).context.wf(),
        ensures
            final(context).context.wf(),
            done is Ok ==> exists|middle: Context|
                middle.wf() && #[trigger] with_placeholders(
                    middle,
                    final(context).context,
                    old(context).package@,
                ),
            self@.len() == 0 ==> (done is Ok <==> old(context).context.dependency_graph@.count + 2
                <= u64::MAX),
            self@.len() == 0 && done is Ok ==> with_placeholders(
                old(context).context,
                final(context).context,
                old(context).package@,
            ) && final(context).plugin_data == old(context).plugin_data && final(context).package
                == old(context).package,
            self@.len() == 0 && done is Err ==> *final(context) == *old(context),
    {
        let package = context.package;
        let mut i: usize = 0;
        while i < self.0.len()
            invariant
                i <= self.0.len(),
                context.context.wf(),
                package == old(context).package,
                self@.len() == 0 ==> *context == *old(context),
            decreases self.0.len() - i,
        {
            match self.0[i].configure_image_dependencies(context) {
                Err(e) => {
                    return Err(e);
                },
                Ok(()) => {},
            }
            i = i + 1;
        }
        let ghost middle = context.context;
        let done = register_placeholders(&mut context.context, package);
        proof {
            if done is Ok {
                assert(with_placeholders(middle, context.context, old(context).package@));
            }
        }
        done
    }
}

} // verus!
