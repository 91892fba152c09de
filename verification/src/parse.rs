//! What a package file says of its images, once it is read: the package of
//! each image, the kind of the image, and what the plugins made of the rest.

use crate::config::{absolute, Package, PackageView};
use crate::plugins::{asks_nobody, ImageConfigurationContext, Registry};
use crate::text::{
    comes_before, lemma_text_order_total, lemma_text_order_transitive, same_text, text_before,
};
use serde_value::{DeserializerError, Value};
use vstd::prelude::*;

verus! {

/// `serde_value::Value`, a value of any shape, which is kept and handed on
/// but never looked into.
#[verifier::external_type_specification]
#[verifier::external_body]
pub struct ExValue(Value);

/// `serde_value::DeserializerError`, which is handed on as it comes.
#[verifier::external_type_specification]
#[verifier::external_body]
pub struct ExDeserializerError(DeserializerError);

/// Why an image could not be described.
#[derive(Debug)]
pub enum PluginError {
    /// A plugin could not read a value.
    Value(DeserializerError),
    /// The image has a setting that no plugin took.
    UnknownField(String),
}

/// The settings of an image that are left to the plugins: values by name.
pub struct UserData {
    keys: Vec<String>,
    values: Vec<Value>,
    map: Ghost<Map<Seq<char>, Value>>,
}

impl View for UserData {
    type V = Map<Seq<char>, Value>;

    closed spec fn view(&self) -> Map<Seq<char>, Value> {
        self.map@
    }
}

/// Whether `key` is the name in `map` that comes first in the order of
/// strings.
pub open spec fn is_least_key(map: Map<Seq<char>, Value>, key: Seq<char>) -> bool {
    &&& map.dom().contains(key)
    &&& forall|other: Seq<char>| #[trigger]
        map.dom().contains(other) ==> other == key || text_before(key, other)
}

impl UserData {
    /// The invariant of the settings: every name stands once.
    pub closed spec fn wf(&self) -> bool {
        &&& self.keys@.len() == self.values@.len()
        &&& forall|i: int|
            0 <= i < self.keys@.len() ==> self.map@.dom().contains((#[trigger] self.keys@[i])@)
                && self.map@[self.keys@[i]@] == self.values@[i]
        &&& forall|k: Seq<char>| #[trigger]
            self.map@.dom().contains(k) ==> exists|i: int|
                0 <= i < self.keys@.len() && (#[trigger] self.keys@[i])@ == k
        &&& forall|i: int, j: int|
            0 <= i < j < self.keys@.len() ==> (#[trigger] self.keys@[i])@ != (
            #[trigger] self.keys@[j])@
    }

    /// No settings.
    pub fn new() -> (data: Self)
        ensures
            data.wf(),
            data@ == Map::<Seq<char>, Value>::empty(),
    {
        UserData { keys: Vec::new(), values: Vec::new(), map: Ghost(Map::empty()) }
    }

    /// Where the name `key` stands, if it is there.
    fn position(&self, key: &str) -> (at: Option<usize>)
        requires
            self.wf(),
        ensures
            match at {
                Some(i) => i < self.keys@.len() && self.keys@[i as int]@ == key@,
                None => !self@.dom().contains(key@),
            },
    {
        let mut i: usize = 0;
        while i < self.keys.len()
            invariant
                self.wf(),
                i <= self.keys.len(),
                forall|k: int| 0 <= k < i ==> (#[trigger] self.keys@[k])@ != key@,
            decreases self.keys.len() - i,
        {
            if same_text(self.keys[i].as_str(), key) {
                return Some(i);
            }
            i = i + 1;
        }
        None
    }

    /// Whether there is no setting.
    pub fn is_empty(&self) -> (empty: bool)
        requires
            self.wf(),
        ensures
            empty == (self@ == Map::<Seq<char>, Value>::empty()),
    {
        let empty = self.keys.len() == 0;
        proof {
            if empty {
                assert(self@ =~= Map::<Seq<char>, Value>::empty());
            } else {
                assert(self@.dom().contains(self.keys@[0]@));
            }
        }
        empty
    }

    /// The value of the setting `key`, if it is there.
    pub fn get(&self, key: &str) -> (value: Option<&Value>)
        requires
            self.wf(),
        ensures
            value == (if self@.dom().contains(key@) {
                Some(&self@[key@])
            } else {
                None
            }),
    {
        match self.position(key) {
            None => None,
            Some(i) => Some(&self.values[i]),
        }
    }

    /// The names of the settings, each once, in no particular order.
    pub fn names(&self) -> (names: Vec<String>)
        requires
            self.wf(),
        ensures
            forall|k: Seq<char>| #[trigger]
                self@.dom().contains(k) <==> exists|i: int|
                    0 <= i < names@.len() && (#[trigger] names@[i])@ == k,
            forall|i: int, j: int|
                0 <= i < j < names@.len() ==> (#[trigger] names@[i])@ != (#[trigger] names@[j])@,
    {
        let mut names: Vec<String> = Vec::new();
        let mut i: usize = 0;
        while i < self.keys.len()
            invariant
                self.wf(),
                i <= self.keys.len(),
                names@.len() == i,
                forall|k: int| 0 <= k < i ==> (#[trigger] names@[k])@ == self.keys@[k]@,
            decreases self.keys.len() - i,
        {
            names.push(self.keys[i].clone());
            i = i + 1;
        }
        proof {
            assert forall|k: Seq<char>| #[trigger] self@.dom().contains(k) implies exists|i: int|
                0 <= i < names@.len() && (#[trigger] names@[i])@ == k by {
                let i = choose|i: int| 0 <= i < self.keys@.len() && (#[trigger] self.keys@[i])@
                    == k;
                assert(names@[i]@ == k);
            }
            assert forall|k: Seq<char>|
                (exists|i: int| 0 <= i < names@.len() && (#[trigger] names@[i])@ == k)
                    implies #[trigger] self@.dom().contains(k) by {
                let i = choose|i: int| 0 <= i < names@.len() && (#[trigger] names@[i])@ == k;
                assert(self@.dom().contains(self.keys@[i]@));
            }
            assert forall|i: int, j: int| 0 <= i < j < names@.len() implies (#[trigger] names@[i])@
                != (#[trigger] names@[j])@ by {
                assert(self.keys@[i]@ != self.keys@[j]@);
            }
        }
        names
    }

    /// Takes the setting `key` out and hands back its value, if it is there.
    pub fn remove(&mut self, key: &str) -> (value: Option<Value>)
        requires
            old(self).wf(),
        ensures
            final(self).wf(),
            final(self)@ == old(self)@.remove(key@),
            value == (if old(self)@.dom().contains(key@) {
                Some(old(self)@[key@])
            } else {
                None
            }),
    {
        match self.position(key) {
            None => {
                assert(self@ =~= old(self)@.remove(key@));
                None
            },
            Some(i) => {
                let ghost keys = self.keys@;
                let ghost values = self.values@;
                self.keys.remove(i);
                let value = self.values.remove(i);
                self.map = Ghost(self.map@.remove(key@));
                proof {
                    assert forall|k: int| 0 <= k < self.keys@.len() implies self.map@.dom().contains(
                        (#[trigger] self.keys@[k])@,
                    ) && self.map@[self.keys@[k]@] == self.values@[k] by {
                        let from = if k < i {
                            k
                        } else {
                            k + 1
                        };
                        assert(self.keys@[k] == keys[from]);
                        assert(self.values@[k] == values[from]);
                        assert(keys[from]@ != keys[i as int]@);
                    }
                    assert forall|name: Seq<char>| #[trigger]
                        self.map@.dom().contains(name) implies exists|k: int|
                        0 <= k < self.keys@.len() && (#[trigger] self.keys@[k])@ == name by {
                        let from = choose|from: int|
                            0 <= from < keys.len() && (#[trigger] keys[from])@ == name;
                        let k = if from < i {
                            from
                        } else {
                            from - 1
                        };
                        assert(self.keys@[k] == keys[from]);
                    }
                    assert forall|a: int, b: int| 0 <= a < b < self.keys@.len() implies (
                    #[trigger] self.keys@[a])@ != (#[trigger] self.keys@[b])@ by {
                        let fa = if a < i {
                            a
                        } else {
                            a + 1
                        };
                        let fb = if b < i {
                            b
                        } else {
                            b + 1
                        };
                        assert(self.keys@[a] == keys[fa]);
                        assert(self.keys@[b] == keys[fb]);
                    }
                }
                Some(value)
            },
        }
    }

    /// Sets `key` to `value` and hands back the value that `key` had, if it
    /// had one.
    pub fn insert(&mut self, key: String, value: Value) -> (before: Option<Value>)
        requires
            old(self).wf(),
        ensures
            final(self).wf(),
            final(self)@ == old(self)@.insert(key@, value),
            before == (if old(self)@.dom().contains(key@) {
                Some(old(self)@[key@])
            } else {
                None
            }),
    {
        let before = self.remove(key.as_str());
        let ghost keys = self.keys@;
        let ghost values = self.values@;
        let ghost middle = self.map@;
        self.map = Ghost(self.map@.insert(key@, value));
        self.keys.push(key);
        self.values.push(value);
        proof {
            assert(self.map@ =~= old(self)@.insert(key@, value));
            assert forall|k: int| 0 <= k < self.keys@.len() implies self.map@.dom().contains(
                (#[trigger] self.keys@[k])@,
            ) && self.map@[self.keys@[k]@] == self.values@[k] by {
                if k < keys.len() {
                    assert(self.keys@[k] == keys[k]);
                    assert(middle.dom().contains(keys[k]@));
                }
            }
            assert forall|name: Seq<char>| #[trigger]
                self.map@.dom().contains(name) implies exists|k: int|
                0 <= k < self.keys@.len() && (#[trigger] self.keys@[k])@ == name by {
                if name == key@ {
                    assert(self.keys@[keys.len() as int]@ == name);
                } else {
                    assert(middle.dom().contains(name));
                    let k = choose|k: int| 0 <= k < keys.len() && (#[trigger] keys[k])@ == name;
                    assert(self.keys@[k] == keys[k]);
                }
            }
            assert forall|a: int, b: int| 0 <= a < b < self.keys@.len() implies (
            #[trigger] self.keys@[a])@ != (#[trigger] self.keys@[b])@ by {
                assert(self.keys@[a] == keys[a]);
                if b < keys.len() {
                    assert(self.keys@[b] == keys[b]);
                } else {
                    assert(middle.dom().contains(keys[a]@));
                }
            }
        }
        before
    }

    /// The name that comes first in the order of strings, if there is a
    /// setting.
    pub fn first_key(&self) -> (first: Option<&String>)
        requires
            self.wf(),
        ensures
            match first {
                Some(key) => is_least_key(self@, key@),
                None => self@ == Map::<Seq<char>, Value>::empty(),
            },
    {
        if self.keys.len() == 0 {
            assert(self@ =~= Map::<Seq<char>, Value>::empty());
            return None;
        }
        let mut least: usize = 0;
        let mut i: usize = 1;
        while i < self.keys.len()
            invariant
                self.wf(),
                least < i <= self.keys.len(),
                forall|k: int|
                    0 <= k < i ==> (#[trigger] self.keys@[k])@ == self.keys@[least as int]@
                        || text_before(self.keys@[least as int]@, self.keys@[k]@),
            decreases self.keys.len() - i,
        {
            let ghost old_least = self.keys@[least as int]@;
            if comes_before(self.keys[i].as_str(), self.keys[least].as_str()) {
                proof {
                    let now = self.keys@[i as int]@;
                    assert forall|k: int| 0 <= k < i + 1 implies (#[trigger] self.keys@[k])@ == now
                        || text_before(now, self.keys@[k]@) by {
                        if k < i && self.keys@[k]@ != old_least {
                            lemma_text_order_transitive(now, old_least, self.keys@[k]@);
                        }
                    }
                }
                least = i;
            } else {
                proof {
                    lemma_text_order_total(old_least, self.keys@[i as int]@);
                }
            }
            i = i + 1;
        }
        proof {
            let key = self.keys@[least as int]@;
            assert forall|other: Seq<char>| #[trigger] self@.dom().contains(other) implies other
                == key || text_before(key, other) by {
                let k = choose|k: int| 0 <= k < self.keys@.len() && (#[trigger] self.keys@[k])@
                    == other;
                assert(self.keys@[k]@ == key || text_before(key, self.keys@[k]@));
            }
        }
        Some(&self.keys[least])
    }
}

/// The variables of an image, kept for templates.
pub struct Vars {
    pub inner: UserData,
}

/// What the plugins keep of an image.
pub struct PluginData {
    vars: Option<Vars>,
}

impl PluginData {
    /// Nothing kept.
    pub fn new() -> (data: Self)
        ensures
            data.vars() is None,
    {
        PluginData { vars: None }
    }

    /// The variables that are kept, if any.
    pub closed spec fn vars(&self) -> Option<Vars> {
        self.vars
    }

    /// Keeps `vars` in place of what was kept.
    pub fn set_vars(&mut self, vars: Vars)
        ensures
            final(self).vars() == Some(vars),
    {
        self.vars = Some(vars);
    }

    /// The variables that are kept, if any.
    pub fn get_vars(&self) -> (vars: Option<&Vars>)
        ensures
            match vars {
                Some(v) => self.vars() == Some(*v),
                None => self.vars() is None,
            },
    {
        match &self.vars {
            Some(v) => Some(v),
            None => None,
        }
    }
}

/// What an image is for.
#[derive(Copy, Clone, Debug, PartialEq, Eq, Structural)]
pub enum ImageKind {
    /// An image of tools that run on the building host.
    Host,
    /// An image that is run as a container.
    Container,
}

impl Default for ImageKind {
    /// An image is a container unless it says otherwise.
    fn default() -> (kind: Self)
        ensures
            kind == ImageKind::Container,
    {
        ImageKind::Container
    }
}

/// The kind that a package file means by `name`, if any.
pub open spec fn image_kind_of(name: Seq<char>) -> Option<ImageKind> {
    if name == "host"@ {
        Some(ImageKind::Host)
    } else if name == "container"@ {
        Some(ImageKind::Container)
    } else {
        None
    }
}

impl ImageKind {
    /// Reads the kind of an image: `host` or `container`.
    pub fn from_str(str: &str) -> (kind: Option<Self>)
        ensures
            kind == image_kind_of(str@),
    {
        if same_text(str, "host") {
            Some(ImageKind::Host)
        } else if same_text(str, "container") {
            Some(ImageKind::Container)
        } else {
            None
        }
    }
}

/// An image, described.
pub struct ImageDesc {
    pub package: Package,
    pub kind: ImageKind,
    pub plugin_data: PluginData,
}

/// An image as a package file gives it: a name, a kind, and the settings that
/// are left to the plugins.
pub struct ImageSource {
    pub name: String,
    pub kind: ImageKind,
    pub user_data: UserData,
}

/// Closes the description of an image, once the plugins have taken their
/// settings. A setting that is left is one that nobody knows: the image is
/// refused, and the error names the first of them in the order of strings.
pub fn finish_image(
    package: Package,
    kind: ImageKind,
    user_data: &UserData,
    plugin_data: PluginData,
) -> (r: Result<ImageDesc, PluginError>)
    requires
        user_data.wf(),
    ensures
        match r {
            Ok(image) => user_data@ == Map::<Seq<char>, Value>::empty() && image.package == package
                && image.kind == kind && image.plugin_data == plugin_data,
            Err(PluginError::UnknownField(name)) => is_least_key(user_data@, name@),
            Err(PluginError::Value(_)) => false,
        },
{
    match user_data.first_key() {
        Some(name) => Err(PluginError::UnknownField(name.clone())),
        None => Ok(ImageDesc { package, kind, plugin_data }),
    }
}

/// Whether the first `n` of the images `images` have no settings.
pub open spec fn no_settings_before(images: Seq<ImageSource>, n: int) -> bool {
    forall|j: int| 0 <= j < n ==> (#[trigger] images[j]).user_data@ == Map::<Seq<char>, Value>::empty()
}

/// Describes the images of a package file.
///
/// Each image belongs to the package `root_package`, under the name that its
/// own name resolves to. The plugins named in `plugins` take their settings
/// from the image, and what they leave makes the image unknown. The first
/// image that fails ends the work. If the work succeeds, the images come
/// out in their order, each with its package and kind.
///
/// What a plugin does is its own affair. Where no plugin is asked, because
/// none is registered or no group is named, every setting is left: the work
/// succeeds exactly when no image has settings, and else fails at the first
/// image that has some, over the first of its settings in the order of
/// strings. Without images the work succeeds.
pub fn describe_images(
    root_package: &Package,
    plugins: &Vec<String>,
    images: Vec<ImageSource>,
    registry: &Registry,
) -> (r: Result<Vec<ImageDesc>, PluginError>)
    requires
        forall|i: int| 0 <= i < images@.len() ==> (#[trigger] images@[i]).user_data.wf(),
    ensures
        r matches Ok(list) ==> list@.len() == images@.len() && forall|i: int|
            0 <= i < list@.len() ==> (#[trigger] list@[i]).kind == images@[i].kind
                && list@[i].package@ == (PackageView {
                name: absolute(root_package.name@, images@[i].name@),
                version: root_package.version,
            }),
        images@.len() == 0 ==> r is Ok,
        asks_nobody(registry@, plugins@) ==> (match r {
            Ok(list) => no_settings_before(images@, images@.len() as int) && forall|i: int|
                0 <= i < list@.len() ==> (#[trigger] list@[i]).plugin_data.vars() is None,
            Err(PluginError::UnknownField(name)) => exists|i: int|
                0 <= i < images@.len() && no_settings_before(images@, i) && is_least_key(
                    (#[trigger] images@[i]).user_data@,
                    name@,
                ),
            Err(PluginError::Value(_)) => false,
        }),
{
    let mut rest = images;
    let mut list: Vec<ImageDesc> = Vec::new();
    while rest.len() > 0
        invariant
            list@.len() + rest@.len() == images@.len(),
            asks_nobody(registry@, plugins@) ==> no_settings_before(images@, list@.len() as int)
                && forall|i: int|
                0 <= i < list@.len() ==> (#[trigger] list@[i]).plugin_data.vars() is None,
            forall|i: int| 0 <= i < rest@.len() ==> rest@[i] == images@[list@.len() + i],
            forall|i: int| 0 <= i < images@.len() ==> (#[trigger] images@[i]).user_data.wf(),
            forall|i: int|
                0 <= i < list@.len() ==> (#[trigger] list@[i]).kind == images@[i].kind
                    && list@[i].package@ == (PackageView {
                    name: absolute(root_package.name@, images@[i].name@),
                    version: root_package.version,
                }),
        decreases rest@.len(),
    {
        let ghost at = list@.len() as int;
        let ghost before = list@;
        let image = rest.remove(0);
        assert(image == images@[at]);
        let ImageSource { name, kind, user_data } = image;
        let ghost settings = user_data;
        let package = root_package.clone().into_absolute(name.as_str());
        let mut context = ImageConfigurationContext {
            root_package,
            package: &package,
            user_data,
            plugin_data: PluginData::new(),
        };
        let configured = registry.configure_image(plugins, &mut context);
        let ImageConfigurationContext { user_data, plugin_data, .. } = context;
        assert(asks_nobody(registry@, plugins@) ==> configured is Ok && user_data == settings
            && plugin_data.vars() is None);
        match configured {
            Err(e) => {
                return Err(e);
            },
            Ok(()) => {},
        }
        match finish_image(package, kind, &user_data, plugin_data) {
            Err(e) => {
                assert(asks_nobody(registry@, plugins@) ==> images@[at].user_data == settings);
                return Err(e);
            },
            Ok(described) => {
                list.push(described);
            },
        }
        proof {
            assert forall|i: int| 0 <= i < list@.len() implies (#[trigger] list@[i]).kind
                == images@[i].kind && list@[i].package@ == (PackageView {
                name: absolute(root_package.name@, images@[i].name@),
                version: root_package.version,
            }) by {
                if i < at {
                    assert(list@[i] == before[i]);
                }
            }
            if asks_nobody(registry@, plugins@) {
                assert(images@[at].user_data == settings);
                assert forall|i: int| 0 <= i < list@.len() implies (
                #[trigger] list@[i]).plugin_data.vars() is None by {
                    if i < at {
                        assert(list@[i] == before[i]);
                    }
                }
            }
        }
    }
    Ok(list)
}

} // verus!
