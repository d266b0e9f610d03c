//! The layout of a new module project: the files and directories that a
//! fresh project starts with, relative to the project's root directory.

use crate::pipeline::{join_path, joined};
use vstd::prelude::*;
use vstd::string::*;

verus! {

/// One thing to create below the project's root.
#[derive(Clone, Debug, PartialEq, Eq)]
pub enum ScaffoldItem {
    /// A file with these contents.
    File { path: String, contents: String },
    /// An empty directory.
    Directory { path: String },
}

/// A scaffold item as the contracts see it.
pub enum ItemView {
    File { path: Seq<char>, contents: Seq<char> },
    Directory { path: Seq<char> },
}

impl View for ScaffoldItem {
    type V = ItemView;

    open spec fn view(&self) -> ItemView {
        match *self {
            ScaffoldItem::File { path, contents } => ItemView::File {
                path: path@,
                contents: contents@,
            },
            ScaffoldItem::Directory { path } => ItemView::Directory { path: path@ },
        }
    }
}

/// The views of `items`, in order.
pub open spec fn item_views(items: Seq<ScaffoldItem>) -> Seq<ItemView> {
    Seq::new(items.len(), |i: int| items[i]@)
}

/// The module descriptor of the module `name`: one `key=value` line for each
/// of identifier, display name, version, version code, author, description
/// and minimum platform version.
pub open spec fn module_descriptor(name: Seq<char>) -> Seq<char> {
    "id="@ + name
        + "\nname=Put module name here\nversion=1.0\nversionCode=1\nauthor=Your name\ndescription=Put module description here\nminMagisk=26000\n"@
}

/// What every script of a new project holds: the interpreter line.
pub open spec fn script_stub() -> Seq<char> {
    "#!/system/bin/sh\n"@
}

/// A script of a new project.
pub open spec fn script(path: Seq<char>) -> ItemView {
    ItemView::File { path, contents: script_stub() }
}

/// An empty file.
pub open spec fn empty_file(path: Seq<char>) -> ItemView {
    ItemView::File { path, contents: Seq::empty() }
}

/// The layout of the project of the module `name`, in the order of creation:
/// the descriptor, four scripts, two empty configuration files, and six
/// directories.
pub open spec fn layout(name: Seq<char>) -> Seq<ItemView> {
    seq![
        ItemView::File { path: "module.prop"@, contents: module_descriptor(name) },
        script("customize.sh"@),
        script("post-fs-data.sh"@),
        script("service.sh"@),
        script("uninstall.sh"@),
        empty_file("sepolicy.rule"@),
        empty_file("system.prop"@),
        ItemView::Directory { path: "post-fs-data.d"@ },
        ItemView::Directory { path: "service.d"@ },
        ItemView::Directory { path: "system"@ },
        ItemView::Directory { path: "vendor"@ },
        ItemView::Directory { path: "product"@ },
        ItemView::Directory { path: "system_ext"@ },
    ]
}

/// The root directory of the project `name`: below `parent` if there is one,
/// else `name` itself.
pub open spec fn spec_project_root(name: Seq<char>, parent: Option<Seq<char>>) -> Seq<char> {
    match parent {
        Some(dir) => joined(dir, name),
        None => name,
    }
}

/// Gives the root directory of the project `name`.
pub fn project_root(name: &str, parent: Option<&str>) -> (r: String)
    ensures
        r@ == spec_project_root(
            name@,
            match parent {
                Some(dir) => Some(dir@),
                None => None,
            },
        ),
{
    match parent {
        Some(dir) => join_path(dir, name),
        None => String::from_str(name),
    }
}

fn script_item(path: &str) -> (item: ScaffoldItem)
    ensures
        item@ == script(path@),
{
    ScaffoldItem::File {
        path: String::from_str(path),
        contents: String::from_str("#!/system/bin/sh\n"),
    }
}

fn empty_item(path: &str) -> (item: ScaffoldItem)
    ensures
        item@ == empty_file(path@),
{
    ScaffoldItem::File { path: String::from_str(path), contents: String::new() }
}

fn directory_item(path: &str) -> (item: ScaffoldItem)
    ensures
        item@ == (ItemView::Directory { path: path@ }),
{
    ScaffoldItem::Directory { path: String::from_str(path) }
}

/// Lays out the project of the module `name`.
pub fn create_new_project(name: &str) -> (items: Vec<ScaffoldItem>)
    ensures
        item_views(items@) == layout(name@),
{
    let mut descriptor = String::from_str("id=");
    descriptor.append(name);
    descriptor.append(
        "\nname=Put module name here\nversion=1.0\nversionCode=1\nauthor=Your name\ndescription=Put module description here\nminMagisk=26000\n",
    );
    let mut items: Vec<ScaffoldItem> = Vec::new();
    items.push(ScaffoldItem::File { path: String::from_str("module.prop"), contents: descriptor });
    items.push(script_item("customize.sh"));
    items.push(script_item("post-fs-data.sh"));
    items.push(script_item("service.sh"));
    items.push(script_item("uninstall.sh"));
    items.push(empty_item("sepolicy.rule"));
    items.push(empty_item("system.prop"));
    items.push(directory_item("post-fs-data.d"));
    items.push(directory_item("service.d"));
    items.push(directory_item("system"));
    items.push(directory_item("vendor"));
    items.push(directory_item("product"));
    items.push(directory_item("system_ext"));
    assert(item_views(items@) =~= layout(name@));
    items
}

} // verus!
