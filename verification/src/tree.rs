//! The directory tree of a project as the explorer shows it.
use vstd::prelude::*;

use crate::path;
use crate::string_set::StringSet;
use crate::text;

verus! {

/// A file, or a directory with its children.
pub struct FileNode {
    pub name: String,
    pub path: String,
    pub children: Option<Vec<FileNode>>,
}

/// An entry of the shown tree.
pub struct TreeItem {
    pub id: String,
    pub label: String,
    pub expanded: bool,
    pub children: Vec<TreeItem>,
}

/// The model of a shown entry.
pub struct ItemModel {
    pub id: Seq<char>,
    pub label: Seq<char>,
    pub expanded: bool,
    pub children: Seq<ItemModel>,
}

/// The model of an entry.
pub open spec fn item_model(item: TreeItem) -> ItemModel
    decreases item,
{
    ItemModel {
        id: item.id@,
        label: item.label@,
        expanded: item.expanded,
        children: item_models(item.children@),
    }
}

/// The models of a list of entries.
pub open spec fn item_models(items: Seq<TreeItem>) -> Seq<ItemModel>
    decreases items,
{
    if items.len() == 0 {
        Seq::empty()
    } else {
        item_models(items.drop_last()).push(item_model(items.last()))
    }
}

/// Whether a directory holds one directory and nothing else.
pub open spec fn single_dir(node: FileNode) -> bool {
    match node.children {
        Some(c) => c@.len() == 1 && c@[0].children is Some,
        None => false,
    }
}

/// The end of the chain of directories that hold one directory each.
pub open spec fn chain_end(node: FileNode) -> FileNode
    decreases node,
{
    match node.children {
        Some(c) => if c@.len() == 1 && c@[0].children is Some {
            chain_end(c@[0])
        } else {
            node
        },
        None => node,
    }
}

/// The names along that chain after `label`, with slashes between them.
pub open spec fn chain_label(node: FileNode, label: Seq<char>) -> Seq<char>
    decreases node,
{
    match node.children {
        Some(c) => if c@.len() == 1 && c@[0].children is Some {
            chain_label(c@[0], label + "/"@ + c@[0].name@)
        } else {
            label
        },
        None => label,
    }
}

/// How a node is shown: a chain of directories that hold one directory each is one entry.
pub open spec fn shown_node(node: FileNode, expanded: Set<Seq<char>>) -> ItemModel
    decreases node, 1int,
{
    shown_from(node, node.name@, expanded)
}

/// How a node is shown under the label `label`.
pub open spec fn shown_from(
    node: FileNode,
    label: Seq<char>,
    expanded: Set<Seq<char>>,
) -> ItemModel
    decreases node, 0int,
{
    match node.children {
        Some(c) => if c@.len() == 1 && c@[0].children is Some {
            shown_from(c@[0], label + "/"@ + c@[0].name@, expanded)
        } else {
            ItemModel {
                id: node.path@,
                label,
                expanded: expanded.contains(node.path@),
                children: shown_nodes(c@, expanded),
            }
        },
        None => ItemModel {
            id: node.path@,
            label,
            expanded: expanded.contains(node.path@),
            children: Seq::empty(),
        },
    }
}

/// How a list of nodes is shown.
pub open spec fn shown_nodes(nodes: Seq<FileNode>, expanded: Set<Seq<char>>) -> Seq<ItemModel>
    decreases nodes, 0int,
{
    if nodes.len() == 0 {
        Seq::empty()
    } else {
        shown_nodes(nodes.drop_last(), expanded).push(shown_node(nodes.last(), expanded))
    }
}

fn shown_item(node: &FileNode, label: String, expanded: &StringSet) -> (item: TreeItem)
    ensures
        item_model(item) == shown_from(*node, label@, expanded@),
    decreases *node,
{
    match &node.children {
        Some(c) => {
            if c.len() == 1 && c[0].children.is_some() {
                let next = text::cat3(label.as_str(), "/", c[0].name.as_str());
                return shown_item(&c[0], next, expanded);
            }
            let mut children: Vec<TreeItem> = Vec::new();
            let mut i: usize = 0;
            assert(c@.take(0) =~= Seq::<FileNode>::empty());
            while i < c.len()
                invariant
                    i <= c@.len(),
                    node.children == Some(*c),
                    item_models(children@) == shown_nodes(c@.take(i as int), expanded@),
                decreases c@.len() - i,
            {
                let child = &c[i];
                assert(decreases_to!(*node => node.children->0@[i as int]));
                let item = shown_item(child, child.name.clone(), expanded);
                let ghost prev = children@;
                children.push(item);
                assert(children@.drop_last() =~= prev);
                assert(c@.take(i + 1).drop_last() =~= c@.take(i as int));
                assert(c@.take(i + 1).last() == *child);
                assert(item_model(item) == shown_node(*child, expanded@));
                i += 1;
            }
            assert(c@.take(c@.len() as int) =~= c@);
            let open = expanded.contains(node.path.as_str());
            TreeItem { id: node.path.clone(), label, expanded: open, children }
        },
        None => {
            let open = expanded.contains(node.path.as_str());
            TreeItem { id: node.path.clone(), label, expanded: open, children: Vec::new() }
        },
    }
}

/// How a node is shown.
pub fn file_node_to_tree_item(node: &FileNode, expanded: &StringSet) -> (item: TreeItem)
    ensures
        item_model(item) == shown_node(*node, expanded@),
{
    shown_item(node, node.name.clone(), expanded)
}

/// The entries of a project's tree: what the root directory holds, or the root where it is a file.
pub fn tree_items_from_node(node: &FileNode, expanded: &StringSet) -> (items: Vec<TreeItem>)
    ensures
        item_models(items@) == shown_tree(*node, expanded@),
{
    let mut items: Vec<TreeItem> = Vec::new();
    match &node.children {
        Some(c) => {
            let mut i: usize = 0;
            assert(c@.take(0) =~= Seq::<FileNode>::empty());
            while i < c.len()
                invariant
                    i <= c@.len(),
                    item_models(items@) == shown_nodes(c@.take(i as int), expanded@),
                decreases c@.len() - i,
            {
                let item = file_node_to_tree_item(&c[i], expanded);
                let ghost prev = items@;
                items.push(item);
                assert(items@.drop_last() =~= prev);
                assert(c@.take(i + 1).drop_last() =~= c@.take(i as int));
                i += 1;
            }
            assert(c@.take(c@.len() as int) =~= c@);
        },
        None => {
            let item = file_node_to_tree_item(node, expanded);
            items.push(item);
            assert(items@.drop_last() =~= Seq::<TreeItem>::empty());
            assert(item_models(items@.drop_last()) =~= Seq::<ItemModel>::empty());
            assert(item_models(items@) =~= seq![shown_node(*node, expanded@)]);
        },
    }
    items
}

/// The entries of a project's tree.
pub open spec fn shown_tree(node: FileNode, expanded: Set<Seq<char>>) -> Seq<ItemModel> {
    match node.children {
        Some(c) => shown_nodes(c@, expanded),
        None => seq![shown_node(node, expanded)],
    }
}

/// A chain of directories is one entry: it has the path of the last directory and the names of all.
pub proof fn law_chain_is_one_entry(node: FileNode, expanded: Set<Seq<char>>)
    ensures
        shown_node(node, expanded).id == chain_end(node).path@,
        shown_node(node, expanded).label == chain_label(node, node.name@),
        !single_dir(chain_end(node)),
{
    lemma_chain(node, node.name@, expanded);
}

proof fn lemma_chain(node: FileNode, label: Seq<char>, expanded: Set<Seq<char>>)
    ensures
        shown_from(node, label, expanded).id == chain_end(node).path@,
        shown_from(node, label, expanded).label == chain_label(node, label),
        !single_dir(chain_end(node)),
    decreases node,
{
    match node.children {
        Some(c) => {
            if c@.len() == 1 && c@[0].children is Some {
                lemma_chain(c@[0], label + "/"@ + c@[0].name@, expanded);
            }
        },
        None => {},
    }
}

/// `dir` and the directories above it, up to `root`, which is left out.
pub open spec fn dirs_up_to(dir: Option<Seq<char>>, root: Seq<char>) -> Set<Seq<char>>
    decreases
            (match dir {
                Some(d) => d.len() + 1,
                None => 0nat,
            }),
{
    match dir {
        Some(d) => if path::same(d, root) || !path::within(d, root) {
            Set::empty()
        } else {
            proof {
                path::law_parent_is_shorter(d);
            }
            dirs_up_to(path::parent_of(d), root).insert(d)
        },
        None => Set::empty(),
    }
}

/// The directories between `root` and `file`, both left out.
pub open spec fn ancestors(file: Seq<char>, root: Seq<char>) -> Set<Seq<char>> {
    dirs_up_to(path::parent_of(file), root)
}

/// Revealing a file opens folders of the project only, and not the project itself.
pub proof fn law_only_folders_of_the_project_open(file: Seq<char>, root: Seq<char>, d: Seq<char>)
    requires
        ancestors(file, root).contains(d),
    ensures
        path::within(d, root),
        !path::same(d, root),
{
    lemma_dirs_up_to(path::parent_of(file), root, d);
}

proof fn lemma_dirs_up_to(dir: Option<Seq<char>>, root: Seq<char>, d: Seq<char>)
    requires
        dirs_up_to(dir, root).contains(d),
    ensures
        path::within(d, root),
        !path::same(d, root),
    decreases
            (match dir {
                Some(p) => p.len() + 1,
                None => 0nat,
            }),
{
    if let Some(p) = dir {
        if p != d {
            path::law_parent_is_shorter(p);
            lemma_dirs_up_to(path::parent_of(p), root, d);
        }
    }
}

fn expand_up(expanded: &mut StringSet, dir: Option<String>, root: &str)
    requires
        old(expanded).inv(),
    ensures
        final(expanded).inv(),
        final(expanded)@ == old(expanded)@.union(dirs_up_to(text::opt_text(dir), root@)),
    decreases
            (match dir {
                Some(d) => d@.len() + 1,
                None => 0nat,
            }),
{
    let ghost all = old(expanded)@.union(dirs_up_to(text::opt_text(dir), root@));
    if let Some(d) = dir {
        if !path::eq(d.as_str(), root) && path::starts_with(d.as_str(), root) {
            let up = path::parent(d.as_str());
            proof {
                path::law_parent_is_shorter(d@);
            }
            expanded.insert(d);
            expand_up(expanded, up, root);
        }
    }
    assert(expanded@ =~= all);
}

/// Expands every directory between `root` and `file`.
pub fn reveal_ancestors(expanded: &mut StringSet, file: &str, root: &str)
    requires
        old(expanded).inv(),
    ensures
        final(expanded).inv(),
        final(expanded)@ == old(expanded)@.union(ancestors(file@, root@)),
{
    expand_up(expanded, path::parent(file), root);
}

/// Whether `p` holds of an entry and of all entries below it.
pub open spec fn throughout(item: ItemModel, p: spec_fn(ItemModel) -> bool) -> bool
    decreases item,
{
    p(item) && forall|i: int|
        0 <= i < item.children.len() ==> throughout(#[trigger] item.children[i], p)
}

/// At any depth an entry is open exactly when its path is among the opened ones.
pub proof fn law_entries_are_open_as_kept(node: FileNode, expanded: Set<Seq<char>>)
    ensures
        throughout(
            shown_node(node, expanded),
            |m: ItemModel| m.expanded == expanded.contains(m.id),
        ),
        forall|i: int|
            0 <= i < shown_tree(node, expanded).len() ==> throughout(
                #[trigger] shown_tree(node, expanded)[i],
                |m: ItemModel| m.expanded == expanded.contains(m.id),
            ),
{
    let p = |m: ItemModel| m.expanded == expanded.contains(m.id);
    lemma_open_from(node, node.name@, expanded);
    if let Some(c) = node.children {
        assert forall|i: int| 0 <= i < shown_tree(node, expanded).len() implies throughout(
            #[trigger] shown_tree(node, expanded)[i],
            p,
        ) by {
            lemma_shown_nodes(c@, expanded);
            lemma_open_from(c@[i], c@[i].name@, expanded);
        }
    }
}

proof fn lemma_shown_nodes(nodes: Seq<FileNode>, expanded: Set<Seq<char>>)
    ensures
        shown_nodes(nodes, expanded).len() == nodes.len(),
        forall|i: int|
            0 <= i < nodes.len() ==> #[trigger] shown_nodes(nodes, expanded)[i] == shown_node(
                nodes[i],
                expanded,
            ),
    decreases nodes.len(),
{
    if nodes.len() > 0 {
        lemma_shown_nodes(nodes.drop_last(), expanded);
    }
}

proof fn lemma_open_from(node: FileNode, label: Seq<char>, expanded: Set<Seq<char>>)
    ensures
        throughout(
            shown_from(node, label, expanded),
            |m: ItemModel| m.expanded == expanded.contains(m.id),
        ),
    decreases node,
{
    let p = |m: ItemModel| m.expanded == expanded.contains(m.id);
    let item = shown_from(node, label, expanded);
    match node.children {
        Some(c) => {
            if c@.len() == 1 && c@[0].children is Some {
                lemma_open_from(c@[0], label + "/"@ + c@[0].name@, expanded);
            } else {
                lemma_shown_nodes(c@, expanded);
                assert forall|i: int| 0 <= i < item.children.len() implies throughout(
                    #[trigger] item.children[i],
                    p,
                ) by {
                    assert(decreases_to!(node => node.children->0@[i]));
                    lemma_open_from(c@[i], c@[i].name@, expanded);
                }
                assert(p(item));
            }
        },
        None => {
            assert(p(item));
        },
    }
}

proof fn lemma_label_before(
    node: FileNode,
    before: Seq<char>,
    label: Seq<char>,
    expanded: Set<Seq<char>>,
)
    ensures
        shown_from(node, before + label, expanded) == (ItemModel {
            label: before + shown_from(node, label, expanded).label,
            ..shown_from(node, label, expanded)
        }),
    decreases node,
{
    if let Some(c) = node.children {
        if c@.len() == 1 && c@[0].children is Some {
            assert(before + label + "/"@ + c@[0].name@ =~= before + (label + "/"@ + c@[0].name@));
            lemma_label_before(c@[0], before, label + "/"@ + c@[0].name@, expanded);
        }
    }
}

/// A folder that holds one folder and nothing else is shown as that folder, with its own name and a
/// slash before the name of the other.
pub proof fn law_a_lone_folder_is_merged(
    node: FileNode,
    children: Vec<FileNode>,
    expanded: Set<Seq<char>>,
)
    requires
        node.children == Some(children),
        children@.len() == 1,
        children@[0].children is Some,
    ensures
        ({
            let below = shown_node(children@[0], expanded);
            let entry = shown_node(node, expanded);
            &&& entry.label == node.name@ + "/"@ + below.label
            &&& entry.id == below.id
            &&& entry.expanded == below.expanded
            &&& entry.children == below.children
        }),
{
    let child = children@[0];
    lemma_label_before(child, node.name@ + "/"@, child.name@, expanded);
}

/// Any other folder is an entry with its own name and path, and has an entry for each thing in it, in
/// order. A file is an entry with nothing below it.
pub proof fn law_every_other_node_is_an_entry(node: FileNode, expanded: Set<Seq<char>>)
    requires
        node.children matches Some(c) ==> c@.len() != 1 || c@[0].children is None,
    ensures
        ({
            let entry = shown_node(node, expanded);
            &&& entry.id == node.path@
            &&& entry.label == node.name@
            &&& node.children is None ==> entry.children.len() == 0
            &&& node.children matches Some(c) ==> entry.children.len() == c@.len() && forall|i: int|
                0 <= i < c@.len() ==> #[trigger] entry.children[i] == shown_node(c@[i], expanded)
        }),
{
    if let Some(c) = node.children {
        lemma_shown_nodes(c@, expanded);
    }
}

/// The tree of a project shows what its folder holds, in order, and not the folder itself.
pub proof fn law_the_project_folder_is_not_an_entry(node: FileNode, expanded: Set<Seq<char>>)
    ensures
        ({
            let all = shown_tree(node, expanded);
            &&& node.children matches Some(c) ==> all.len() == c@.len() && forall|i: int|
                0 <= i < c@.len() ==> #[trigger] all[i] == shown_node(c@[i], expanded)
            &&& node.children is None ==> all.len() == 1 && all[0].id == node.path@
        }),
{
    if let Some(c) = node.children {
        lemma_shown_nodes(c@, expanded);
    }
}

/// Which folders are open does not change what is shown of the others: only whether an entry is open
/// depends on it.
pub proof fn law_opening_changes_no_names(node: FileNode, e: Set<Seq<char>>, f: Set<Seq<char>>)
    ensures
        shown_node(node, e).id == shown_node(node, f).id,
        shown_node(node, e).label == shown_node(node, f).label,
        shown_node(node, e).children.len() == shown_node(node, f).children.len(),
{
    lemma_same_names(node, node.name@, e, f);
}

proof fn lemma_same_names(
    node: FileNode,
    label: Seq<char>,
    e: Set<Seq<char>>,
    f: Set<Seq<char>>,
)
    ensures
        shown_from(node, label, e).id == shown_from(node, label, f).id,
        shown_from(node, label, e).label == shown_from(node, label, f).label,
        shown_from(node, label, e).children.len() == shown_from(node, label, f).children.len(),
    decreases node,
{
    if let Some(c) = node.children {
        if c@.len() == 1 && c@[0].children is Some {
            lemma_same_names(c@[0], label + "/"@ + c@[0].name@, e, f);
        } else {
            lemma_shown_nodes(c@, e);
            lemma_shown_nodes(c@, f);
        }
    }
}

/// Revealing a file opens the folder that it lies in, and with a folder the one above it, up to the
/// project folder.
pub proof fn law_revealing_opens_the_way_down(file: Seq<char>, root: Seq<char>)
    ensures
        path::parent_of(file) matches Some(d) ==> path::within(d, root) && !path::same(d, root)
            ==> ancestors(file, root).contains(d),
        forall|d: Seq<char>|
            #![trigger ancestors(file, root).contains(d)]
            ancestors(file, root).contains(d) ==> (path::parent_of(d) matches Some(up)
                ==> path::within(up, root) && !path::same(up, root) ==> ancestors(
                file,
                root,
            ).contains(up)),
{
    assert forall|d: Seq<char>|
        #![trigger ancestors(file, root).contains(d)]
        ancestors(file, root).contains(d) implies (path::parent_of(d) matches Some(up)
        ==> path::within(up, root) && !path::same(up, root) ==> ancestors(file, root).contains(
        up,
    )) by {
        lemma_way_up(path::parent_of(file), root, d);
    }
}

proof fn lemma_way_up(dir: Option<Seq<char>>, root: Seq<char>, d: Seq<char>)
    requires
        dirs_up_to(dir, root).contains(d),
    ensures
        path::parent_of(d) matches Some(up) ==> path::within(up, root) && !path::same(up, root)
            ==> dirs_up_to(dir, root).contains(up),
    decreases
            (match dir {
                Some(p) => p.len() + 1,
                None => 0nat,
            }),
{
    reveal_with_fuel(dirs_up_to, 2);
    if let Some(p) = dir {
        path::law_parent_is_shorter(p);
        if p != d {
            lemma_way_up(path::parent_of(p), root, d);
        }
    }
}

/// Whether an entry and all entries below it are open exactly when their paths are in `expanded`.
pub open spec fn open_as_kept(item: TreeItem, expanded: Set<Seq<char>>) -> bool
    decreases item,
{
    &&& item.expanded == expanded.contains(item.id@)
    &&& forall|i: int|
        0 <= i < item.children@.len() ==> open_as_kept(#[trigger] item.children@[i], expanded)
}

/// The entries that are built for a project are open as kept, at any depth.
pub proof fn law_built_entries_are_open_as_kept(
    node: FileNode,
    expanded: StringSet,
    items: Vec<TreeItem>,
    i: int,
)
    requires
        call_ensures(tree_items_from_node, (&node, &expanded), items),
        0 <= i < items@.len(),
    ensures
        open_as_kept(items@[i], expanded@),
{
    law_entries_are_open_as_kept(node, expanded@);
    lemma_item_models(items@);
    assert(item_models(items@)[i] == item_model(items@[i]));
    lemma_open_model(items@[i], expanded@);
}

proof fn lemma_item_models(items: Seq<TreeItem>)
    ensures
        item_models(items).len() == items.len(),
        forall|i: int| 0 <= i < items.len() ==> #[trigger] item_models(items)[i] == item_model(items[i]),
    decreases items.len(),
{
    if items.len() > 0 {
        lemma_item_models(items.drop_last());
    }
}

proof fn lemma_open_model(item: TreeItem, expanded: Set<Seq<char>>)
    requires
        throughout(item_model(item), |m: ItemModel| m.expanded == expanded.contains(m.id)),
    ensures
        open_as_kept(item, expanded),
    decreases item,
{
    let p = |m: ItemModel| m.expanded == expanded.contains(m.id);
    let model = item_model(item);
    lemma_item_models(item.children@);
    assert(p(model));
    assert forall|i: int| 0 <= i < item.children@.len() implies open_as_kept(
        #[trigger] item.children@[i],
        expanded,
    ) by {
        assert(throughout(model.children[i], p));
        lemma_open_model(item.children@[i], expanded);
    }
}

} // verus!
