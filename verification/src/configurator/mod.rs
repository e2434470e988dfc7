//! Configuration trees: named branches and editable leaves, addressed by cursors.
//!
//! A cursor is the list of keys from the root branch down to a node. The menu of
//! a configuration editor lists every node of the tree in order, each with the
//! cursor that reaches it.
pub mod widgets;

use vstd::prelude::*;

verus! {

/// A single editable configuration field: the widget that edits it and its texts.
pub struct ConfigurationTreeLeaf<W> {
    pub widget: W,
    pub description: String,
    pub name: String,
}

/// A branch or editable leaf in a configuration tree.
pub enum ConfigurationTree<W> {
    Branch(ConfigurationTreeBranch<W>),
    Leaf(ConfigurationTreeLeaf<W>),
}

/// An ordered group of configuration nodes, each under a key of its own.
///
/// Keys keep the order in which they were first inserted. The entries are held
/// in a vector in that order, no key twice: inserting under a new key appends an
/// entry, inserting under a key already present replaces that entry's node in
/// place.
pub struct ConfigurationTreeBranch<W> {
    entries: Vec<(String, ConfigurationTree<W>)>,
}

/// Why a cursor does not lead to the node that was asked for.
#[derive(Clone, Copy, Debug, PartialEq, Eq, Structural)]
pub enum ConfigurationError {
    /// A key of the cursor is not in the branch it was looked up in.
    MissingKey,
    /// The cursor continues below a leaf, or ends at a leaf where a branch was asked for.
    ExpectedBranch,
    /// The cursor ends at a branch where a leaf was asked for.
    ExpectedLeaf,
    /// The tree has no node to show in a menu.
    NoItems,
}

impl ConfigurationError {
    /// The message shown for this error.
    pub fn message(&self) -> (m: &'static str)
        ensures
            *self == ConfigurationError::MissingKey ==> m@ == "Expected key to exist"@,
            *self == ConfigurationError::ExpectedBranch ==> m@ == "Expected branch"@,
            *self == ConfigurationError::ExpectedLeaf ==> m@ == "Expected leaf"@,
            *self == ConfigurationError::NoItems ==> m@ == "Expected at least one configuration item"@,
    {
        match self {
            ConfigurationError::MissingKey => "Expected key to exist",
            ConfigurationError::ExpectedBranch => "Expected branch",
            ConfigurationError::ExpectedLeaf => "Expected leaf",
            ConfigurationError::NoItems => "Expected at least one configuration item",
        }
    }
}

/// The keys of a cursor.
pub open spec fn cursor_view(cursor: Seq<String>) -> Seq<Seq<char>> {
    cursor.map_values(|key: String| key@)
}

/// The position of the first entry under `key`.
pub open spec fn key_position<W>(entries: Seq<(String, ConfigurationTree<W>)>, key: Seq<char>) -> Option<int>
    decreases entries.len(),
{
    if entries.len() == 0 {
        None
    } else if entries[0].0@ == key {
        Some(0)
    } else {
        match key_position(entries.drop_first(), key) {
            Some(i) => Some(i + 1),
            None => None,
        }
    }
}

/// No two entries of a branch share a key.
pub open spec fn keys_distinct<W>(entries: Seq<(String, ConfigurationTree<W>)>) -> bool {
    forall|i: int, j: int| 0 <= i < j < entries.len() ==> entries[i].0@ != entries[j].0@
}

/// Every branch of the tree, at every depth, has distinct keys.
pub open spec fn tree_wf<W>(tree: ConfigurationTree<W>) -> bool
    decreases tree,
{
    match tree {
        ConfigurationTree::Branch(b) => {
            &&& keys_distinct(b.entries())
            &&& forall|i: int| 0 <= i < b.entries().len() ==> tree_wf(#[trigger] b.entries()[i].1)
        },
        ConfigurationTree::Leaf(_) => true,
    }
}

/// The node reached from `node` by one key.
pub open spec fn child_of<W>(node: ConfigurationTree<W>, key: Seq<char>) -> Result<ConfigurationTree<W>, ConfigurationError> {
    match node {
        ConfigurationTree::Branch(b) => match key_position(b.entries(), key) {
            Some(i) => Ok(b.entries()[i].1),
            None => Err(ConfigurationError::MissingKey),
        },
        ConfigurationTree::Leaf(_) => Err(ConfigurationError::ExpectedBranch),
    }
}

/// The node that `cursor` reaches from `node`, or the first reason it does not.
pub open spec fn spec_get_node<W>(node: ConfigurationTree<W>, cursor: Seq<Seq<char>>) -> Result<ConfigurationTree<W>, ConfigurationError>
    decreases cursor.len(),
{
    if cursor.len() == 0 {
        Ok(node)
    } else {
        match child_of(node, cursor[0]) {
            Ok(next) => spec_get_node(next, cursor.drop_first()),
            Err(e) => Err(e),
        }
    }
}

/// What a menu shows of one node: its key, the cursor that reaches it, and how deep it lies.
pub struct MenuEntryView {
    pub name: Seq<char>,
    pub cursor: Seq<Seq<char>>,
    pub depth: nat,
}

/// A menu entry for one node of a configuration tree.
pub struct MenuEntry {
    pub name: String,
    pub cursor: Vec<String>,
    pub depth: usize,
}

impl View for MenuEntry {
    type V = MenuEntryView;

    open spec fn view(&self) -> MenuEntryView {
        MenuEntryView { name: self.name@, cursor: cursor_view(self.cursor@), depth: self.depth as nat }
    }
}

/// The views of a list of menu entries.
pub open spec fn menu_view(items: Seq<MenuEntry>) -> Seq<MenuEntryView> {
    items.map_values(|e: MenuEntry| e@)
}

/// The menu of the entries of a branch that lies at `cursor`: each node in order,
/// a branch followed at once by the menu of its own entries.
pub open spec fn menu_items<W>(entries: Seq<(String, ConfigurationTree<W>)>, cursor: Seq<Seq<char>>) -> Seq<MenuEntryView>
    decreases entries,
{
    if entries.len() == 0 {
        Seq::empty()
    } else {
        let last = entries.last();
        let child_cursor = cursor.push(last.0@);
        let entry = MenuEntryView { name: last.0@, cursor: child_cursor, depth: cursor.len() };
        let below = match last.1 {
            ConfigurationTree::Branch(b) => menu_items(b.entries(), child_cursor),
            ConfigurationTree::Leaf(_) => Seq::empty(),
        };
        menu_items(entries.drop_last(), cursor) + seq![entry] + below
    }
}

/// The entries of a branch once `tree` is put under `key`: in place of the node
/// already under that key, or as a new last entry.
pub open spec fn spec_inserted<W>(entries: Seq<(String, ConfigurationTree<W>)>, key: String, tree: ConfigurationTree<W>) -> Seq<(String, ConfigurationTree<W>)> {
    match key_position(entries, key@) {
        Some(i) => entries.update(i, (entries[i].0, tree)),
        None => entries.push((key, tree)),
    }
}

/// After `tree` is put under `key`, the key leads to `tree`, and every other key
/// leads where it led before.
pub proof fn lemma_insert_then_get<W>(
    before: ConfigurationTreeBranch<W>,
    after: ConfigurationTreeBranch<W>,
    key: String,
    tree: ConfigurationTree<W>,
    other: Seq<char>,
)
    requires
        after.entries() == spec_inserted(before.entries(), key, tree),
        other != key@,
    ensures
        spec_get_node(ConfigurationTree::Branch(after), seq![key@]) == Ok::<ConfigurationTree<W>, ConfigurationError>(tree),
        spec_get_node(ConfigurationTree::Branch(after), seq![other])
            == spec_get_node(ConfigurationTree::Branch(before), seq![other]),
{
    let e = before.entries();
    let e2 = after.entries();
    lemma_key_position(e, key@);
    lemma_key_position(e2, key@);
    lemma_key_position(e, other);
    lemma_key_position(e2, other);
    assert(seq![key@].drop_first() =~= Seq::<Seq<char>>::empty());
    assert(seq![other].drop_first() =~= Seq::<Seq<char>>::empty());
    match key_position(e, key@) {
        Some(i) => {
            assert(e2[i].0@ == key@);
            assert forall|j: int| 0 <= j < i implies e2[j].0@ != key@ by {
                assert(e2[j] == e[j]);
            }
            assert(key_position(e2, key@) == Some(i));
        },
        None => {
            assert(e2[e.len() as int].0@ == key@);
            assert forall|j: int| 0 <= j < e.len() implies e2[j].0@ != key@ by {
                assert(e2[j] == e[j]);
            }
            assert(key_position(e2, key@) == Some(e.len() as int));
        },
    }
    assert(child_of(ConfigurationTree::Branch(after), key@) == Ok::<ConfigurationTree<W>, ConfigurationError>(tree));
    assert(seq![key@][0] == key@);
    assert(spec_get_node(tree, Seq::<Seq<char>>::empty()) == Ok::<ConfigurationTree<W>, ConfigurationError>(tree));
    assert(forall|j: int| 0 <= j < e.len() ==> e2[j].0 == e[j].0);
    match key_position(e, other) {
        Some(p) => {
            assert(e2[p].0@ == other);
            assert forall|j: int| 0 <= j < p implies e2[j].0@ != other by {
                assert(e2[j].0 == e[j].0);
            }
            assert(key_position(e2, other) == Some(p));
            if key_position(e, key@) == Some(p) {
                assert(false);
            }
            assert(e2[p] == e[p]);
        },
        None => {
            assert(key_position(e2, other) is None) by {
                match key_position(e2, other) {
                    Some(q) => {
                        if q < e.len() {
                            assert(e2[q].0 == e[q].0);
                        }
                    },
                    None => {},
                }
            }
        },
    }
}

impl<W> ConfigurationTree<W> {
    /// A leaf edited by `widget`, shown as `name` and explained by `description`.
    pub fn new_leaf(widget: W, name: String, description: String) -> (tree: Self)
        ensures
            tree == ConfigurationTree::Leaf(ConfigurationTreeLeaf { widget, description, name }),
            tree_wf(tree),
    {
        ConfigurationTree::Leaf(ConfigurationTreeLeaf { widget, description, name })
    }
}

impl<W> ConfigurationTreeBranch<W> {
    /// The entries of the branch in order, each a key and the node under it.
    pub closed spec fn entries(self) -> Seq<(String, ConfigurationTree<W>)> {
        self.entries@
    }

    /// An empty branch.
    pub fn new() -> (b: Self)
        ensures
            b.entries() == Seq::<(String, ConfigurationTree<W>)>::empty(),
            tree_wf(ConfigurationTree::Branch(b)),
    {
        ConfigurationTreeBranch { entries: Vec::new() }
    }

    /// The number of entries.
    pub fn len(&self) -> (n: usize)
        ensures
            n == self.entries().len(),
    {
        self.entries.len()
    }

    fn position(&self, key: &String) -> (p: Option<usize>)
        ensures
            match p {
                Some(i) => key_position(self.entries(), key@) == Some(i as int),
                None => key_position(self.entries(), key@) is None,
            },
    {
        let n = self.entries.len();
        let mut i: usize = 0;
        while i < n
            invariant
                n == self.entries@.len(),
                i <= n,
                forall|j: int| 0 <= j < i ==> self.entries@[j].0@ != key@,
            decreases n - i,
        {
            if self.entries[i].0 == *key {
                proof { lemma_key_position(self.entries@, key@); }
                return Some(i);
            }
            i = i + 1;
        }
        proof { lemma_key_position(self.entries@, key@); }
        None
    }

    /// Puts `tree` under `key`: in place of the node already under that key,
    /// which is returned, or as a new last entry.
    pub fn insert(&mut self, key: String, tree: ConfigurationTree<W>) -> (replaced: Option<ConfigurationTree<W>>)
        ensures
            final(self).entries() == spec_inserted(old(self).entries(), key, tree),
            replaced == match key_position(old(self).entries(), key@) {
                Some(i) => Some(old(self).entries()[i].1),
                None => None,
            },
            tree_wf(ConfigurationTree::Branch(*old(self))) && tree_wf(tree)
                ==> tree_wf(ConfigurationTree::Branch(*final(self))),
    {
        proof { lemma_key_position(self.entries@, key@); }
        match self.position(&key) {
            Some(i) => {
                let ghost before = self.entries@;
                let (k, previous) = self.entries.remove(i);
                self.entries.insert(i, (k, tree));
                proof {
                    assert(self.entries@ =~= before.update(i as int, (before[i as int].0, tree)));
                    let after = self.entries@;
                    assert(forall|j: int| 0 <= j < after.len() ==> after[j].0 == before[j].0);
                }
                Some(previous)
            },
            None => {
                let ghost before = self.entries@;
                self.entries.push((key, tree));
                proof {
                    let after = self.entries@;
                    if keys_distinct(before) {
                        assert forall|a: int, b: int| 0 <= a < b < after.len() implies after[a].0@ != after[b].0@ by {
                            if b == after.len() - 1 {
                                assert(before[a].0@ != key@);
                            } else {
                                assert(after[a] == before[a] && after[b] == before[b]);
                            }
                        }
                    }
                }
                None
            },
        }
    }

    /// The node that `cursor` reaches from this branch.
    pub fn get_node(self, cursor: &[String]) -> (r: Result<ConfigurationTree<W>, ConfigurationError>)
        ensures
            r == spec_get_node(ConfigurationTree::Branch(self), cursor_view(cursor@)),
    {
        let ghost keys = cursor_view(cursor@);
        let ghost root = ConfigurationTree::Branch(self);
        let mut node = ConfigurationTree::Branch(self);
        let n = cursor.len();
        let mut i: usize = 0;
        assert(keys.subrange(0, n as int) =~= keys);
        while i < n
            invariant
                n == cursor@.len(),
                keys == cursor_view(cursor@),
                i <= n,
                spec_get_node(root, keys) == spec_get_node(ConfigurationTree::Branch(self), cursor_view(cursor@)),
                spec_get_node(root, keys) == spec_get_node(node, keys.subrange(i as int, n as int)),
            decreases n - i,
        {
            proof {
                assert(keys.subrange(i as int, n as int).drop_first() =~= keys.subrange(i + 1, n as int));
                assert(keys.subrange(i as int, n as int)[0] == cursor@[i as int]@);
            }
            let ghost before = node;
            proof {
                assert(spec_get_node(before, keys.subrange(i as int, n as int)) == match child_of(before, cursor@[i as int]@) {
                    Ok(next) => spec_get_node(next, keys.subrange(i + 1, n as int)),
                    Err(e) => Err(e),
                });
            }
            node = match node {
                ConfigurationTree::Branch(mut branch) => match branch.position(&cursor[i]) {
                    Some(p) => {
                        proof { lemma_key_position(branch.entries@, cursor@[i as int]@); }
                        let (_key, child) = branch.entries.remove(p);
                        child
                    },
                    None => {
                        return Err(ConfigurationError::MissingKey);
                    },
                },
                ConfigurationTree::Leaf(_) => {
                    return Err(ConfigurationError::ExpectedBranch);
                },
            };
            i = i + 1;
        }
        proof {
            assert(keys.subrange(n as int, n as int) =~= Seq::<Seq<char>>::empty());
        }
        Ok(node)
    }

    /// The leaf that `cursor` reaches from this branch.
    pub fn get_leaf(self, cursor: &[String]) -> (r: Result<ConfigurationTreeLeaf<W>, ConfigurationError>)
        ensures
            r == match spec_get_node(ConfigurationTree::Branch(self), cursor_view(cursor@)) {
                Ok(ConfigurationTree::Leaf(leaf)) => Ok(leaf),
                Ok(ConfigurationTree::Branch(_)) => Err(ConfigurationError::ExpectedLeaf),
                Err(e) => Err(e),
            },
    {
        match self.get_node(cursor) {
            Ok(ConfigurationTree::Leaf(leaf)) => Ok(leaf),
            Ok(ConfigurationTree::Branch(_)) => Err(ConfigurationError::ExpectedLeaf),
            Err(e) => Err(e),
        }
    }

    /// The branch that `cursor` reaches from this branch.
    pub fn get_branch(self, cursor: &[String]) -> (r: Result<ConfigurationTreeBranch<W>, ConfigurationError>)
        ensures
            r == match spec_get_node(ConfigurationTree::Branch(self), cursor_view(cursor@)) {
                Ok(ConfigurationTree::Branch(branch)) => Ok(branch),
                Ok(ConfigurationTree::Leaf(_)) => Err(ConfigurationError::ExpectedBranch),
                Err(e) => Err(e),
            },
    {
        match self.get_node(cursor) {
            Ok(ConfigurationTree::Branch(branch)) => Ok(branch),
            Ok(ConfigurationTree::Leaf(_)) => Err(ConfigurationError::ExpectedBranch),
            Err(e) => Err(e),
        }
    }
}

fn copy_cursor(cursor: &Vec<String>) -> (copy: Vec<String>)
    ensures
        copy@ == cursor@,
{
    let mut copy: Vec<String> = Vec::new();
    let n = cursor.len();
    let mut i: usize = 0;
    while i < n
        invariant
            n == cursor@.len(),
            i <= n,
            copy@ == cursor@.take(i as int),
        decreases n - i,
    {
        copy.push(cursor[i].clone());
        proof { assert(cursor@.take(i + 1) =~= cursor@.take(i as int).push(cursor@[i as int])); }
        i = i + 1;
    }
    proof { assert(cursor@.take(n as int) =~= cursor@); }
    copy
}

/// Appends to `items` the menu of the entries of `branch`, which lies at `cursor`.
pub fn collect_menu_items<W>(branch: &ConfigurationTreeBranch<W>, cursor: &Vec<String>, items: &mut Vec<MenuEntry>)
    ensures
        menu_view(final(items)@) == menu_view(old(items)@) + menu_items(branch.entries(), cursor_view(cursor@)),
    decreases branch,
{
    let ghost start = menu_view(items@);
    let ghost keys = cursor_view(cursor@);
    let n = branch.entries.len();
    let mut i: usize = 0;
    proof { assert(menu_items(branch.entries@.take(0), keys) =~= Seq::<MenuEntryView>::empty()); }
    assert(menu_view(items@) =~= start + menu_items(branch.entries@.take(0), keys));
    while i < n
        invariant
            n == branch.entries@.len(),
            i <= n,
            keys == cursor_view(cursor@),
            menu_view(items@) == start + menu_items(branch.entries@.take(i as int), keys),
        decreases n - i,
    {
        let entry = &branch.entries[i];
        let name = &entry.0;
        let child = &entry.1;
        let mut child_cursor = copy_cursor(cursor);
        child_cursor.push(name.clone());
        let ghost child_keys = keys.push(name@);
        proof { assert(cursor_view(child_cursor@) =~= child_keys); }
        let depth = cursor.len();
        let ghost before = menu_view(items@);
        items.push(MenuEntry { name: name.clone(), cursor: copy_cursor(&child_cursor), depth });
        proof {
            assert(menu_view(items@) =~= before.push(MenuEntryView { name: name@, cursor: child_keys, depth: keys.len() }));
        }
        let ghost middle = menu_view(items@);
        match child {
            ConfigurationTree::Branch(b) => {
                collect_menu_items(b, &child_cursor, items);
            },
            ConfigurationTree::Leaf(_) => {},
        }
        proof {
            let prefix = branch.entries@.take(i + 1);
            assert(prefix.drop_last() =~= branch.entries@.take(i as int));
            assert(prefix.last() == branch.entries@[i as int]);
            let below = match branch.entries@[i as int].1 {
                ConfigurationTree::Branch(b) => menu_items(b.entries(), child_keys),
                ConfigurationTree::Leaf(_) => Seq::empty(),
            };
            assert(menu_view(items@) =~= middle + below);
            assert(menu_items(prefix, keys) =~= menu_items(branch.entries@.take(i as int), keys)
                + seq![MenuEntryView { name: name@, cursor: child_keys, depth: keys.len() }] + below);
            assert(menu_view(items@) =~= start + menu_items(prefix, keys));
        }
        i = i + 1;
    }
    proof { assert(branch.entries@.take(n as int) =~= branch.entries@); }
}

/// The menu of a configuration editor: every node of the tree, or `NoItems`
/// when the tree has none.
pub fn menu_entries<W>(branch: &ConfigurationTreeBranch<W>) -> (r: Result<Vec<MenuEntry>, ConfigurationError>)
    ensures
        r is Err <==> branch.entries().len() == 0,
        match r {
            Ok(items) => menu_view(items@) == menu_items(branch.entries(), Seq::empty()),
            Err(e) => e == ConfigurationError::NoItems,
        },
{
    let mut items: Vec<MenuEntry> = Vec::new();
    let root: Vec<String> = Vec::new();
    proof { assert(cursor_view(root@) =~= Seq::<Seq<char>>::empty()); }
    collect_menu_items(branch, &root, &mut items);
    proof {
        assert(menu_view(Seq::<MenuEntry>::empty()) =~= Seq::<MenuEntryView>::empty());
        lemma_menu_items_nonempty(branch.entries(), Seq::empty());
        assert(items@.len() == menu_view(items@).len());
    }
    if items.len() == 0 {
        Err(ConfigurationError::NoItems)
    } else {
        Ok(items)
    }
}

/// A branch has a menu entry exactly when it has an entry.
pub proof fn lemma_menu_items_nonempty<W>(entries: Seq<(String, ConfigurationTree<W>)>, cursor: Seq<Seq<char>>)
    ensures
        (menu_items(entries, cursor).len() == 0) <==> (entries.len() == 0),
{
}

/// Extending a cursor by one key takes one more step from the node it reached.
pub proof fn lemma_get_node_push<W>(root: ConfigurationTree<W>, cursor: Seq<Seq<char>>, key: Seq<char>)
    ensures
        spec_get_node(root, cursor.push(key)) == match spec_get_node(root, cursor) {
            Ok(node) => child_of(node, key),
            Err(e) => Err(e),
        },
    decreases cursor.len(),
{
    if cursor.len() == 0 {
        let pushed = cursor.push(key);
        assert(pushed.drop_first() =~= Seq::<Seq<char>>::empty());
        assert(pushed[0] == key);
        match child_of(root, key) {
            Ok(next) => {
                assert(spec_get_node(next, pushed.drop_first()) == Ok::<ConfigurationTree<W>, ConfigurationError>(next));
            },
            Err(_) => {},
        }
    } else {
        assert(cursor.push(key)[0] == cursor[0]);
        assert(cursor.push(key).drop_first() =~= cursor.drop_first().push(key));
        match child_of(root, cursor[0]) {
            Ok(next) => lemma_get_node_push(next, cursor.drop_first(), key),
            Err(_) => {},
        }
    }
}

/// Within a branch with distinct keys, the key of an entry leads to that entry.
proof fn lemma_distinct_key_position<W>(entries: Seq<(String, ConfigurationTree<W>)>, i: int)
    requires
        keys_distinct(entries),
        0 <= i < entries.len(),
    ensures
        key_position(entries, entries[i].0@) == Some(i),
{
    lemma_key_position(entries, entries[i].0@);
}

proof fn lemma_items_resolve<W>(
    root: ConfigurationTree<W>,
    cursor: Seq<Seq<char>>,
    b: ConfigurationTreeBranch<W>,
    entries: Seq<(String, ConfigurationTree<W>)>,
)
    requires
        spec_get_node(root, cursor) == Ok::<ConfigurationTree<W>, ConfigurationError>(ConfigurationTree::Branch(b)),
        tree_wf(ConfigurationTree::Branch(b)),
        entries.len() <= b.entries().len(),
        entries == b.entries().take(entries.len() as int),
    ensures
        forall|k: int| 0 <= k < menu_items(entries, cursor).len() ==> {
            let item = #[trigger] menu_items(entries, cursor)[k];
            &&& spec_get_node(root, item.cursor) is Ok
            &&& item.cursor.len() == item.depth + 1
            &&& item.cursor.last() == item.name
        },
    decreases entries,
{
    if entries.len() > 0 {
        let last = entries.last();
        let i = entries.len() - 1;
        let child_cursor = cursor.push(last.0@);
        let entry = MenuEntryView { name: last.0@, cursor: child_cursor, depth: cursor.len() };
        let rest = entries.drop_last();
        assert(rest =~= b.entries().take(rest.len() as int));
        lemma_items_resolve(root, cursor, b, rest);
        assert(last == b.entries()[i]);
        lemma_distinct_key_position(b.entries(), i);
        lemma_get_node_push(root, cursor, last.0@);
        assert(spec_get_node(root, child_cursor) == Ok::<ConfigurationTree<W>, ConfigurationError>(last.1));
        let below = match last.1 {
            ConfigurationTree::Branch(b2) => menu_items(b2.entries(), child_cursor),
            ConfigurationTree::Leaf(_) => Seq::empty(),
        };
        match last.1 {
            ConfigurationTree::Branch(b2) => {
                assert(tree_wf(b.entries()[i].1));
                assert(b2.entries().take(b2.entries().len() as int) =~= b2.entries());
                lemma_items_resolve(root, child_cursor, b2, b2.entries());
            },
            ConfigurationTree::Leaf(_) => {},
        }
        let items = menu_items(entries, cursor);
        let head = menu_items(rest, cursor);
        assert(items =~= head + seq![entry] + below);
        assert forall|k: int| 0 <= k < items.len() implies {
            let item = #[trigger] items[k];
            &&& spec_get_node(root, item.cursor) is Ok
            &&& item.cursor.len() == item.depth + 1
            &&& item.cursor.last() == item.name
        } by {
            if k < head.len() {
                assert(items[k] == head[k]);
            } else if k == head.len() {
                assert(items[k] == entry);
            } else {
                assert(items[k] == below[k - head.len() - 1]);
            }
        }
    }
}

/// Every entry of the menu of a well-formed tree carries a cursor that reaches a
/// node of the tree; the cursor ends in the entry's name and is one key longer
/// than the entry's depth.
pub proof fn lemma_menu_cursors_resolve<W>(branch: ConfigurationTreeBranch<W>)
    requires
        tree_wf(ConfigurationTree::Branch(branch)),
    ensures
        forall|k: int| 0 <= k < menu_items(branch.entries(), Seq::empty()).len() ==> {
            let item = #[trigger] menu_items(branch.entries(), Seq::empty())[k];
            &&& spec_get_node(ConfigurationTree::Branch(branch), item.cursor) is Ok
            &&& item.cursor.len() == item.depth + 1
            &&& item.cursor.last() == item.name
        },
{
    assert(branch.entries().take(branch.entries().len() as int) =~= branch.entries());
    lemma_items_resolve(ConfigurationTree::Branch(branch), Seq::empty(), branch, branch.entries());
}


/// The menu entry of the `i`-th entry and the entries below it.
pub open spec fn entry_block<W>(entry: (String, ConfigurationTree<W>), cursor: Seq<Seq<char>>) -> Seq<MenuEntryView> {
    let child_cursor = cursor.push(entry.0@);
    seq![MenuEntryView { name: entry.0@, cursor: child_cursor, depth: cursor.len() }] + match entry.1 {
        ConfigurationTree::Branch(b) => menu_items(b.entries(), child_cursor),
        ConfigurationTree::Leaf(_) => Seq::empty(),
    }
}

proof fn lemma_block_in_items<W>(entries: Seq<(String, ConfigurationTree<W>)>, cursor: Seq<Seq<char>>, i: int)
    requires
        0 <= i < entries.len(),
    ensures
        forall|x: MenuEntryView| entry_block(entries[i], cursor).contains(x) ==> menu_items(entries, cursor).contains(x),
    decreases entries.len(),
{
    let items = menu_items(entries, cursor);
    let head = menu_items(entries.drop_last(), cursor);
    let block = entry_block(entries.last(), cursor);
    assert(items =~= head + block);
    if i == entries.len() - 1 {
        assert forall|x: MenuEntryView| block.contains(x) implies items.contains(x) by {
            let k = choose|k: int| 0 <= k < block.len() && block[k] == x;
            assert(items[head.len() + k] == x);
        }
    } else {
        lemma_block_in_items(entries.drop_last(), cursor, i);
        assert(entries.drop_last()[i] == entries[i]);
        assert forall|x: MenuEntryView| entry_block(entries[i], cursor).contains(x) implies items.contains(x) by {
            assert(head.contains(x));
            let k = choose|k: int| 0 <= k < head.len() && head[k] == x;
            assert(items[k] == x);
        }
    }
}

proof fn lemma_node_listed<W>(b: ConfigurationTreeBranch<W>, prefix: Seq<Seq<char>>, rest: Seq<Seq<char>>)
    requires
        tree_wf(ConfigurationTree::Branch(b)),
        rest.len() > 0,
        spec_get_node(ConfigurationTree::Branch(b), rest) is Ok,
    ensures
        exists|item: MenuEntryView| #[trigger] menu_items(b.entries(), prefix).contains(item) && item.cursor == prefix + rest,
    decreases rest.len(),
{
    let key = rest[0];
    let entries = b.entries();
    lemma_key_position(entries, key);
    let i = key_position(entries, key)->0;
    let entry = entries[i];
    let child_cursor = prefix.push(key);
    let block = entry_block(entry, prefix);
    lemma_block_in_items(entries, prefix, i);
    if rest.len() == 1 {
        assert(child_cursor =~= prefix + rest);
        assert(block[0].cursor == child_cursor);
        assert(block.contains(block[0]));
        assert(menu_items(entries, prefix).contains(block[0]));
    } else {
        let tail = rest.drop_first();
        match entry.1 {
            ConfigurationTree::Branch(child) => {
                assert(tree_wf(entries[i].1));
                lemma_node_listed(child, child_cursor, tail);
                let item = choose|item: MenuEntryView| #[trigger] menu_items(child.entries(), child_cursor).contains(item)
                    && item.cursor == child_cursor + tail;
                assert(child_cursor + tail =~= prefix + rest);
                let below = menu_items(child.entries(), child_cursor);
                let k = choose|k: int| 0 <= k < below.len() && below[k] == item;
                assert(block[k + 1] == item);
                assert(block.contains(item));
                assert(menu_items(entries, prefix).contains(item));
            },
            ConfigurationTree::Leaf(_) => {
                assert(spec_get_node(entry.1, tail) is Err);
            },
        }
    }
}

/// The menu of a well-formed tree lists every node: each cursor that reaches a
/// node of the tree is the cursor of a menu entry.
pub proof fn lemma_menu_lists_every_node<W>(branch: ConfigurationTreeBranch<W>, cursor: Seq<Seq<char>>)
    requires
        tree_wf(ConfigurationTree::Branch(branch)),
        cursor.len() > 0,
        spec_get_node(ConfigurationTree::Branch(branch), cursor) is Ok,
    ensures
        exists|item: MenuEntryView| #[trigger] menu_items(branch.entries(), Seq::empty()).contains(item) && item.cursor == cursor,
{
    lemma_node_listed(branch, Seq::empty(), cursor);
    assert(Seq::<Seq<char>>::empty() + cursor =~= cursor);
}

/// `key_position` finds the first entry under the key, and none when no entry has it.
proof fn lemma_key_position<W>(entries: Seq<(String, ConfigurationTree<W>)>, key: Seq<char>)
    ensures
        match key_position(entries, key) {
            Some(p) => {
                &&& 0 <= p < entries.len()
                &&& entries[p].0@ == key
                &&& forall|j: int| 0 <= j < p ==> entries[j].0@ != key
            },
            None => forall|j: int| 0 <= j < entries.len() ==> entries[j].0@ != key,
        },
    decreases entries.len(),
{
    if entries.len() > 0 && entries[0].0@ != key {
        lemma_key_position(entries.drop_first(), key);
        let rest = entries.drop_first();
        match key_position(rest, key) {
            Some(p) => {
                assert forall|j: int| 0 <= j < p + 1 implies entries[j].0@ != key by {
                    if j > 0 {
                        assert(entries[j] == rest[j - 1]);
                    }
                }
            },
            None => {
                assert forall|j: int| 0 <= j < entries.len() implies entries[j].0@ != key by {
                    if j > 0 {
                        assert(entries[j] == rest[j - 1]);
                    }
                }
            },
        }
    }
}

} // verus!
