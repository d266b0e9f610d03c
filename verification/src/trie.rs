//! A trie of path segments: one node for every prefix of the paths put in.
//!
//! A node holds its children by name, in the order of their names, and has
//! no other identity than its place in the tree. The root stands for the
//! empty path. A trie is built once, from a listing or path by path, and then
//! only read: looked up and rendered.

use crate::order::{lemma_name_transitive, name_before, name_lt};
use crate::text::{lines, push_char, segments, split_fields, split_lines, texts, Delimiter};
use crate::tree::{
    lemma_insert_wf,
    lemma_split_is_rank,
    lemma_subtree_wf,
    shown,
    spaces,
    Tree,
    INDENT_STEP,
};
use vstd::prelude::*;
use vstd::string::*;

verus! {

/// The paths that a listing names: the segments of each of its lines.
pub open spec fn listed_paths(listing: Seq<char>) -> Seq<Seq<Seq<char>>> {
    Seq::new(lines(listing).len(), |i: int| segments(lines(listing)[i]))
}

/// A node of the trie.
#[derive(Debug)]
pub struct Node {
    children: Vec<(String, Node)>,
}

impl View for Node {
    type V = Tree;

    closed spec fn view(&self) -> Tree {
        self.model()
    }
}

impl Node {
    /// The trie that the node and what is below it stand for.
    spec fn model(self) -> Tree
        decreases self,
    {
        Tree {
            children: Seq::new(
                self.children@.len(),
                |i: int|
                    if 0 <= i < self.children@.len() {
                        (self.children@[i].0@, self.children@[i].1.model())
                    } else {
                        (Seq::empty(), Tree::empty())
                    },
            ),
        }
    }

    /// The view has one child for each child of the node, of the same name
    /// and with the view of what is below it.
    proof fn lemma_view(self)
        ensures
            self@.children.len() == self.children@.len(),
            forall|i: int|
                0 <= i < self.children@.len() ==> #[trigger] self@.children[i] == (
                    self.children@[i].0@,
                    self.children@[i].1@,
                ),
    {
    }

    /// Makes a trie that holds the empty path only.
    pub fn new() -> (n: Node)
        ensures
            n@ == Tree::empty(),
            n@.wf(),
    {
        let n = Node { children: Vec::new() };
        assert(n@.children =~= Seq::empty());
        n
    }

    /// Finds the place of `name` among the children, by bisection.
    fn locate(&self, name: &str) -> (k: usize)
        requires
            self@.wf(),
        ensures
            k == self@.rank(name@),
            k <= self.children@.len(),
            self@.children.len() == self.children@.len(),
    {
        let mut lo: usize = 0;
        let mut hi: usize = self.children.len();
        proof {
            self.lemma_view();
        }
        while lo < hi
            invariant
                lo <= hi <= self.children@.len(),
                self@.children.len() == self.children@.len(),
                self@.wf(),
                forall|i: int| 0 <= i < lo ==> name_before((#[trigger] self@.children[i]).0, name@),
                forall|i: int|
                    hi <= i < self@.children.len() ==> !name_before(
                        (#[trigger] self@.children[i]).0,
                        name@,
                    ),
            decreases hi - lo,
        {
            let mid = lo + (hi - lo) / 2;
            proof {
                self.lemma_view();
            }
            assert(self@.children[mid as int].0 == self.children@[mid as int].0@);
            if name_lt(self.children[mid].0.as_str(), name) {
                assert forall|i: int| 0 <= i < mid + 1 implies name_before(
                    (#[trigger] self@.children[i]).0,
                    name@,
                ) by {
                    if i < mid {
                        lemma_name_transitive(
                            self@.children[i].0,
                            self@.children[mid as int].0,
                            name@,
                        );
                    }
                }
                lo = mid + 1;
            } else {
                assert forall|i: int| mid <= i < self@.children.len() implies !name_before(
                    (#[trigger] self@.children[i]).0,
                    name@,
                ) by {
                    if i > mid && name_before(self@.children[i].0, name@) {
                        lemma_name_transitive(
                            self@.children[mid as int].0,
                            self@.children[i].0,
                            name@,
                        );
                    }
                }
                hi = mid;
            }
        }
        proof {
            lemma_split_is_rank(self@.children, name@, lo as int);
        }
        lo
    }

    /// Looks up the node at `path`: follows the path's segments from this
    /// node down. The empty path, or one of slashes only, gives this node.
    pub fn get(&self, path: &str) -> (r: Option<&Node>)
        requires
            self@.wf(),
        ensures
            match r {
                Some(n) => self@.subtree(segments(path@)) == Some(n@) && n@.wf(),
                None => self@.subtree(segments(path@)) is None,
            },
    {
        let segs = split_fields(path, Delimiter::Slash);
        let ghost all = texts(segs@);
        let mut current: &Node = self;
        let mut i: usize = 0;
        proof {
            assert(all.skip(0) =~= all);
        }
        while i < segs.len()
            invariant
                i <= segs.len(),
                all == texts(segs@),
                all == segments(path@),
                current@.wf(),
                self@.subtree(all) == current@.subtree(all.skip(i as int)),
            decreases segs.len() - i,
        {
            let ghost rest = all.skip(i as int);
            proof {
                assert(rest[0] == segs@[i as int]@);
                assert(rest.drop_first() =~= all.skip(i + 1));
            }
            let k = current.locate(segs[i].as_str());
            proof {
                current.lemma_view();
                lemma_subtree_wf(current@, seq![rest[0]]);
            }
            if k >= current.children.len() {
                assert(!current@.has_child(rest[0]));
                return None;
            }
            if current.children[k].0 != segs[i] {
                assert(!current@.has_child(rest[0]));
                return None;
            }
            assert(current@.has_child(rest[0]));
            current = &current.children[k].1;
            i = i + 1;
        }
        proof {
            assert(all.skip(segs.len() as int) =~= Seq::<Seq<char>>::empty());
        }
        Some(current)
    }

    /// Puts the segments of `segs` from the one at `from` on into the trie.
    fn insert_from(&mut self, segs: &Vec<String>, from: usize)
        requires
            old(self)@.wf(),
            from <= segs.len(),
        ensures
            final(self)@ == old(self)@.insert(texts(segs@).skip(from as int)),
        decreases segs.len() - from,
    {
        if from < segs.len() {
            let ghost before = *self;
            let ghost rest = texts(segs@).skip(from as int);
            let k = self.locate(segs[from].as_str());
            proof {
                self.lemma_view();
                assert(rest[0] == segs@[from as int]@);
                assert(rest.drop_first() =~= texts(segs@).skip(from + 1));
            }
            if k < self.children.len() && self.children[k].0 == segs[from] {
                let child = &mut self.children[k].1;
                child.insert_from(segs, from + 1);
                proof {
                    self.lemma_view();
                    assert(self@.children =~= before@.children.update(
                        k as int,
                        (rest[0], before@.children[k as int].1.insert(rest.drop_first())),
                    ));
                }
            } else {
                let mut child = Node::new();
                child.insert_from(segs, from + 1);
                self.children.insert(k, (segs[from].clone(), child));
                proof {
                    self.lemma_view();
                    assert(self@.children =~= before@.children.insert(
                        k as int,
                        (rest[0], Tree::empty().insert(rest.drop_first())),
                    ));
                }
            }
        }
    }

    /// Puts `path` into the trie: a node is made for each of its segments
    /// that has none yet. Empty segments do not count, so slashes at either
    /// end or in a row change nothing.
    pub fn insert(&mut self, path: &str)
        requires
            old(self)@.wf(),
        ensures
            final(self)@ == old(self)@.insert(segments(path@)),
            final(self)@.wf(),
    {
        let segs = split_fields(path, Delimiter::Slash);
        proof {
            assert(texts(segs@).skip(0) =~= texts(segs@));
            lemma_insert_wf(self@, segments(path@));
        }
        self.insert_from(&segs, 0);
    }

    /// Appends the text of the trie to `out`, each line after `pad`.
    fn render_into(&self, pad: &String, out: &mut String)
        requires
            pad@ == spaces(pad@.len()),
        ensures
            final(out)@ == old(out)@ + self@.render(pad@.len()),
        decreases self,
    {
        let ghost start = out@;
        let ghost indent = pad@.len();
        let mut deeper = pad.clone();
        let mut step: usize = 0;
        while step < INDENT_STEP
            invariant
                step <= INDENT_STEP,
                deeper@ == spaces(indent + step as nat),
            decreases INDENT_STEP - step,
        {
            push_char(&mut deeper, ' ');
            assert(deeper@ =~= spaces(indent + step as nat + 1));
            step = step + 1;
        }
        proof {
            self.lemma_view();
            assert(start + Seq::<char>::empty() =~= start);
        }
        let mut i: usize = 0;
        while i < self.children.len()
            invariant
                i <= self.children@.len(),
                self@.children.len() == self.children@.len(),
                pad@ == spaces(indent),
                deeper@ == spaces(indent + INDENT_STEP as nat),
                out@ == start + self@.render_first(i as nat, indent),
            decreases self.children@.len() - i,
        {
            let ghost before = out@;
            proof {
                self.lemma_view();
            }
            out.append(pad.as_str());
            out.append(self.children[i].0.as_str());
            push_char(out, '\n');
            let ghost line = shown(indent, self@.children[i as int].0);
            assert(out@ =~= before + line);
            self.children[i].1.render_into(&deeper, out);
            proof {
                let below = self@.children[i as int].1;
                assert(out@ =~= start + (self@.render_first(i as nat, indent) + line
                    + below.render_first(below.children.len(), indent + INDENT_STEP as nat)));
            }
            i = i + 1;
        }
    }

    /// Renders the trie as text: one line for each node but this one, parents
    /// before their children, children in the order of their names. A line
    /// is the node's name after `indent` spaces and as many more as two for
    /// each level below the first.
    pub fn render(&self, indent: usize) -> (out: String)
        ensures
            out@ == self@.render(indent as nat),
    {
        let mut pad = String::new();
        let mut n: usize = 0;
        proof {
            assert(pad@ =~= spaces(0));
        }
        while n < indent
            invariant
                n <= indent,
                pad@ == spaces(n as nat),
            decreases indent - n,
        {
            push_char(&mut pad, ' ');
            assert(pad@ =~= spaces(n as nat + 1));
            n = n + 1;
        }
        let mut out = String::new();
        self.render_into(&pad, &mut out);
        assert(Seq::<char>::empty() + self@.render(indent as nat) =~= self@.render(indent as nat));
        out
    }

    /// Renders the trie at `path`, one step in; or, if there is no such path,
    /// the whole trie from the margin.
    pub fn render_at(&self, path: &str) -> (out: String)
        requires
            self@.wf(),
        ensures
            out@ == match self@.subtree(segments(path@)) {
                Some(t) => t.render(INDENT_STEP as nat),
                None => self@.render(0),
            },
    {
        match self.get(path) {
            Some(node) => node.render(INDENT_STEP),
            None => self.render(0),
        }
    }

    /// Builds the trie of a listing: every line is a path and is put in.
    pub fn from_listing(listing: &str) -> (root: Node)
        ensures
            root@ == Tree::empty().insert_all(listed_paths(listing@)),
            root@.wf(),
    {
        let ls = split_lines(listing);
        let mut root = Node::new();
        let mut k: usize = 0;
        let ghost paths = listed_paths(listing@);
        proof {
            assert(paths.take(0) =~= Seq::<Seq<Seq<char>>>::empty());
        }
        while k < ls.len()
            invariant
                k <= ls.len(),
                texts(ls@) == lines(listing@),
                paths == listed_paths(listing@),
                root@.wf(),
                root@ == Tree::empty().insert_all(paths.take(k as int)),
            decreases ls.len() - k,
        {
            proof {
                assert(texts(ls@)[k as int] == ls@[k as int]@);
                assert(paths.take(k + 1).drop_last() =~= paths.take(k as int));
                assert(paths.take(k + 1).last() == segments(ls@[k as int]@));
            }
            root.insert(ls[k].as_str());
            k = k + 1;
        }
        proof {
            assert(paths.take(ls.len() as int) =~= paths);
        }
        root
    }
}

/// The command that lists every entry of the device's file system, one
/// absolute path to a line, without crossing into other file systems.
pub open spec fn spec_android_tree_query() -> Seq<char> {
    "find / -xdev"@
}

/// The command that lists the directories of the device's file system only.
pub open spec fn spec_directories_query() -> Seq<char> {
    "find / -type d -xdev"@
}

/// Gives the command that lists every entry of the device's file system.
pub fn android_tree_query() -> (r: String)
    ensures
        r@ == spec_android_tree_query(),
{
    String::from_str("find / -xdev")
}

/// Gives the command that lists the directories of the device's file system.
pub fn directories_query() -> (r: String)
    ensures
        r@ == spec_directories_query(),
{
    String::from_str("find / -type d -xdev")
}

/// Builds the trie of every entry of the device's file system from what the
/// command of `android_tree_query` printed.
pub fn get_android_tree(listing: &str) -> (root: Node)
    ensures
        root@ == Tree::empty().insert_all(listed_paths(listing@)),
        root@.wf(),
{
    Node::from_listing(listing)
}

/// Builds the trie of the directories of the device's file system from what
/// the command of `directories_query` printed.
pub fn list_directories(listing: &str) -> (root: Node)
    ensures
        root@ == Tree::empty().insert_all(listed_paths(listing@)),
        root@.wf(),
{
    Node::from_listing(listing)
}

} // verus!
