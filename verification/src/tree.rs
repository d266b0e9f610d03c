//! The trie as a mathematical value, and what holds of it.
//!
//! A trie is the list of the children of its root, each a name with the trie
//! below it, in the strictly rising order of the names. Such a trie is
//! determined by the set of paths it holds, so what is put in decides the
//! trie, whatever the order.

use crate::order::{
    lemma_name_asymmetric,
    lemma_name_connected,
    lemma_name_irreflexive,
    lemma_name_transitive,
    name_before,
};
use vstd::prelude::*;

verus! {

/// A trie as the contracts see it: the children of its root, each a name and
/// the trie below it.
#[verifier::ext_equal]
pub struct Tree {
    pub children: Seq<(Seq<char>, Tree)>,
}

/// Whether the names of `children` are in strictly rising order.
pub open spec fn rising(children: Seq<(Seq<char>, Tree)>) -> bool {
    forall|i: int, j: int|
        #![trigger children[i], children[j]]
        0 <= i < j < children.len() ==> name_before(children[i].0, children[j].0)
}

/// How many of `children` have a name that comes before `name`.
pub open spec fn count_before(children: Seq<(Seq<char>, Tree)>, name: Seq<char>) -> int
    decreases children.len(),
{
    if children.len() == 0 {
        0
    } else {
        count_before(children.drop_last(), name) + if name_before(children.last().0, name) {
            1int
        } else {
            0int
        }
    }
}

/// Whether `p` is a prefix of `q`.
pub open spec fn is_prefix(p: Seq<Seq<char>>, q: Seq<Seq<char>>) -> bool {
    p.len() <= q.len() && q.take(p.len() as int) == p
}

impl Tree {
    /// The trie that holds the empty path only.
    pub open spec fn empty() -> Tree {
        Tree { children: Seq::empty() }
    }

    /// Whether the trie is well formed: at every node the children's names
    /// rise strictly, so no name comes twice.
    pub open spec fn wf(self) -> bool
        decreases self,
    {
        &&& rising(self.children)
        &&& forall|i: int|
            0 <= i < self.children.len() ==> (#[trigger] self.children[i]).1.wf()
    }

    /// The place of `name` among the children: the number of children whose
    /// names come before it.
    pub open spec fn rank(self, name: Seq<char>) -> int {
        count_before(self.children, name)
    }

    /// Whether the root has a child called `name`.
    pub open spec fn has_child(self, name: Seq<char>) -> bool {
        let k = self.rank(name);
        0 <= k < self.children.len() && self.children[k].0 == name
    }

    /// The trie below the child called `name`.
    pub open spec fn child(self, name: Seq<char>) -> Tree {
        self.children[self.rank(name)].1
    }

    /// The trie at `path`, if the trie holds that path.
    pub open spec fn subtree(self, path: Seq<Seq<char>>) -> Option<Tree>
        decreases path.len(),
    {
        if path.len() == 0 {
            Some(self)
        } else if self.has_child(path[0]) {
            self.child(path[0]).subtree(path.drop_first())
        } else {
            None
        }
    }

    /// Whether the trie holds `path`.
    pub open spec fn contains(self, path: Seq<Seq<char>>) -> bool {
        self.subtree(path) is Some
    }

    /// The trie with `path` put in: a child is made for each segment that
    /// has none, at its place by name.
    pub open spec fn insert(self, path: Seq<Seq<char>>) -> Tree
        decreases path.len(),
    {
        if path.len() == 0 {
            self
        } else {
            let name = path[0];
            let k = self.rank(name);
            if self.has_child(name) {
                Tree {
                    children: self.children.update(
                        k,
                        (name, self.children[k].1.insert(path.drop_first())),
                    ),
                }
            } else {
                Tree {
                    children: self.children.insert(
                        k,
                        (name, Tree::empty().insert(path.drop_first())),
                    ),
                }
            }
        }
    }

    /// The trie with every path of `paths` put in, one after the other.
    pub open spec fn insert_all(self, paths: Seq<Seq<Seq<char>>>) -> Tree
        decreases paths.len(),
    {
        if paths.len() == 0 {
            self
        } else {
            self.insert_all(paths.drop_last()).insert(paths.last())
        }
    }
}

/// `n` spaces.
pub open spec fn spaces(n: nat) -> Seq<char> {
    Seq::new(n, |i: int| ' ')
}

/// The line that shows `name` at the indent `indent`: that many spaces, the
/// name, and a line feed.
pub open spec fn shown(indent: nat, name: Seq<char>) -> Seq<char> {
    (spaces(indent) + name).push('\n')
}

/// How much deeper each level is indented.
pub const INDENT_STEP: usize = 2;

impl Tree {
    /// The text of the first `n` children: for each in turn its line, and
    /// after it the text of its own children, indented by one step more.
    pub open spec fn render_first(self, n: nat, indent: nat) -> Seq<char>
        decreases self, n,
    {
        if n == 0 || n > self.children.len() {
            Seq::empty()
        } else {
            let last = self.children[n - 1];
            self.render_first((n - 1) as nat, indent) + shown(indent, last.0)
                + last.1.render_first(last.1.children.len(), indent + INDENT_STEP as nat)
        }
    }

    /// The text of the trie at the indent `indent`: one line for each node
    /// but the root, parents before their children, children in their
    /// order, which in a well-formed trie is that of their names.
    pub open spec fn render(self, indent: nat) -> Seq<char> {
        self.render_first(self.children.len(), indent)
    }
}

/// Whether `q` is a prefix of some path of `paths`.
pub open spec fn prefix_of_any(q: Seq<Seq<char>>, paths: Seq<Seq<Seq<char>>>) -> bool {
    exists|i: int| 0 <= i < paths.len() && is_prefix(q, #[trigger] paths[i])
}

/// Among rising children the rank of a name splits them: those before it
/// have names that come before it, the others do not.
pub proof fn lemma_rank_splits(children: Seq<(Seq<char>, Tree)>, name: Seq<char>)
    requires
        rising(children),
    ensures
        0 <= count_before(children, name) <= children.len(),
        forall|i: int|
            0 <= i < count_before(children, name) ==> name_before(
                (#[trigger] children[i]).0,
                name,
            ),
        forall|i: int|
            count_before(children, name) <= i < children.len() ==> !name_before(
                (#[trigger] children[i]).0,
                name,
            ),
    decreases children.len(),
{
    if children.len() > 0 {
        let front = children.drop_last();
        let last = children.last();
        assert forall|i: int, j: int| 0 <= i < j < front.len() implies name_before(
            front[i].0,
            front[j].0,
        ) by {
            assert(front[i] == children[i] && front[j] == children[j]);
        }
        lemma_rank_splits(front, name);
        let r = count_before(front, name);
        if name_before(last.0, name) {
            if r < front.len() {
                assert(front[r] == children[r]);
                lemma_name_transitive(children[r].0, last.0, name);
            }
            assert forall|i: int| 0 <= i < r + 1 implies name_before(
                (#[trigger] children[i]).0,
                name,
            ) by {
                if i < r {
                    assert(front[i] == children[i]);
                }
            }
        } else {
            assert forall|i: int| 0 <= i < r implies name_before(
                (#[trigger] children[i]).0,
                name,
            ) by {
                assert(front[i] == children[i]);
            }
            assert forall|i: int| r <= i < children.len() implies !name_before(
                (#[trigger] children[i]).0,
                name,
            ) by {
                if i < front.len() {
                    assert(front[i] == children[i]);
                }
            }
        }
    }
}

/// Among rising children only the rank splits them so.
pub proof fn lemma_split_is_rank(children: Seq<(Seq<char>, Tree)>, name: Seq<char>, k: int)
    requires
        rising(children),
        0 <= k <= children.len(),
        forall|i: int| 0 <= i < k ==> name_before((#[trigger] children[i]).0, name),
        forall|i: int| k <= i < children.len() ==> !name_before((#[trigger] children[i]).0, name),
    ensures
        count_before(children, name) == k,
{
    lemma_rank_splits(children, name);
    let r = count_before(children, name);
    if r < k {
        assert(name_before(children[r].0, name));
    } else if k < r {
        assert(name_before(children[k].0, name));
    }
}

/// Among rising children a child is found at the rank of its name.
pub proof fn lemma_rank_finds(children: Seq<(Seq<char>, Tree)>, i: int)
    requires
        rising(children),
        0 <= i < children.len(),
    ensures
        count_before(children, children[i].0) == i,
{
    let name = children[i].0;
    assert forall|j: int| 0 <= j < i implies name_before((#[trigger] children[j]).0, name) by {}
    assert forall|j: int| i <= j < children.len() implies !name_before(
        (#[trigger] children[j]).0,
        name,
    ) by {
        if j == i {
            lemma_name_irreflexive(name);
        } else {
            lemma_name_asymmetric(name, children[j].0);
        }
    }
    lemma_split_is_rank(children, name, i);
}

/// The trie at a path of a well-formed trie is well formed.
pub proof fn lemma_subtree_wf(t: Tree, path: Seq<Seq<char>>)
    requires
        t.wf(),
    ensures
        t.subtree(path) matches Some(u) ==> u.wf(),
    decreases path.len(),
{
    if path.len() > 0 && t.has_child(path[0]) {
        lemma_subtree_wf(t.child(path[0]), path.drop_first());
    }
}

/// Putting a path into a well-formed trie leaves it well formed.
pub proof fn lemma_insert_wf(t: Tree, path: Seq<Seq<char>>)
    requires
        t.wf(),
    ensures
        t.insert(path).wf(),
    decreases path.len(),
{
    if path.len() > 0 {
        let name = path[0];
        let rest = path.drop_first();
        let k = t.rank(name);
        let u = t.insert(path);
        lemma_rank_splits(t.children, name);
        if t.has_child(name) {
            lemma_insert_wf(t.children[k].1, rest);
            assert forall|i: int, j: int| 0 <= i < j < u.children.len() implies name_before(
                u.children[i].0,
                u.children[j].0,
            ) by {
                assert(u.children[i].0 == t.children[i].0);
                assert(u.children[j].0 == t.children[j].0);
            }
            assert forall|i: int| 0 <= i < u.children.len() implies (#[trigger] u.children[i]).1.wf() by {
                if i != k {
                    assert(u.children[i] == t.children[i]);
                }
            }
        } else {
            lemma_insert_wf(Tree::empty(), rest);
            assert forall|i: int| k <= i < t.children.len() implies name_before(
                name,
                (#[trigger] t.children[i]).0,
            ) by {
                if !name_before(name, t.children[i].0) {
                    lemma_name_connected(name, t.children[i].0);
                    lemma_rank_finds(t.children, i);
                }
            }
            assert forall|i: int, j: int| 0 <= i < j < u.children.len() implies name_before(
                u.children[i].0,
                u.children[j].0,
            ) by {
                let a = if i < k { i } else { i - 1 };
                let b = if j < k { j } else { j - 1 };
                if i != k {
                    assert(u.children[i] == t.children[a]);
                }
                if j != k {
                    assert(u.children[j] == t.children[b]);
                }
            }
            assert forall|i: int| 0 <= i < u.children.len() implies (#[trigger] u.children[i]).1.wf() by {
                if i < k {
                    assert(u.children[i] == t.children[i]);
                } else if i > k {
                    assert(u.children[i] == t.children[i - 1]);
                }
            }
        }
    }
}

/// A path is a prefix of another if it is empty, or if the two start with
/// the same segment and the rest of the one is a prefix of the rest of the
/// other.
pub proof fn lemma_prefix_by_parts(q: Seq<Seq<char>>, p: Seq<Seq<char>>)
    ensures
        is_prefix(q, p) <==> (q.len() == 0 || (p.len() > 0 && q[0] == p[0] && is_prefix(
            q.drop_first(),
            p.drop_first(),
        ))),
{
    if q.len() > 0 && p.len() > 0 {
        let qr = q.drop_first();
        let pr = p.drop_first();
        if is_prefix(q, p) {
            assert(p.take(q.len() as int)[0] == q[0]);
            assert forall|i: int| 0 <= i < qr.len() implies pr.take(qr.len() as int)[i] == qr[i] by {
                assert(p.take(q.len() as int)[i + 1] == q[i + 1]);
            }
            assert(pr.take(qr.len() as int) =~= qr);
        }
        if q[0] == p[0] && is_prefix(qr, pr) {
            assert forall|i: int| 0 <= i < q.len() implies p.take(q.len() as int)[i] == q[i] by {
                if i > 0 {
                    assert(pr.take(qr.len() as int)[i - 1] == qr[i - 1]);
                }
            }
            assert(p.take(q.len() as int) =~= q);
        }
    } else if q.len() == 0 {
        assert(p.take(0) =~= q);
    }
}

/// The trie with a path put in holds what it held before and the prefixes of
/// that path, and nothing else.
pub proof fn lemma_insert_contains(t: Tree, p: Seq<Seq<char>>, q: Seq<Seq<char>>)
    requires
        t.wf(),
    ensures
        t.insert(p).contains(q) <==> (t.contains(q) || is_prefix(q, p)),
    decreases p.len(),
{
    lemma_prefix_by_parts(q, p);
    if p.len() > 0 && q.len() > 0 {
        let name = p[0];
        let n = q[0];
        let k = t.rank(name);
        let u = t.insert(p);
        lemma_insert_wf(t, p);
        lemma_rank_splits(t.children, name);
        lemma_rank_splits(t.children, n);
        lemma_rank_splits(u.children, n);
        if n == name {
            lemma_rank_finds(u.children, k);
            if t.has_child(name) {
                lemma_insert_contains(t.children[k].1, p.drop_first(), q.drop_first());
            } else {
                lemma_insert_contains(Tree::empty(), p.drop_first(), q.drop_first());
                lemma_prefix_by_parts(q.drop_first(), p.drop_first());
            }
        } else {
            if t.has_child(n) {
                let i = t.rank(n);
                let at = if t.has_child(name) || i < k {
                    i
                } else {
                    i + 1
                };
                assert(u.children[at] == t.children[i]);
                lemma_rank_finds(u.children, at);
            }
            if u.has_child(n) {
                let j = u.rank(n);
                let from = if t.has_child(name) || j < k {
                    j
                } else {
                    j - 1
                };
                assert(u.children[j] == t.children[from]);
                lemma_rank_finds(t.children, from);
            }
        }
    }
}

/// Whether some child of `children` is called `name`.
pub open spec fn names(children: Seq<(Seq<char>, Tree)>, name: Seq<char>) -> bool {
    exists|j: int| 0 <= j < children.len() && (#[trigger] children[j]).0 == name
}

/// Whether every name of `a` is a name of `b`.
pub open spec fn names_within(a: Seq<(Seq<char>, Tree)>, b: Seq<(Seq<char>, Tree)>) -> bool {
    forall|i: int| 0 <= i < a.len() ==> names(b, (#[trigger] a[i]).0)
}

/// Rising children without the last of them are rising.
proof fn lemma_rising_front(a: Seq<(Seq<char>, Tree)>)
    requires
        rising(a),
        a.len() > 0,
    ensures
        rising(a.drop_last()),
{
    let f = a.drop_last();
    assert forall|i: int, j: int| 0 <= i < j < f.len() implies name_before(f[i].0, f[j].0) by {
        assert(f[i] == a[i] && f[j] == a[j]);
    }
}

/// The last of rising children has the greatest name: if `b` has all names
/// of `a`, the last name of `a` is the last of `b` or comes before it.
proof fn lemma_last_is_greatest(a: Seq<(Seq<char>, Tree)>, b: Seq<(Seq<char>, Tree)>)
    requires
        rising(b),
        a.len() > 0,
        names_within(a, b),
    ensures
        b.len() > 0,
        a.last().0 == b.last().0 || name_before(a.last().0, b.last().0),
{
    let x = a[a.len() - 1];
    assert(names(b, x.0));
    let j = choose|j: int| 0 <= j < b.len() && (#[trigger] b[j]).0 == x.0;
    if j < b.len() - 1 {
        assert(name_before(b[j].0, b[b.len() - 1].0));
    }
}

/// If `b` has all names of `a`, both rising with the same last name, then
/// `b` without its last has all names of `a` without its last.
proof fn lemma_front_within(a: Seq<(Seq<char>, Tree)>, b: Seq<(Seq<char>, Tree)>)
    requires
        rising(a),
        a.len() > 0,
        b.len() > 0,
        names_within(a, b),
        a.last().0 == b.last().0,
    ensures
        names_within(a.drop_last(), b.drop_last()),
{
    let af = a.drop_last();
    let bf = b.drop_last();
    assert forall|i: int| 0 <= i < af.len() implies names(bf, (#[trigger] af[i]).0) by {
        assert(af[i] == a[i]);
        assert(names(b, a[i].0));
        let j = choose|j: int| 0 <= j < b.len() && (#[trigger] b[j]).0 == a[i].0;
        assert(name_before(a[i].0, a[a.len() - 1].0));
        lemma_name_asymmetric(a[i].0, a.last().0);
        assert(bf[j] == b[j]);
    }
}

/// Rising children with the same names have them at the same places.
proof fn lemma_same_names(a: Seq<(Seq<char>, Tree)>, b: Seq<(Seq<char>, Tree)>)
    requires
        rising(a),
        rising(b),
        names_within(a, b),
        names_within(b, a),
    ensures
        a.len() == b.len(),
        forall|i: int| 0 <= i < a.len() ==> (#[trigger] a[i]).0 == b[i].0,
    decreases a.len(),
{
    if a.len() == 0 {
        if b.len() > 0 {
            assert(names(a, b[0].0));
        }
    } else {
        lemma_last_is_greatest(a, b);
        lemma_last_is_greatest(b, a);
        if a.last().0 != b.last().0 {
            lemma_name_asymmetric(a.last().0, b.last().0);
        }
        lemma_rising_front(a);
        lemma_rising_front(b);
        lemma_front_within(a, b);
        lemma_front_within(b, a);
        let af = a.drop_last();
        let bf = b.drop_last();
        lemma_same_names(af, bf);
        assert forall|i: int| 0 <= i < a.len() implies (#[trigger] a[i]).0 == b[i].0 by {
            if i < af.len() {
                assert(af[i] == a[i] && bf[i] == b[i]);
            }
        }
    }
}

/// A well-formed trie has a child called `name` exactly if one of its
/// children is named so.
pub proof fn lemma_has_child_means_named(t: Tree, name: Seq<char>)
    requires
        t.wf(),
    ensures
        t.has_child(name) <==> names(t.children, name),
{
    if names(t.children, name) {
        let j = choose|j: int| 0 <= j < t.children.len() && (#[trigger] t.children[j]).0 == name;
        lemma_rank_finds(t.children, j);
    }
    if t.has_child(name) {
        assert(t.children[t.rank(name)].0 == name);
    }
}

/// Below a child, a path is found as the child's name and that path are
/// found from above.
pub proof fn lemma_subtree_below(t: Tree, i: int, q: Seq<Seq<char>>)
    requires
        t.wf(),
        0 <= i < t.children.len(),
    ensures
        t.subtree(seq![t.children[i].0] + q) == t.children[i].1.subtree(q),
        t.has_child(t.children[i].0),
{
    let n = t.children[i].0;
    let nq = seq![n] + q;
    lemma_rank_finds(t.children, i);
    assert(nq[0] == n);
    assert(nq.drop_first() =~= q);
}

/// A well-formed trie is known by the paths it holds: two that hold the same
/// paths are the same, node for node.
pub proof fn lemma_same_paths_same_trie(a: Tree, b: Tree)
    requires
        a.wf(),
        b.wf(),
        forall|q: Seq<Seq<char>>| a.contains(q) == b.contains(q),
    ensures
        a == b,
    decreases a,
{
    let none = Seq::<Seq<char>>::empty();
    assert forall|i: int| 0 <= i < a.children.len() implies names(
        b.children,
        (#[trigger] a.children[i]).0,
    ) by {
        let n = a.children[i].0;
        lemma_subtree_below(a, i, none);
        assert(a.contains(seq![n] + none));
        assert(b.contains(seq![n] + none));
        assert((seq![n] + none)[0] == n);
        assert(b.children[b.rank(n)].0 == n);
    }
    assert forall|j: int| 0 <= j < b.children.len() implies names(
        a.children,
        (#[trigger] b.children[j]).0,
    ) by {
        let n = b.children[j].0;
        lemma_subtree_below(b, j, none);
        assert(b.contains(seq![n] + none));
        assert(a.contains(seq![n] + none));
        assert((seq![n] + none)[0] == n);
        assert(a.children[a.rank(n)].0 == n);
    }
    lemma_same_names(a.children, b.children);
    assert forall|i: int| 0 <= i < a.children.len() implies a.children[i] == b.children[i] by {
        let n = a.children[i].0;
        let x = a.children[i].1;
        let y = b.children[i].1;
        assert forall|q: Seq<Seq<char>>| x.contains(q) == y.contains(q) by {
            lemma_subtree_below(a, i, q);
            lemma_subtree_below(b, i, q);
            assert(a.contains(seq![n] + q) == b.contains(seq![n] + q));
        }
        lemma_same_paths_same_trie(x, y);
    }
    assert(a.children =~= b.children);
}

/// Putting the same path in again changes nothing.
pub proof fn lemma_insert_idempotent(t: Tree, p: Seq<Seq<char>>)
    requires
        t.wf(),
    ensures
        t.insert(p).insert(p) == t.insert(p),
{
    let once = t.insert(p);
    let twice = once.insert(p);
    lemma_insert_wf(t, p);
    lemma_insert_wf(once, p);
    assert forall|q: Seq<Seq<char>>| twice.contains(q) == once.contains(q) by {
        lemma_insert_contains(t, p, q);
        lemma_insert_contains(once, p, q);
    }
    lemma_same_paths_same_trie(twice, once);
}

/// Two paths can be put in in either order: the trie is the same.
pub proof fn lemma_insert_commutes(t: Tree, p: Seq<Seq<char>>, r: Seq<Seq<char>>)
    requires
        t.wf(),
    ensures
        t.insert(p).insert(r) == t.insert(r).insert(p),
{
    let pr = t.insert(p).insert(r);
    let rp = t.insert(r).insert(p);
    lemma_insert_wf(t, p);
    lemma_insert_wf(t, r);
    lemma_insert_wf(t.insert(p), r);
    lemma_insert_wf(t.insert(r), p);
    assert forall|q: Seq<Seq<char>>| pr.contains(q) == rp.contains(q) by {
        lemma_insert_contains(t, p, q);
        lemma_insert_contains(t, r, q);
        lemma_insert_contains(t.insert(p), r, q);
        lemma_insert_contains(t.insert(r), p, q);
    }
    lemma_same_paths_same_trie(pr, rp);
}

/// The trie with many paths put in is well formed, and holds what it held
/// before and the prefixes of those paths, and nothing else.
pub proof fn lemma_insert_all_contains(t: Tree, paths: Seq<Seq<Seq<char>>>)
    requires
        t.wf(),
    ensures
        t.insert_all(paths).wf(),
        forall|q: Seq<Seq<char>>|
            #[trigger] t.insert_all(paths).contains(q) <==> (t.contains(q) || prefix_of_any(
                q,
                paths,
            )),
    decreases paths.len(),
{
    if paths.len() > 0 {
        let front = paths.drop_last();
        let mid = t.insert_all(front);
        lemma_insert_all_contains(t, front);
        lemma_insert_wf(mid, paths.last());
        assert forall|q: Seq<Seq<char>>| #[trigger]
            t.insert_all(paths).contains(q) <==> (t.contains(q) || prefix_of_any(
                q,
                paths,
            )) by {
            lemma_insert_contains(mid, paths.last(), q);
            assert(mid.contains(q) <==> (t.contains(q) || prefix_of_any(q, front)));
            if prefix_of_any(q, front) {
                let i = choose|i: int| 0 <= i < front.len() && is_prefix(q, #[trigger] front[i]);
                assert(paths[i] == front[i]);
            }
            if prefix_of_any(q, paths) {
                let i = choose|i: int| 0 <= i < paths.len() && is_prefix(q, #[trigger] paths[i]);
                if i < front.len() {
                    assert(paths[i] == front[i]);
                }
            }
        }
    }
}

/// The order in which paths are put in does not matter, nor how often each
/// is: two sequences of the same paths, such as one and a permutation of it,
/// give the same trie.
pub proof fn lemma_insert_all_order_free(
    t: Tree,
    first: Seq<Seq<Seq<char>>>,
    second: Seq<Seq<Seq<char>>>,
)
    requires
        t.wf(),
        forall|i: int| 0 <= i < first.len() ==> second.contains(#[trigger] first[i]),
        forall|i: int| 0 <= i < second.len() ==> first.contains(#[trigger] second[i]),
    ensures
        t.insert_all(first) == t.insert_all(second),
{
    let a = t.insert_all(first);
    let b = t.insert_all(second);
    lemma_insert_all_contains(t, first);
    lemma_insert_all_contains(t, second);
    assert forall|q: Seq<Seq<char>>| a.contains(q) == b.contains(q) by {
        if prefix_of_any(q, first) {
            let i = choose|i: int| 0 <= i < first.len() && is_prefix(q, #[trigger] first[i]);
            let j = choose|j: int| 0 <= j < second.len() && second[j] == first[i];
            assert(is_prefix(q, second[j]));
        }
        if prefix_of_any(q, second) {
            let i = choose|i: int| 0 <= i < second.len() && is_prefix(q, #[trigger] second[i]);
            let j = choose|j: int| 0 <= j < first.len() && first[j] == second[i];
            assert(is_prefix(q, first[j]));
        }
    }
    lemma_same_paths_same_trie(a, b);
}

/// What a lookup finds in a trie built from nothing: the root, every path
/// that was put in, and every prefix of one; no other path.
pub proof fn lemma_lookup_finds_what_was_put_in(paths: Seq<Seq<Seq<char>>>, q: Seq<Seq<char>>)
    ensures
        Tree::empty().insert_all(paths).contains(q) <==> (q.len() == 0 || prefix_of_any(q, paths)),
        forall|i: int|
            0 <= i < paths.len() ==> Tree::empty().insert_all(paths).contains(#[trigger] paths[i]),
{
    lemma_insert_all_contains(Tree::empty(), paths);
    let built = Tree::empty().insert_all(paths);
    assert(built.contains(q) <==> (Tree::empty().contains(q) || prefix_of_any(q, paths)));
    assert forall|i: int| 0 <= i < paths.len() implies built.contains(#[trigger] paths[i]) by {
        assert(paths[i].take(paths[i].len() as int) =~= paths[i]);
        assert(is_prefix(paths[i], paths[i]));
        assert(prefix_of_any(paths[i], paths));
    }
}

/// The text of a trie depends on the paths put in, not on their order: two
/// sequences of the same paths give the same text, in which siblings stand
/// in the order of their names.
pub proof fn lemma_render_order_free(
    first: Seq<Seq<Seq<char>>>,
    second: Seq<Seq<Seq<char>>>,
    indent: nat,
)
    requires
        forall|i: int| 0 <= i < first.len() ==> second.contains(#[trigger] first[i]),
        forall|i: int| 0 <= i < second.len() ==> first.contains(#[trigger] second[i]),
    ensures
        Tree::empty().insert_all(first).render(indent) == Tree::empty().insert_all(second).render(
            indent,
        ),
        Tree::empty().insert_all(first).wf(),
{
    lemma_insert_all_order_free(Tree::empty(), first, second);
    lemma_insert_all_contains(Tree::empty(), first);
}

} // verus!
